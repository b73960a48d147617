//! Scene context shared by the scenes of the user interface.
use vstd::prelude::*;

verus! {

/// Map of cache entries: each key to its value, a later entry winning over an
/// earlier one with the same key.
pub open spec fn cache_map(entries: Seq<(String, String)>) -> Map<Seq<char>, Seq<char>>
    decreases entries.len(),
{
    if entries.len() == 0 {
        Map::empty()
    } else {
        cache_map(entries.drop_last()).insert(entries.last().0@, entries.last().1@)
    }
}

/// No key occurs in two entries.
pub open spec fn keys_distinct(entries: Seq<(String, String)>) -> bool {
    forall|i: int, j: int| 0 <= i < j < entries.len() ==> entries[i].0@ != entries[j].0@
}

/// Scene context.
#[derive(Debug)]
pub struct SceneContext {
    /// Current scene name.
    pub current_scene_name: Option<String>,
    /// Running.
    pub running: bool,
    cache_data: Vec<(String, String)>,
}

/// Scene run result.
pub enum SceneRunResult {
    /// Continue.
    Continue,
    /// Stop.
    Stop,
}

proof fn lemma_cache_map_keys(entries: Seq<(String, String)>)
    ensures
        forall|k: Seq<char>| #[trigger] cache_map(entries).contains_key(k) <==> exists|i: int| 0 <= i < entries.len() && entries[i].0@ == k,
    decreases entries.len(),
{
    if entries.len() > 0 {
        let prev = entries.drop_last();
        lemma_cache_map_keys(prev);
        assert forall|k: Seq<char>| #[trigger] cache_map(entries).contains_key(k) implies exists|i: int| 0 <= i < entries.len() && entries[i].0@ == k by {
            if k == entries.last().0@ {
                assert(entries[entries.len() - 1].0@ == k);
            } else {
                assert(cache_map(prev).contains_key(k));
                let i = choose|i: int| 0 <= i < prev.len() && prev[i].0@ == k;
                assert(prev[i] == entries[i]);
                assert(entries[i].0@ == k);
            }
        }
        assert forall|k: Seq<char>| (exists|i: int| 0 <= i < entries.len() && entries[i].0@ == k) implies #[trigger] cache_map(entries).contains_key(k) by {
            let i = choose|i: int| 0 <= i < entries.len() && entries[i].0@ == k;
            if i < entries.len() - 1 {
                assert(prev[i] == entries[i]);
                assert(prev[i].0@ == k);
                assert(cache_map(prev).contains_key(k));
            }
        }
    }
}

/// With distinct keys, the value of the key of entry `i` is the value of that entry.
proof fn lemma_cache_map_value(entries: Seq<(String, String)>, i: int)
    requires
        keys_distinct(entries),
        0 <= i < entries.len(),
    ensures
        cache_map(entries).contains_key(entries[i].0@),
        cache_map(entries)[entries[i].0@] == entries[i].1@,
    decreases entries.len(),
{
    let prev = entries.drop_last();
    if i < entries.len() - 1 {
        assert(prev[i] == entries[i]);
        lemma_cache_map_value(prev, i);
        assert(entries[i].0@ != entries.last().0@);
    }
}

/// Replacing the value of entry `i` updates the map at its key.
proof fn lemma_cache_map_update(entries: Seq<(String, String)>, i: int, e: (String, String))
    requires
        keys_distinct(entries),
        0 <= i < entries.len(),
        e.0@ == entries[i].0@,
    ensures
        cache_map(entries.update(i, e)) == cache_map(entries).insert(e.0@, e.1@),
        keys_distinct(entries.update(i, e)),
    decreases entries.len(),
{
    let u = entries.update(i, e);
    let prev = entries.drop_last();
    if i == entries.len() - 1 {
        assert(u.drop_last() =~= prev);
        assert(cache_map(u) == cache_map(prev).insert(e.0@, e.1@));
        assert(cache_map(prev).insert(e.0@, e.1@) =~= cache_map(prev).insert(e.0@, entries.last().1@).insert(e.0@, e.1@));
    } else {
        assert(u.drop_last() =~= prev.update(i, e));
        assert(prev[i] == entries[i]);
        lemma_cache_map_update(prev, i, e);
        assert(entries[i].0@ != entries.last().0@);
        assert(cache_map(u) =~= cache_map(entries).insert(e.0@, e.1@));
    }
}

impl SceneContext {
    /// Cached data: each key to its value.
    pub closed spec fn cache(&self) -> Map<Seq<char>, Seq<char>> {
        cache_map(self.cache_data@)
    }

    /// Name of the current scene.
    pub closed spec fn scene_name(&self) -> Option<Seq<char>> {
        match self.current_scene_name {
            Some(s) => Some(s@),
            None => None,
        }
    }

    /// Whether the scene loop runs.
    pub closed spec fn is_running(&self) -> bool {
        self.running
    }

    /// No key is cached twice.
    pub closed spec fn well_formed(&self) -> bool {
        keys_distinct(self.cache_data@)
    }

    /// Creates a running context with no scene and an empty cache.
    pub fn new() -> (res: Self)
        ensures
            res.scene_name() is None,
            res.is_running(),
            res.cache() == Map::<Seq<char>, Seq<char>>::empty(),
            res.well_formed(),
    {
        SceneContext { current_scene_name: None, running: true, cache_data: Vec::new() }
    }

    /// Stops the scene loop.
    pub fn quit(&mut self)
        ensures
            !final(self).is_running(),
            final(self).scene_name() == old(self).scene_name(),
            final(self).cache() == old(self).cache(),
            final(self).well_formed() == old(self).well_formed(),
    {
        self.running = false;
    }

    /// Sets the current scene.
    pub fn set_current_scene(&mut self, name: &str)
        ensures
            final(self).scene_name() == Some(name@),
            final(self).is_running() == old(self).is_running(),
            final(self).cache() == old(self).cache(),
            final(self).well_formed() == old(self).well_formed(),
    {
        self.current_scene_name = Some(name.to_owned());
    }

    /// Caches `value` under `key`, replacing the value it had.
    pub fn set_cache_data(&mut self, key: &str, value: String)
        requires
            old(self).well_formed(),
        ensures
            final(self).cache() == old(self).cache().insert(key@, value@),
            final(self).scene_name() == old(self).scene_name(),
            final(self).is_running() == old(self).is_running(),
            final(self).well_formed(),
    {
        let k = key.to_owned();
        match self.find_key(&k) {
            Some(i) => {
                proof {
                    lemma_cache_map_update(self.cache_data@, i as int, (k, value));
                }
                self.cache_data.set(i, (k, value));
            },
            None => {
                proof {
                    lemma_cache_map_keys(self.cache_data@);
                }
                self.cache_data.push((k, value));
                assert(self.cache_data@.drop_last() =~= old(self).cache_data@);
            },
        }
    }

    /// The value cached under `key`, if any.
    pub fn get_cache_data(&self, key: &str) -> (res: Option<String>)
        requires
            self.well_formed(),
        ensures
            match res {
                Some(v) => self.cache().contains_key(key@) && self.cache()[key@] == v@,
                None => !self.cache().contains_key(key@),
            },
    {
        let k = key.to_owned();
        match self.find_key(&k) {
            Some(i) => {
                proof {
                    lemma_cache_map_value(self.cache_data@, i as int);
                }
                Some(self.cache_data[i].1.clone())
            },
            None => {
                proof {
                    lemma_cache_map_keys(self.cache_data@);
                }
                None
            },
        }
    }

    fn find_key(&self, key: &String) -> (res: Option<usize>)
        ensures
            match res {
                Some(i) => i < self.cache_data@.len() && self.cache_data@[i as int].0@ == key@,
                None => forall|i: int| 0 <= i < self.cache_data@.len() ==> self.cache_data@[i].0@ != key@,
            },
    {
        let n = self.cache_data.len();
        let mut i: usize = 0;
        while i < n
            invariant
                i <= n,
                n == self.cache_data@.len(),
                forall|j: int| 0 <= j < i ==> self.cache_data@[j].0@ != key@,
            decreases n - i,
        {
            if self.cache_data[i].0 == *key {
                return Some(i);
            }
            i = i + 1;
        }
        None
    }
}

/// Whether the current scene differs from the last loaded one: it does
/// unless both are absent or both name the same scene.
pub fn has_scene_changed(current: &Option<String>, last: &Option<String>) -> (res: bool)
    ensures
        res == match (current, last) {
            (Some(c), Some(l)) => c@ != l@,
            (None, None) => false,
            _ => true,
        },
{
    match (current, last) {
        (Some(c), Some(l)) => !(*c == *l),
        (None, None) => false,
        _ => true,
    }
}

/// Text of an optional scene name.
pub open spec fn name_view(name: Option<String>) -> Option<Seq<char>> {
    match name {
        Some(n) => Some(n@),
        None => None,
    }
}

/// The current scene differs from the last loaded one.
pub open spec fn scene_changed(current: Option<Seq<char>>, last: Option<Seq<char>>) -> bool {
    match (current, last) {
        (Some(c), Some(l)) => c != l,
        (None, None) => false,
        _ => true,
    }
}

/// What the scene manager does before it steps the current scene.
pub struct SceneTransition {
    /// The scene to destroy.
    pub destroy: Option<String>,
    /// The scene to initialise.
    pub init: Option<String>,
    /// The scene remembered as the last loaded one afterwards.
    pub last_loaded: Option<String>,
}

/// Transition from the last loaded scene to the current one: when the scene
/// changed, the last loaded scene is destroyed and the current one, if any, is
/// initialised and remembered; otherwise nothing happens.
pub fn scene_transition(current: &Option<String>, last: &Option<String>) -> (res: SceneTransition)
    ensures
        scene_changed(name_view(*current), name_view(*last)) ==> {
            &&& name_view(res.destroy) == name_view(*last)
            &&& name_view(res.init) == name_view(*current)
            &&& name_view(res.last_loaded) == if current is Some { name_view(*current) } else { name_view(*last) }
        },
        !scene_changed(name_view(*current), name_view(*last)) ==> {
            &&& res.destroy is None
            &&& res.init is None
            &&& name_view(res.last_loaded) == name_view(*last)
        },
        current is Some ==> !scene_changed(name_view(*current), name_view(res.last_loaded)),
{
    if has_scene_changed(current, last) {
        let destroy = match last {
            Some(l) => Some(l.clone()),
            None => None,
        };
        let init = match current {
            Some(c) => Some(c.clone()),
            None => None,
        };
        let last_loaded = match current {
            Some(c) => Some(c.clone()),
            None => match last {
                Some(l) => Some(l.clone()),
                None => None,
            },
        };
        SceneTransition { destroy, init, last_loaded }
    } else {
        let last_loaded = match last {
            Some(l) => Some(l.clone()),
            None => None,
        };
        SceneTransition { destroy: None, init: None, last_loaded }
    }
}

/// What is cached under a key is read back under that key, and caching under
/// one key leaves every other key as it was.
pub proof fn lemma_cache_set_get(
    cache: Map<Seq<char>, Seq<char>>,
    key: Seq<char>,
    value: Seq<char>,
    other: Seq<char>,
)
    ensures
        cache.insert(key, value).contains_key(key),
        cache.insert(key, value)[key] == value,
        other != key ==> (cache.insert(key, value).contains_key(other) == cache.contains_key(other)),
        other != key && cache.contains_key(other) ==> cache.insert(key, value)[other] == cache[other],
{
}

} // verus!
