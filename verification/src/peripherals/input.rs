//! Input system.
//!
//! Keys:
//!     1 2 3 C
//!     4 5 6 D
//!     7 8 9 E
//!     A 0 B F
//!
use vstd::prelude::*;
use crate::c8core::types::{C8Byte, C8RegIdx};
use crate::memory::zeroed;
use crate::text::{dec_text, hex_digits, push_dec, push_hex_padded, string_push};

verus! {

/// Input state count.
pub const INPUT_STATE_COUNT: usize = 16;

/// Input empty key.
pub const INPUT_EMPTY_KEY: C8Byte = 0xFF;

/// What an input lock holds: whether it is active, the register that waits for
/// a key, and the key it got.
pub struct LockState {
    /// Active.
    pub active: bool,
    /// Register.
    pub register: u8,
    /// Key.
    pub key: u8,
}

/// Lock state after `reset` (and of a new lock): inactive, no register, no key.
pub open spec fn lock_cleared() -> LockState {
    LockState { active: false, register: INPUT_EMPTY_KEY, key: INPUT_EMPTY_KEY }
}

/// Lock state after `lock(register)`, and its result: an inactive lock becomes
/// active for `register`, with no key yet; an active lock refuses.
pub open spec fn after_lock(s: LockState, register: u8) -> (LockState, bool) {
    if s.active {
        (s, false)
    } else {
        (LockState { active: true, register: register, key: INPUT_EMPTY_KEY }, true)
    }
}

/// Lock state after `unlock()`, and its result: an active lock is cleared; an
/// inactive one refuses.
pub open spec fn after_unlock(s: LockState) -> (LockState, bool) {
    if s.active {
        (lock_cleared(), true)
    } else {
        (s, false)
    }
}

/// Input lock: a register waiting for a key press.
#[derive(Clone, Debug)]
pub struct InputLock {
    active: bool,
    register: C8RegIdx,
    key: C8Byte,
}

impl InputLock {
    /// What the lock holds.
    pub closed spec fn state(&self) -> LockState {
        LockState { active: self.active, register: self.register, key: self.key }
    }

    /// Creates an inactive lock, with no register and no key.
    pub fn new() -> (res: Self)
        ensures
            res.state() == lock_cleared(),
    {
        InputLock { active: false, register: INPUT_EMPTY_KEY, key: INPUT_EMPTY_KEY }
    }

    /// Has the lock got a key.
    pub fn is_key_set(&self) -> (res: bool)
        ensures
            res == (self.state().key != INPUT_EMPTY_KEY),
    {
        self.key != INPUT_EMPTY_KEY
    }

    /// Is the lock active.
    pub fn is_locked(&self) -> (res: bool)
        ensures
            res == self.state().active,
    {
        self.active
    }

    /// Clears the lock.
    pub fn reset(&mut self)
        ensures
            final(self).state() == lock_cleared(),
    {
        self.active = false;
        self.register = INPUT_EMPTY_KEY;
        self.key = INPUT_EMPTY_KEY;
    }

    /// Activates the lock for `register`, unless it is active already.
    pub fn lock(&mut self, register: C8RegIdx) -> (res: bool)
        ensures
            (final(self).state(), res) == after_lock(old(self).state(), register),
    {
        if self.active {
            false
        } else {
            self.active = true;
            self.register = register;
            self.key = INPUT_EMPTY_KEY;
            true
        }
    }

    /// Clears an active lock.
    pub fn unlock(&mut self) -> (res: bool)
        ensures
            (final(self).state(), res) == after_unlock(old(self).state()),
    {
        if !self.active {
            false
        } else {
            self.active = false;
            self.register = INPUT_EMPTY_KEY;
            self.key = INPUT_EMPTY_KEY;
            true
        }
    }

    /// Sets the key.
    pub fn set_key(&mut self, key: C8Byte)
        ensures
            final(self).state() == (LockState { key: key, ..old(self).state() }),
    {
        self.key = key;
    }
}

/// A lock taken then released is cleared, and released only once: locking an
/// inactive lock succeeds, unlocking it then succeeds and clears it, and
/// unlocking again refuses.
pub proof fn lemma_lock_unlock(s: LockState, register: u8)
    requires
        !s.active,
    ensures
        after_lock(s, register).1,
        after_unlock(after_lock(s, register).0) == (lock_cleared(), true),
        after_unlock(lock_cleared()) == (lock_cleared(), false),
{
}

/// An active lock refuses to be taken again, and keeps its register and key.
pub proof fn lemma_lock_twice(s: LockState, register: u8, other: u8)
    requires
        !s.active,
    ensures
        after_lock(after_lock(s, register).0, other) == (after_lock(s, register).0, false),
{
}

/// Dump lines of the first `k` keys: `    K{key:X}: {state}`.
pub open spec fn key_lines(keys: Seq<u8>, k: nat) -> Seq<char>
    decreases k,
{
    if k == 0 {
        Seq::empty()
    } else {
        key_lines(keys, (k - 1) as nat) + seq![' ', ' ', ' ', ' ', 'K'] + hex_digits((k - 1) as nat) + seq![':', ' ']
            + dec_text(keys[k - 1]) + seq!['\n']
    }
}

/// Dump of key states: a line per key, then the last pressed key.
pub open spec fn input_dump(keys: Seq<u8>, last: u8) -> Seq<char> {
    key_lines(keys, keys.len()) + seq![' ', ' ', ' ', ' ', 'L', 'K', ':', ' '] + dec_text(last) + seq!['\n']
}

/// Dump of key states: a line per key, then the last pressed key.
pub fn format_input(keys: &[C8Byte], last: C8Byte) -> (res: String)
    ensures
        res@ == input_dump(keys@, last),
{
    let mut res = String::new();
    let n = keys.len();
    let mut k: usize = 0;
    while k < n
        invariant
            k <= n,
            n == keys@.len(),
            res@ =~= key_lines(keys@, k as nat),
        decreases n - k,
    {
        string_push(&mut res, ' ');
        string_push(&mut res, ' ');
        string_push(&mut res, ' ');
        string_push(&mut res, ' ');
        string_push(&mut res, 'K');
        push_hex_padded(&mut res, k, 0);
        string_push(&mut res, ':');
        string_push(&mut res, ' ');
        push_dec(&mut res, keys[k]);
        string_push(&mut res, '\n');
        k = k + 1;
    }
    string_push(&mut res, ' ');
    string_push(&mut res, ' ');
    string_push(&mut res, ' ');
    string_push(&mut res, ' ');
    string_push(&mut res, 'L');
    string_push(&mut res, 'K');
    string_push(&mut res, ':');
    string_push(&mut res, ' ');
    push_dec(&mut res, last);
    string_push(&mut res, '\n');
    res
}

/// Input state: the pressed keys, the last key pressed, and the key lock.
#[derive(Clone)]
pub struct InputState {
    data: Vec<C8Byte>,
    last_pressed_key: C8Byte,
    input_pressed: bool,
    lock: InputLock,
}

/// What an input state holds.
pub struct InputModel {
    /// Key states, 1 for pressed.
    pub keys: Seq<u8>,
    /// Last pressed key.
    pub last_pressed_key: u8,
    /// Input pressed.
    pub input_pressed: bool,
    /// Lock.
    pub lock: LockState,
}

/// Input state after pressing `key`: the key is down and last pressed, and a
/// lock waiting for a key gets it.
pub open spec fn after_press(m: InputModel, key: u8) -> InputModel {
    InputModel {
        keys: m.keys.update(key as int, 1),
        last_pressed_key: key,
        input_pressed: true,
        lock: if m.lock.active && m.lock.key == INPUT_EMPTY_KEY {
            LockState { key: key, ..m.lock }
        } else {
            m.lock
        },
    }
}

/// Input state after releasing `key`.
pub open spec fn after_release(m: InputModel, key: u8) -> InputModel {
    InputModel {
        keys: m.keys.update(key as int, 0),
        last_pressed_key: INPUT_EMPTY_KEY,
        input_pressed: false,
        lock: m.lock,
    }
}

/// Input state after waiting for a key into `register`: the lock is active for
/// that register, its key as it was.
pub open spec fn after_wait(m: InputModel, register: u8) -> InputModel {
    InputModel { lock: LockState { active: true, register: register, ..m.lock }, ..m }
}

/// A cleared input state: no key down, no last key, lock cleared.
pub open spec fn input_cleared() -> InputModel {
    InputModel {
        keys: Seq::new(INPUT_STATE_COUNT as nat, |i: int| 0u8),
        last_pressed_key: INPUT_EMPTY_KEY,
        input_pressed: false,
        lock: lock_cleared(),
    }
}

impl InputState {
    /// What the input state holds.
    pub closed spec fn model(&self) -> InputModel {
        InputModel {
            keys: self.data@,
            last_pressed_key: self.last_pressed_key,
            input_pressed: self.input_pressed,
            lock: self.lock.state(),
        }
    }

    /// Creates a cleared input state.
    pub fn new() -> (res: Self)
        ensures
            res.model() == input_cleared(),
    {
        InputState {
            data: zeroed(INPUT_STATE_COUNT),
            last_pressed_key: INPUT_EMPTY_KEY,
            input_pressed: false,
            lock: InputLock::new(),
        }
    }

    /// Waits for a key into `register`.
    pub fn wait_for_input(&mut self, register: C8RegIdx)
        ensures
            final(self).model() == after_wait(old(self).model(), register),
    {
        self.lock.active = true;
        self.lock.register = register;
    }

    /// Presses `key`.
    pub fn press(&mut self, key: C8RegIdx)
        requires
            (key as int) < INPUT_STATE_COUNT,
            (key as int) < old(self).model().keys.len(),
        ensures
            final(self).model() == after_press(old(self).model(), key),
    {
        self.data.set(key as usize, 1);
        self.last_pressed_key = key;
        self.input_pressed = true;
        if self.lock.is_locked() && !self.lock.is_key_set() {
            self.lock.set_key(key);
        }
    }

    /// Clears an active lock.
    pub fn unlock(&mut self) -> (res: bool)
        ensures
            final(self).model() == (InputModel { lock: after_unlock(old(self).model().lock).0, ..old(self).model() }),
            res == after_unlock(old(self).model().lock).1,
    {
        self.lock.unlock()
    }

    /// Is the input locked.
    pub fn is_locked(&self) -> (res: bool)
        ensures
            res == self.model().lock.active,
    {
        self.lock.is_locked()
    }

    /// Has the lock got a key.
    pub fn is_lock_key_set(&self) -> (res: bool)
        ensures
            res == (self.model().lock.key != INPUT_EMPTY_KEY),
    {
        self.lock.is_key_set()
    }

    /// Key of the lock.
    pub fn get_lock_key(&self) -> (res: C8Byte)
        ensures
            res == self.model().lock.key,
    {
        self.lock.key
    }

    /// Register of the lock.
    pub fn get_lock_register(&self) -> (res: C8RegIdx)
        ensures
            res == self.model().lock.register,
    {
        self.lock.register
    }

    /// Releases `key`.
    pub fn release(&mut self, key: C8RegIdx)
        requires
            (key as int) < INPUT_STATE_COUNT,
            (key as int) < old(self).model().keys.len(),
        ensures
            final(self).model() == after_release(old(self).model(), key),
    {
        self.data.set(key as usize, 0);
        self.last_pressed_key = INPUT_EMPTY_KEY;
        self.input_pressed = false;
    }

    /// State of `key`: 1 when pressed.
    pub fn get(&self, key: C8RegIdx) -> (res: C8Byte)
        requires
            (key as int) < INPUT_STATE_COUNT,
            (key as int) < self.model().keys.len(),
        ensures
            res == self.model().keys[key as int],
    {
        self.data[key as usize]
    }

    /// Key states.
    pub fn get_data(&self) -> (res: &[C8Byte])
        ensures
            res@ == self.model().keys,
    {
        self.data.as_slice()
    }

    /// Last pressed key.
    pub fn get_last_pressed_key(&self) -> (res: C8Byte)
        ensures
            res == self.model().last_pressed_key,
    {
        self.last_pressed_key
    }

    /// Takes the key states, last key and lock of a saved input state.
    pub fn load_from_save(&mut self, data: InputState)
        ensures
            final(self).model() == data.model(),
    {
        let InputState { data: keys, last_pressed_key, input_pressed, lock } = data;
        self.data = keys;
        self.last_pressed_key = last_pressed_key;
        self.input_pressed = input_pressed;
        self.lock = lock;
    }

    /// Dump of the key states and the last pressed key.
    pub fn dump_text(&self) -> (res: String)
        ensures
            res@ == input_dump(self.model().keys, self.model().last_pressed_key),
    {
        format_input(self.data.as_slice(), self.last_pressed_key)
    }

    /// Clears the input state.
    pub fn reset(&mut self)
        ensures
            final(self).model() == input_cleared(),
    {
        self.data = zeroed(INPUT_STATE_COUNT);
        self.last_pressed_key = INPUT_EMPTY_KEY;
        self.input_pressed = false;
        self.lock.reset();
    }
}

/// Waiting for a key then pressing one hands that key to the waiting
/// register: the lock is active, holds the register and the key, and the key
/// is down.
pub proof fn lemma_wait_then_press(m: InputModel, register: u8, key: u8)
    requires
        m.lock.key == INPUT_EMPTY_KEY,
        (key as int) < INPUT_STATE_COUNT,
        m.keys.len() == INPUT_STATE_COUNT,
    ensures
        after_press(after_wait(m, register), key).lock == (LockState { active: true, register: register, key: key }),
        after_press(after_wait(m, register), key).keys[key as int] == 1,
{
}

/// Pressing then releasing a key leaves it up, and every other key as it was.
pub proof fn lemma_press_release(m: InputModel, key: u8, other: int)
    requires
        (key as int) < INPUT_STATE_COUNT,
        m.keys.len() == INPUT_STATE_COUNT,
        0 <= other < INPUT_STATE_COUNT,
        other != key,
    ensures
        after_release(after_press(m, key), key).keys[key as int] == 0,
        after_release(after_press(m, key), key).keys[other] == m.keys[other],
        after_press(m, key).keys[other] == m.keys[other],
{
}

} // verus!
