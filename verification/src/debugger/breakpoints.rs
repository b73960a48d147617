//! CHIP-8 breakpoints.
use vstd::prelude::*;
use crate::c8core::types::C8Addr;
use crate::text::{hex4_text, push_hex4, string_push};
use vstd::string::StringExecFns;

verus! {

/// Index of the first occurrence of `addr` in `bps`, if any.
pub open spec fn first_index(bps: Seq<u16>, addr: u16) -> Option<int> {
    if bps.contains(addr) {
        Some(choose|i: int| 0 <= i < bps.len() && bps[i] == addr && forall|j: int| 0 <= j < i ==> bps[j] != addr)
    } else {
        None
    }
}

/// Breakpoints after registering `addr`: appended unless already there.
pub open spec fn registered(bps: Seq<u16>, addr: u16) -> Seq<u16> {
    if bps.contains(addr) { bps } else { bps.push(addr) }
}

/// Breakpoints after unregistering `addr`: its first occurrence is removed.
pub open spec fn unregistered(bps: Seq<u16>, addr: u16) -> Seq<u16> {
    match first_index(bps, addr) {
        Some(i) => bps.remove(i),
        None => bps,
    }
}

/// No address occurs twice.
pub open spec fn distinct(bps: Seq<u16>) -> bool {
    forall|i: int, j: int| 0 <= i < j < bps.len() ==> bps[i] != bps[j]
}

/// `first_index` is the first position of the address.
pub proof fn lemma_first_index(bps: Seq<u16>, addr: u16)
    ensures
        match first_index(bps, addr) {
            Some(i) => 0 <= i < bps.len() && bps[i] == addr && forall|j: int| 0 <= j < i ==> bps[j] != addr,
            None => !bps.contains(addr),
        },
{
    if bps.contains(addr) {
        let k = choose|k: int| 0 <= k < bps.len() && bps[k] == addr;
        lemma_exists_first(bps, addr, k);
    }
}

proof fn lemma_exists_first(bps: Seq<u16>, addr: u16, k: int)
    requires
        0 <= k < bps.len(),
        bps[k] == addr,
    ensures
        exists|i: int| 0 <= i < bps.len() && bps[i] == addr && forall|j: int| 0 <= j < i ==> bps[j] != addr,
    decreases k,
{
    if exists|j: int| 0 <= j < k && bps[j] == addr {
        let j = choose|j: int| 0 <= j < k && bps[j] == addr;
        lemma_exists_first(bps, addr, j);
    } else {
        assert(0 <= k < bps.len() && bps[k] == addr && forall|j: int| 0 <= j < k ==> bps[j] != addr);
    }
}

/// Position of the first occurrence of `addr` in `bps`.
pub fn position_of(bps: &Vec<C8Addr>, addr: C8Addr) -> (res: Option<usize>)
    ensures
        match res {
            Some(i) => first_index(bps@, addr) == Some(i as int),
            None => first_index(bps@, addr) is None,
        },
{
    let n = bps.len();
    let mut i: usize = 0;
    while i < n
        invariant
            i <= n,
            n == bps@.len(),
            forall|j: int| 0 <= j < i ==> bps@[j] != addr,
        decreases n - i,
    {
        if bps[i] == addr {
            proof {
                lemma_first_index(bps@, addr);
                let f = first_index(bps@, addr)->0;
                assert(f == i) by {
                    if f < i {
                        assert(bps@[f] != addr);
                    } else if f > i {
                        assert(bps@[i as int] == addr);
                    }
                }
            }
            return Some(i);
        }
        i = i + 1;
    }
    proof {
        lemma_first_index(bps@, addr);
        assert(!bps@.contains(addr));
    }
    None
}

/// Listing lines of breakpoint addresses: `  - ADDR` each, ended by a newline.
pub open spec fn breakpoint_lines(bps: Seq<u16>) -> Seq<char>
    decreases bps.len(),
{
    if bps.len() == 0 {
        Seq::empty()
    } else {
        breakpoint_lines(bps.drop_last()) + seq![' ', ' ', '-', ' '] + hex4_text(bps.last()) + seq!['\n']
    }
}

/// Dump of a breakpoint list under `header`: its lines, or `  None` when it is empty.
pub open spec fn breakpoints_text(header: Seq<char>, bps: Seq<u16>) -> Seq<char> {
    header + if bps.len() == 0 {
        seq![' ', ' ', 'N', 'o', 'n', 'e', '\n']
    } else {
        breakpoint_lines(bps)
    }
}

/// Dump of the breakpoint list `bps` under `header`.
pub fn format_breakpoints(header: &str, bps: &Vec<C8Addr>) -> (res: String)
    ensures
        res@ == breakpoints_text(header@, bps@),
{
    let mut res = String::new();
    res.append(header);
    let n = bps.len();
    if n == 0 {
        string_push(&mut res, ' ');
        string_push(&mut res, ' ');
        string_push(&mut res, 'N');
        string_push(&mut res, 'o');
        string_push(&mut res, 'n');
        string_push(&mut res, 'e');
        string_push(&mut res, '\n');
        assert(res@ =~= breakpoints_text(header@, bps@));
        return res;
    }
    let mut i: usize = 0;
    while i < n
        invariant
            i <= n,
            n == bps@.len(),
            res@ =~= header@ + breakpoint_lines(bps@.take(i as int)),
        decreases n - i,
    {
        string_push(&mut res, ' ');
        string_push(&mut res, ' ');
        string_push(&mut res, '-');
        string_push(&mut res, ' ');
        push_hex4(&mut res, bps[i]);
        string_push(&mut res, '\n');
        assert(bps@.take(i + 1).drop_last() =~= bps@.take(i as int));
        i = i + 1;
    }
    assert(bps@.take(n as int) =~= bps@);
    res
}

/// Breakpoints.
pub struct Breakpoints(pub Vec<C8Addr>);

impl Breakpoints {
    /// Creates an empty breakpoint list.
    pub fn new() -> (res: Self)
        ensures
            res.0@ == Seq::<u16>::empty(),
    {
        Breakpoints(Vec::new())
    }

    /// Registers a breakpoint at `addr`, unless there is one already.
    pub fn register(&mut self, addr: C8Addr)
        ensures
            final(self).0@ == registered(old(self).0@, addr),
    {
        if self.get_breakpoint(addr).is_none() {
            self.0.push(addr);
        }
        proof {
            lemma_first_index(old(self).0@, addr);
        }
    }

    /// Removes the breakpoint at `addr`, if there is one.
    pub fn unregister(&mut self, addr: C8Addr)
        ensures
            final(self).0@ == unregistered(old(self).0@, addr),
    {
        if let Some(idx) = self.get_breakpoint(addr) {
            proof {
                lemma_first_index(self.0@, addr);
            }
            self.0.remove(idx);
        }
    }

    /// Index of the breakpoint at `addr`, if any.
    pub fn get_breakpoint(&self, addr: C8Addr) -> (res: Option<usize>)
        ensures
            match res {
                Some(i) => first_index(self.0@, addr) == Some(i as int),
                None => first_index(self.0@, addr) is None,
            },
    {
        position_of(&self.0, addr)
    }

    /// Dump of the breakpoints: `Breakpoints:` then a line per address.
    pub fn dump_breakpoints(&self) -> (res: String)
        ensures
            res@ == breakpoints_text(seq!['B', 'r', 'e', 'a', 'k', 'p', 'o', 'i', 'n', 't', 's', ':', '\n'], self.0@),
    {
        let header = "Breakpoints:\n";
        proof {
            reveal_strlit("Breakpoints:\n");
        }
        format_breakpoints(header, &self.0)
    }

    /// Is there a breakpoint at `addr`.
    pub fn check_breakpoint(&self, addr: C8Addr) -> (res: bool)
        ensures
            res == self.0@.contains(addr),
    {
        let r = self.get_breakpoint(addr).is_some();
        proof {
            lemma_first_index(self.0@, addr);
        }
        r
    }
}

/// A registered address is found: after `register(addr)`, `check_breakpoint(addr)` holds.
pub proof fn lemma_register_then_check(bps: Seq<u16>, addr: u16)
    ensures
        registered(bps, addr).contains(addr),
{
    if !bps.contains(addr) {
        assert(bps.push(addr)[bps.len() as int] == addr);
    }
}

/// Registering twice is registering once.
pub proof fn lemma_register_idempotent(bps: Seq<u16>, addr: u16)
    ensures
        registered(registered(bps, addr), addr) == registered(bps, addr),
{
    lemma_register_then_check(bps, addr);
}

/// Registering keeps the addresses distinct.
pub proof fn lemma_register_distinct(bps: Seq<u16>, addr: u16)
    requires
        distinct(bps),
    ensures
        distinct(registered(bps, addr)),
{
}

/// Unregistering keeps the addresses distinct, and in a list without
/// duplicates (every list built by `register`), removes the address for good:
/// after `unregister(addr)`, `check_breakpoint(addr)` is false.
pub proof fn lemma_unregister_then_check(bps: Seq<u16>, addr: u16)
    requires
        distinct(bps),
    ensures
        !unregistered(bps, addr).contains(addr),
        distinct(unregistered(bps, addr)),
{
    lemma_first_index(bps, addr);
    if let Some(i) = first_index(bps, addr) {
        let r = bps.remove(i);
        assert forall|k: int| 0 <= k < r.len() implies r[k] != addr by {
            if k < i {
                assert(r[k] == bps[k]);
            } else {
                assert(r[k] == bps[k + 1]);
            }
        }
        assert forall|a: int, b: int| 0 <= a < b < r.len() implies r[a] != r[b] by {
            let a2 = if a < i { a } else { a + 1 };
            let b2 = if b < i { b } else { b + 1 };
            assert(r[a] == bps[a2] && r[b] == bps[b2]);
        }
    }
}

/// Unregistering an address just registered gives back the list it was
/// registered in, when the address was not there before.
pub proof fn lemma_register_unregister(bps: Seq<u16>, addr: u16)
    requires
        !bps.contains(addr),
    ensures
        unregistered(registered(bps, addr), addr) == bps,
{
    let r = bps.push(addr);
    lemma_first_index(r, addr);
    assert(r[bps.len() as int] == addr);
    let i = first_index(r, addr)->0;
    assert(i == bps.len()) by {
        if i < bps.len() {
            assert(r[i] == bps[i]);
        }
    }
    assert(r.remove(i) =~= bps);
}

} // verus!
