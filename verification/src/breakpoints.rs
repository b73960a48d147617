//! CHIP-8 breakpoints, looked up by index.
use vstd::prelude::*;
use crate::c8core::types::C8Addr;
use crate::debugger::breakpoints::{
    breakpoints_text, distinct, first_index, format_breakpoints, lemma_first_index, position_of,
    registered, unregistered,
};

verus! {

/// Breakpoints.
pub struct Breakpoints(Vec<C8Addr>);

impl Breakpoints {
    /// Registered addresses, in registration order.
    pub closed spec fn addresses(&self) -> Seq<u16> {
        self.0@
    }

    /// No address is registered twice.
    pub open spec fn well_formed(&self) -> bool {
        distinct(self.addresses())
    }

    /// Creates an empty breakpoint list.
    pub fn new() -> (res: Self)
        ensures
            res.addresses() == Seq::<u16>::empty(),
            res.well_formed(),
    {
        Breakpoints(Vec::new())
    }

    /// Registers a breakpoint at `addr`, unless there is one already.
    pub fn register(&mut self, addr: C8Addr)
        ensures
            final(self).addresses() == registered(old(self).addresses(), addr),
            old(self).well_formed() ==> final(self).well_formed(),
    {
        if self.check_breakpoint(addr).is_none() {
            self.0.push(addr);
        }
        proof {
            lemma_first_index(old(self).0@, addr);
        }
    }

    /// Removes the breakpoint at `addr`, if there is one.
    pub fn unregister(&mut self, addr: C8Addr)
        ensures
            final(self).addresses() == unregistered(old(self).addresses(), addr),
            old(self).well_formed() ==> final(self).well_formed(),
    {
        if let Some(idx) = self.check_breakpoint(addr) {
            proof {
                lemma_first_index(self.0@, addr);
            }
            self.0.remove(idx);
        }
        proof {
            if old(self).well_formed() {
                crate::debugger::breakpoints::lemma_unregister_then_check(old(self).0@, addr);
            }
        }
    }

    /// Index of the breakpoint at `addr`, if any.
    pub fn check_breakpoint(&self, addr: C8Addr) -> (res: Option<usize>)
        ensures
            match res {
                Some(i) => first_index(self.addresses(), addr) == Some(i as int),
                None => first_index(self.addresses(), addr) is None,
            },
    {
        position_of(&self.0, addr)
    }

    /// Dump of the breakpoints: `Breakpoints: ` then a line per address.
    pub fn dump_breakpoints(&self) -> (res: String)
        ensures
            res@ == breakpoints_text(
                seq!['B', 'r', 'e', 'a', 'k', 'p', 'o', 'i', 'n', 't', 's', ':', ' ', '\n'],
                self.addresses(),
            ),
    {
        let header = "Breakpoints: \n";
        proof {
            reveal_strlit("Breakpoints: \n");
        }
        format_breakpoints(header, &self.0)
    }
}

} // verus!
