//! CPU timer.
use vstd::prelude::*;
use crate::c8core::types::C8Byte;
use crate::text::{hex2_text, push_hex2};

verus! {

/// Count after one decrement: one less, stopping at zero.
pub open spec fn decremented(c: u8) -> u8 {
    if c > 0 { (c - 1) as u8 } else { 0 }
}

/// Timer: a named countdown.
#[derive(Clone)]
pub struct Timer {
    title: String,
    count: C8Byte,
}

impl Timer {
    /// Timer name.
    pub closed spec fn title(&self) -> Seq<char> {
        self.title@
    }

    /// Current count.
    pub closed spec fn count(&self) -> u8 {
        self.count
    }

    /// Creates a timer at zero.
    pub fn new(title: String) -> (res: Self)
        ensures
            res.title() == title@,
            res.count() == 0,
    {
        Timer { title, count: 0 }
    }

    /// Counts down by one, stopping at zero; returns whether this was the
    /// sound timer reaching zero (the moment it beeps).
    pub fn decrement(&mut self) -> (beep: bool)
        ensures
            final(self).count() == decremented(old(self).count()),
            final(self).title() == old(self).title(),
            beep == (old(self).count() == 1 && old(self).title() == seq!['S', 'o', 'u', 'n', 'd']),
    {
        let mut beep = false;
        if self.count > 0 {
            self.count = self.count - 1;
            if self.count == 0 {
                let sound = "Sound".to_owned();
                proof {
                    reveal_strlit("Sound");
                }
                assert(sound@ =~= seq!['S', 'o', 'u', 'n', 'd']);
                if self.title == sound {
                    beep = true;
                }
            }
        }
        beep
    }

    /// Sets the count.
    pub fn reset(&mut self, value: C8Byte) -> (res: &Self)
        ensures
            final(self).count() == value,
            final(self).title() == old(self).title(),
            res.count() == value,
            res.title() == old(self).title(),
    {
        self.count = value;
        self
    }

    /// Current count.
    pub fn get_value(&self) -> (res: C8Byte)
        ensures
            res == self.count(),
    {
        self.count
    }

    /// The count in hexadecimal (`{:02X}`).
    pub fn debug_text(&self) -> (res: String)
        ensures
            res@ == hex2_text(self.count()),
    {
        let mut res = String::new();
        push_hex2(&mut res, self.count);
        res
    }

    /// Takes the count and name of a saved timer.
    pub fn load_from_save(&mut self, timer: Timer)
        ensures
            final(self).count() == timer.count(),
            final(self).title() == timer.title(),
    {
        self.count = timer.count;
        self.title = timer.title;
    }
}

/// A timer reset to `value` reaches zero after `value` decrements and stays there.
pub proof fn lemma_timer_countdown(value: u8, steps: nat)
    ensures
        countdown(value, steps) == if steps >= value { 0 } else { value - steps },
    decreases steps,
{
    if steps > 0 {
        lemma_timer_countdown(value, (steps - 1) as nat);
    }
}

/// Count after `steps` decrements from `value`.
pub open spec fn countdown(value: u8, steps: nat) -> u8
    decreases steps,
{
    if steps == 0 {
        value
    } else {
        decremented(countdown(value, (steps - 1) as nat))
    }
}

} // verus!
