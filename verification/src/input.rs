//! CHIP-8 input system, with the window flags.
//!
//! Keys:
//!     1 2 3 C
//!     4 5 6 D
//!     7 8 9 E
//!     A 0 B F
//!
use vstd::prelude::*;
use crate::c8core::types::{C8Byte, C8RegIdx};
use crate::memory::zeroed;
use crate::peripherals::input::{format_input, input_dump, INPUT_EMPTY_KEY, INPUT_STATE_COUNT};

verus! {

/// Input state flags.
#[derive(Clone, Debug)]
pub struct InputStateFlags {
    /// Should close.
    pub should_close: bool,
    /// Should reset.
    pub should_reset: bool,
    /// Should save.
    pub should_save: bool,
    /// Should load.
    pub should_load: bool,
}

/// Input state data.
#[derive(Clone, Debug)]
pub struct InputStateData {
    data: Vec<C8Byte>,
    last_pressed_key: C8Byte,
    input_pressed: bool,
    /// Flags.
    pub flags: InputStateFlags,
}

/// No flag raised.
pub open spec fn flags_cleared(f: InputStateFlags) -> bool {
    !f.should_close && !f.should_reset && !f.should_save && !f.should_load
}

impl InputStateData {
    /// Key states, 1 for pressed.
    pub closed spec fn keys(&self) -> Seq<u8> {
        self.data@
    }

    /// Last pressed key.
    pub closed spec fn last_key(&self) -> u8 {
        self.last_pressed_key
    }

    /// Whether the last event pressed a key.
    pub closed spec fn pressed(&self) -> bool {
        self.input_pressed
    }

    /// Window flags.
    pub closed spec fn window_flags(&self) -> InputStateFlags {
        self.flags
    }
}

/// Input state: keyboard of the emulated machine, bound to host keys outside.
pub struct InputState {
    /// Data.
    pub data: InputStateData,
}

impl InputState {
    /// There is one key state per key.
    pub open spec fn well_formed(&self) -> bool {
        self.data.keys().len() == INPUT_STATE_COUNT
    }

    /// Creates an input state with no key down and no flag raised.
    pub fn new() -> (res: Self)
        ensures
            res.data.keys() == Seq::new(INPUT_STATE_COUNT as nat, |i: int| 0u8),
            res.data.last_key() == INPUT_EMPTY_KEY,
            !res.data.pressed(),
            flags_cleared(res.data.window_flags()),
            res.well_formed(),
    {
        InputState {
            data: InputStateData {
                data: zeroed(INPUT_STATE_COUNT),
                last_pressed_key: INPUT_EMPTY_KEY,
                input_pressed: false,
                flags: InputStateFlags {
                    should_close: false,
                    should_reset: false,
                    should_save: false,
                    should_load: false,
                },
            },
        }
    }

    /// Last pressed key.
    pub fn wait_for_input(&mut self) -> (res: C8Byte)
        ensures
            res == old(self).data.last_key(),
            final(self).data == old(self).data,
    {
        self.data.last_pressed_key
    }

    /// Presses `key`.
    pub fn press(&mut self, key: C8RegIdx)
        requires
            (key as int) < INPUT_STATE_COUNT,
            (key as int) < old(self).data.keys().len(),
        ensures
            final(self).data.keys() == old(self).data.keys().update(key as int, 1),
            final(self).data.last_key() == key,
            final(self).data.pressed(),
            final(self).data.window_flags() == old(self).data.window_flags(),
    {
        self.data.data.set(key as usize, 1);
        self.data.last_pressed_key = key;
        self.data.input_pressed = true;
    }

    /// Releases `key`.
    pub fn release(&mut self, key: C8RegIdx)
        requires
            (key as int) < INPUT_STATE_COUNT,
            (key as int) < old(self).data.keys().len(),
        ensures
            final(self).data.keys() == old(self).data.keys().update(key as int, 0),
            final(self).data.last_key() == INPUT_EMPTY_KEY,
            !final(self).data.pressed(),
            final(self).data.window_flags() == old(self).data.window_flags(),
    {
        self.data.data.set(key as usize, 0);
        self.data.last_pressed_key = INPUT_EMPTY_KEY;
        self.data.input_pressed = false;
    }

    /// State of `key`: 1 when pressed.
    pub fn get(&self, key: C8RegIdx) -> (res: C8Byte)
        requires
            (key as int) < INPUT_STATE_COUNT,
            (key as int) < self.data.keys().len(),
        ensures
            res == self.data.keys()[key as int],
    {
        self.data.data[key as usize]
    }

    /// Key states.
    pub fn get_data(&self) -> (res: &[C8Byte])
        ensures
            res@ == self.data.keys(),
    {
        self.data.data.as_slice()
    }

    /// Last pressed key.
    pub fn get_last_pressed_key(&self) -> (res: C8Byte)
        ensures
            res == self.data.last_key(),
    {
        self.data.last_pressed_key
    }

    /// Takes saved input data.
    pub fn load_from_save(&mut self, data: InputStateData)
        ensures
            final(self).data == data,
    {
        self.data = data;
    }

    /// Dump of the key states and the last pressed key.
    pub fn dump_text(&self) -> (res: String)
        ensures
            res@ == input_dump(self.data.keys(), self.data.last_key()),
    {
        format_input(self.data.data.as_slice(), self.data.last_pressed_key)
    }

    /// Releases every key and lowers every flag.
    pub fn reset(&mut self)
        ensures
            final(self).data.keys() == Seq::new(INPUT_STATE_COUNT as nat, |i: int| 0u8),
            final(self).data.last_key() == INPUT_EMPTY_KEY,
            !final(self).data.pressed(),
            flags_cleared(final(self).data.window_flags()),
            final(self).well_formed(),
    {
        self.data.data = zeroed(INPUT_STATE_COUNT);
        self.data.last_pressed_key = INPUT_EMPTY_KEY;
        self.data.input_pressed = false;
        self.data.flags.should_close = false;
        self.data.flags.should_reset = false;
        self.data.flags.should_save = false;
        self.data.flags.should_load = false;
    }
}

} // verus!
