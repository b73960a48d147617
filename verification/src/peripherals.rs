//! Peripherals of the CHIP-8 board.
pub mod cartridge;
pub mod input;
pub mod screen;

use vstd::prelude::*;
use crate::memory::{Memory, MEMORY_SIZE, INITIAL_MEMORY_POINTER};
use crate::peripherals::input::{input_cleared, InputState};
use crate::peripherals::screen::{zeros, Screen, ScreenMode, VIDEO_MEMORY_SIZE};

verus! {

/// Peripherals: keyboard, memory and screen.
pub struct Peripherals {
    /// Input.
    pub input: InputState,
    /// Memory.
    pub memory: Memory,
    /// Screen.
    pub screen: Screen,
}

impl Peripherals {
    /// Creates a released keyboard, a zeroed memory and a blank screen.
    pub fn new() -> (res: Self)
        ensures
            res.input.model() == input_cleared(),
            res.memory.bytes() == Seq::new(MEMORY_SIZE as nat, |i: int| 0u8),
            res.memory.pointer() == INITIAL_MEMORY_POINTER,
            res.screen.data.pixels() == zeros(VIDEO_MEMORY_SIZE as int),
            res.screen.data.alphas() == zeros(VIDEO_MEMORY_SIZE as int),
            res.screen.data.mode() == ScreenMode::Standard,
    {
        Peripherals { input: InputState::new(), memory: Memory::new(), screen: Screen::new() }
    }
}

} // verus!
