//! CHIP-8 emulation state and the scheduling of an emulation step.
use vstd::prelude::*;
use crate::c8core::types::{C8Byte, C8RegIdx};
use crate::peripherals::input::{after_unlock, InputModel, InputState, INPUT_EMPTY_KEY};

verus! {

/// Milliseconds between two timer ticks.
pub const TIMER_FRAME_LIMIT: i64 = 16;

/// Milliseconds between two instructions in standard mode (half as many in
/// SCHIP mode).
pub const CPU_FRAME_LIMIT: i64 = 2;

/// Emulation state.
#[derive(Debug)]
pub enum EmulationState {
    /// Quit.
    Quit,
    /// Reset.
    Reset,
    /// Normal.
    Normal,
    /// Wait for input.
    WaitForInput,
}

/// What one emulation step does, as decided from the input lock and the time
/// elapsed since the last instruction and the last timer tick.
#[derive(Clone, Copy, Debug)]
pub struct StepPlan {
    /// The emulator waits for a key: nothing else happens in this step.
    pub wait_for_input: bool,
    /// A register to set to the key that released the input lock.
    pub set_register: Option<(C8RegIdx, C8Byte)>,
    /// The next instruction is executed.
    pub execute: bool,
    /// The timers are decremented.
    pub tick_timers: bool,
}

/// Milliseconds between two instructions in the given mode.
pub open spec fn cpu_frame_limit(schip_mode: bool) -> int {
    if schip_mode { CPU_FRAME_LIMIT / 2 } else { CPU_FRAME_LIMIT as int }
}

/// Plans one emulation step: a lock without its key makes the emulator wait;
/// a lock that got its key is released and its register receives the key;
/// then an instruction runs when `cpu_elapsed_ms` reaches the frame limit of
/// the mode, and the timers tick when `timer_elapsed_ms` reaches theirs.
pub fn plan_step(schip_mode: bool, input: &mut InputState, cpu_elapsed_ms: i64, timer_elapsed_ms: i64) -> (res: StepPlan)
    ensures
        ({
            let lock = old(input).model().lock;
            if lock.active && lock.key == INPUT_EMPTY_KEY {
                &&& res == (StepPlan { wait_for_input: true, set_register: None, execute: false, tick_timers: false })
                &&& final(input).model() == old(input).model()
            } else {
                &&& res == (StepPlan {
                    wait_for_input: false,
                    set_register: if lock.active { Some((lock.register, lock.key)) } else { None },
                    execute: cpu_elapsed_ms >= cpu_frame_limit(schip_mode),
                    tick_timers: timer_elapsed_ms >= TIMER_FRAME_LIMIT,
                })
                &&& final(input).model() == (InputModel { lock: after_unlock(lock).0, ..old(input).model() })
            }
        }),
{
    let cpu_framelimit = if schip_mode { CPU_FRAME_LIMIT / 2 } else { CPU_FRAME_LIMIT };
    let mut set_register = None;
    if input.is_locked() {
        if input.is_lock_key_set() {
            let reg = input.get_lock_register();
            let key = input.get_lock_key();
            set_register = Some((reg, key));
            input.unlock();
        } else {
            return StepPlan { wait_for_input: true, set_register: None, execute: false, tick_timers: false };
        }
    } else {
        proof {
            assert(after_unlock(old(input).model().lock).0 == old(input).model().lock);
        }
    }
    StepPlan {
        wait_for_input: false,
        set_register,
        execute: cpu_elapsed_ms >= cpu_framelimit,
        tick_timers: timer_elapsed_ms >= TIMER_FRAME_LIMIT,
    }
}

} // verus!
