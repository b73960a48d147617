//! State of the scenes of the user interface.
use vstd::prelude::*;

verus! {

/// Debug focus.
#[derive(Clone, Copy, Debug, PartialEq, Eq, Structural)]
pub enum DebugFocus {
    /// Main focus.
    Main,
    /// Shell focus.
    Shell,
    /// Memory focus.
    Memory,
}

/// A key that the debug scene reads, the first that was pressed in a frame,
/// in the order in which the scene tests them.
#[derive(Clone, Copy, Debug, PartialEq, Eq, Structural)]
pub enum DebugKey {
    /// Toggles the shell.
    F2,
    /// Toggles the memory view.
    F3,
    /// Steps one instruction.
    F4,
    /// Continues execution.
    F5,
    /// Pauses execution.
    F6,
    /// Writes the disassembly of the game to a file.
    F10,
    /// Goes back to the game explorer.
    Escape,
    /// Removes the last character of the shell line.
    Backspace,
    /// Validates the shell line (Enter or keypad Enter).
    Enter,
    /// A character typed at the shell.
    Char(char),
}

/// What the debug scene does for a key, besides changing its focus.
#[derive(Clone, Copy, Debug, PartialEq, Eq, Structural)]
pub enum DebugAction {
    /// Nothing.
    Nothing,
    /// The shell frame becomes active.
    ActivateShell,
    /// The shell frame becomes inactive.
    DeactivateShell,
    /// The debugger handles a step command.
    Step,
    /// The debugger handles a continue command.
    Continue,
    /// The debugger stops continuing.
    Pause,
    /// The scene manager switches to the explorer scene.
    GoToExplorer,
    /// The shell line loses its last character.
    RemoveChar,
    /// The shell line is read as a debugger command.
    ValidateLine,
    /// The disassembly of the game is written to a file.
    DumpListing,
    /// The character is added to the shell line.
    AddChar(char),
}

/// Focus and action of the debug scene after `key`, from focus `focus`:
/// F2 moves the main or memory view to the shell and activates it, and the
/// shell back to the main view; F3 moves to the memory view, and from it back
/// to the main view; Backspace, Enter and characters act only at the shell.
pub fn debug_scene_key(focus: DebugFocus, key: DebugKey) -> (res: (DebugFocus, DebugAction))
    ensures
        match key {
            DebugKey::Escape => res == (focus, DebugAction::GoToExplorer),
            DebugKey::F2 => res == (if focus == DebugFocus::Shell {
                (DebugFocus::Main, DebugAction::DeactivateShell)
            } else {
                (DebugFocus::Shell, DebugAction::ActivateShell)
            }),
            DebugKey::F3 => res == (if focus == DebugFocus::Memory {
                (DebugFocus::Main, DebugAction::Nothing)
            } else {
                (DebugFocus::Memory, DebugAction::Nothing)
            }),
            DebugKey::F4 => res == (focus, DebugAction::Step),
            DebugKey::F5 => res == (focus, DebugAction::Continue),
            DebugKey::F6 => res == (focus, DebugAction::Pause),
            DebugKey::F10 => res == (focus, DebugAction::DumpListing),
            DebugKey::Backspace => res == (focus, if focus == DebugFocus::Shell {
                DebugAction::RemoveChar
            } else {
                DebugAction::Nothing
            }),
            DebugKey::Enter => res == (focus, if focus == DebugFocus::Shell {
                DebugAction::ValidateLine
            } else {
                DebugAction::Nothing
            }),
            DebugKey::Char(c) => res == (focus, if focus == DebugFocus::Shell {
                DebugAction::AddChar(c)
            } else {
                DebugAction::Nothing
            }),
        },
{
    let at_shell = match focus {
        DebugFocus::Shell => true,
        _ => false,
    };
    match key {
        DebugKey::Escape => (focus, DebugAction::GoToExplorer),
        DebugKey::F2 => {
            if at_shell {
                (DebugFocus::Main, DebugAction::DeactivateShell)
            } else {
                (DebugFocus::Shell, DebugAction::ActivateShell)
            }
        },
        DebugKey::F3 => match focus {
            DebugFocus::Memory => (DebugFocus::Main, DebugAction::Nothing),
            _ => (DebugFocus::Memory, DebugAction::Nothing),
        },
        DebugKey::F4 => (focus, DebugAction::Step),
        DebugKey::F5 => (focus, DebugAction::Continue),
        DebugKey::F6 => (focus, DebugAction::Pause),
        DebugKey::F10 => (focus, DebugAction::DumpListing),
        DebugKey::Backspace => (focus, if at_shell { DebugAction::RemoveChar } else { DebugAction::Nothing }),
        DebugKey::Enter => (focus, if at_shell { DebugAction::ValidateLine } else { DebugAction::Nothing }),
        DebugKey::Char(c) => (focus, if at_shell { DebugAction::AddChar(c) } else { DebugAction::Nothing }),
    }
}

} // verus!
