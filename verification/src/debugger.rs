//! Debugger module.
pub mod breakpoints;
pub mod console;
pub mod errors;
pub mod stream;

pub use breakpoints::Breakpoints;
pub use console::{Command, CommandError, Debugger, DebuggerContext};
pub use stream::DebuggerStream;
