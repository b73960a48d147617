//! Core module.
pub mod types;
pub mod opcodes;
pub mod syntax;
pub mod assembler;
pub mod timer;
pub mod savestate;
pub mod roundtrip;
