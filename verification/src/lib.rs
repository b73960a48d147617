//! CHIP-8 toolkit: assembler, disassembler, debugger and emulated peripherals.
pub mod breakpoints;
pub mod c8core;
pub mod cartridge;
pub mod debugger;
pub mod emulator;
pub mod gui;
pub mod input;
pub mod memory;
pub mod peripherals;
pub mod text;
pub mod types;
