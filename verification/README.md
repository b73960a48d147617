chip8
=====

A CHIP-8 toolkit whose logic is verified with Verus: an assembler that reads
its own listing format, a disassembler, a debugger command reader with code
listings, breakpoints and the decisions of a debugger session, the emulated
peripherals (memory, screen, keyboard, timers) and the scheduling of an
emulation step.

Layout
------

- `src/` — the verified library.
  - `c8core/` — opcodes (decoding, encoding, assembly and explanation texts),
    the assembler and its text grammar, hexadecimal and decimal numbers,
    timers.
  - `memory.rs`, `peripherals/` — memory, cartridges, screen and keyboard.
  - `debugger/` — breakpoints, command reader, what a session does after each
    read, code listing, output stream.
  - `gui/` — state shared by the scenes and frames of a user interface: the
    debug scene's keys, the debug information text, scene transitions.
  - `emulator.rs` — what one emulation step does, from the input lock and the
    time elapsed.
  - `cartridge.rs`, `breakpoints.rs`, `input.rs` — a cartridge with a
    capitalised listing, index-based breakpoints, and a keyboard with window
    flags.
- `tests/` — tests of the library.
- `app/` — the command-line program: `assemble`, `disassemble`, `debug`
  (inspects a cartridge loaded in memory) and `ui` (lists the games).
