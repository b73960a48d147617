use chip8::debugger::{Breakpoints, Command, CommandError, Debugger, DebuggerContext, DebuggerStream};
use chip8::debugger::console::{debugger_step, parse_command, DebuggerStep, ReadOutcome};
use chip8::memory::Memory;

#[test]
fn test_breakpoints() {
    let mut bps = Breakpoints::new();

    assert!(!bps.check_breakpoint(0x1234));

    bps.register(0x1234);
    bps.register(0x1234);
    assert!(bps.check_breakpoint(0x1234));

    bps.unregister(0x1234);
    assert!(!bps.check_breakpoint(0x1234));
    bps.unregister(0x1234);

    println!("{}", bps.dump_breakpoints());
}

#[test]
fn test_breakpoints_order_and_dump() {
    let mut bps = Breakpoints::new();
    assert_eq!(bps.dump_breakpoints(), "Breakpoints:\n  None\n");
    bps.register(0x0200);
    bps.register(0x0ABC);
    bps.register(0x0200);
    assert_eq!(bps.0, vec![0x0200, 0x0ABC]);
    assert_eq!(bps.get_breakpoint(0x0ABC), Some(1));
    assert_eq!(bps.get_breakpoint(0x0123), None);
    assert_eq!(bps.dump_breakpoints(), "Breakpoints:\n  - 0200\n  - 0ABC\n");
    bps.unregister(0x0200);
    assert_eq!(bps.0, vec![0x0ABC]);
}

#[test]
fn test_indexed_breakpoints() {
    let mut bps = chip8::breakpoints::Breakpoints::new();
    assert_eq!(bps.check_breakpoint(0x0300), None);
    bps.register(0x0300);
    bps.register(0x0302);
    bps.register(0x0300);
    assert_eq!(bps.check_breakpoint(0x0302), Some(1));
    assert_eq!(bps.dump_breakpoints(), "Breakpoints: \n  - 0300\n  - 0302\n");
    bps.unregister(0x0300);
    assert_eq!(bps.check_breakpoint(0x0300), None);
    assert_eq!(bps.check_breakpoint(0x0302), Some(0));
}

#[test]
fn test_parse_commands() {
    assert_eq!(parse_command("quit"), Ok(Command::Quit));
    assert_eq!(parse_command("q"), Ok(Command::Quit));
    assert_eq!(parse_command("c"), Ok(Command::Continue));
    assert_eq!(parse_command("dump memory"), Ok(Command::Dump("memory".to_owned())));
    assert_eq!(parse_command("d"), Err(CommandError::DumpUsage));
    assert_eq!(parse_command("where"), Ok(Command::Where));
    assert_eq!(parse_command("list"), Ok(Command::List(2)));
    assert_eq!(parse_command("l 5"), Ok(Command::List(5)));
    assert_eq!(parse_command("l 5 6"), Err(CommandError::ListUsage));
    assert_eq!(parse_command("ll"), Ok(Command::LongList));
    assert_eq!(parse_command("s"), Ok(Command::Step));
    assert_eq!(parse_command("help"), Ok(Command::Help));
    assert_eq!(parse_command("rmem 0200 16"), Ok(Command::ReadMemory(0x0200, 16)));
    assert_eq!(parse_command("rmem ZZ 16"), Err(CommandError::BadAddress("ZZ".to_owned())));
    assert_eq!(parse_command("read-mem 0200"), Err(CommandError::ReadMemoryUsage));
    assert_eq!(parse_command("b 0x20"), Ok(Command::AddBreakpoint(0x20)));
    assert_eq!(parse_command("rb 0x020A"), Ok(Command::RemoveBreakpoint(0x020A)));
    assert_eq!(parse_command("rmem 0x0200 16"), Ok(Command::ReadMemory(0x0200, 16)));
    assert_eq!(parse_command("b 0xZZ"), Err(CommandError::BadAddress("0xZZ".to_owned())));
    assert_eq!(parse_command("add-bp 020A"), Ok(Command::AddBreakpoint(0x020A)));
    assert_eq!(parse_command("b"), Err(CommandError::AddBreakpointUsage));
    assert_eq!(parse_command("rb 020A"), Ok(Command::RemoveBreakpoint(0x020A)));
    assert_eq!(parse_command("rem-bp"), Err(CommandError::RemoveBreakpointUsage));
    assert_eq!(parse_command("lb"), Ok(Command::ListBreakpoints));
    assert_eq!(parse_command(""), Ok(Command::Empty));
    assert_eq!(parse_command("jump"), Err(CommandError::Unknown));
    // A double space makes an empty word.
    assert_eq!(parse_command("dump  memory"), Err(CommandError::DumpUsage));
    let debugger = Debugger::new();
    assert_eq!(debugger.read_command("lb"), Some(Command::ListBreakpoints));
    assert_eq!(debugger.read_command("nope"), None);
}

#[test]
fn test_debugger_context_and_listing() {
    let mut ctx = DebuggerContext::new();
    assert!(ctx.is_paused());
    assert!(ctx.running);
    ctx.set_address(0x0202);
    assert_eq!(ctx.address, 0x0202);
    ctx.is_continuing = true;
    assert!(!ctx.is_paused());

    let mut memory = Memory::new();
    memory.write_data_at_offset(0x0200, &[0x00, 0xE0, 0x12, 0x00, 0x63, 0x00]);
    let debugger = Debugger::new();
    let lines = debugger.show_line_context(&memory, &ctx, 1, 1);
    assert_eq!(lines.len(), 3);
    assert_eq!(lines[0], "0200|     CLS                  ; clearing screen");
    assert_eq!(lines[1], "0202| --> JP 0200              ; jumping to address 0200");
    assert_eq!(lines[2], "0204|     LD V3, 00            ; set V3 = 00");
    // The listing does not start below 0x200.
    ctx.set_address(0x0200);
    let lines = debugger.show_line_context(&memory, &ctx, 2, 0);
    assert_eq!(lines.len(), 1);
}

#[test]
fn test_debugger_stream() {
    let mut stream = DebuggerStream::new();
    assert!(!stream.writeln_stdout("hello"));
    assert!(!stream.writeln_stderr("oops"));
    let lines = stream.get_lines();
    assert_eq!(lines.len(), 2);
    assert!(!lines[0].error);
    assert_eq!(lines[0].content, "hello");
    assert!(lines[1].error);
    assert_eq!(lines[1].content, "oops");
    stream.set_use_console(true);
    assert!(stream.writeln_stdout("printed"));
    assert_eq!(stream.get_lines().len(), 2);
}

#[test]
fn test_debugger_step() {
    assert_eq!(debugger_step(&ReadOutcome::Interrupted), DebuggerStep::Stop(Command::Quit));
    assert_eq!(debugger_step(&ReadOutcome::Eof), DebuggerStep::Stop(Command::Quit));
    assert_eq!(debugger_step(&ReadOutcome::Failed), DebuggerStep::Continue);
    let line = |s: &str| ReadOutcome::Line(s.to_owned());
    assert_eq!(debugger_step(&line("q")), DebuggerStep::Stop(Command::Quit));
    assert_eq!(debugger_step(&line("continue")), DebuggerStep::Stop(Command::Continue));
    assert_eq!(debugger_step(&line("s")), DebuggerStep::Stop(Command::Step));
    assert_eq!(debugger_step(&line("b 020A")), DebuggerStep::Stop(Command::AddBreakpoint(0x020A)));
    assert_eq!(debugger_step(&line("rb 0x020A")), DebuggerStep::Stop(Command::RemoveBreakpoint(0x020A)));
    assert_eq!(debugger_step(&line("where")), DebuggerStep::Show(Command::Where));
    assert_eq!(debugger_step(&line("l 5")), DebuggerStep::Show(Command::List(5)));
    assert_eq!(debugger_step(&line("dump m")), DebuggerStep::Show(Command::Dump("m".to_owned())));
    assert_eq!(debugger_step(&line("rmem 0200 4")), DebuggerStep::Show(Command::ReadMemory(0x0200, 4)));
    assert_eq!(debugger_step(&line("lb")), DebuggerStep::Show(Command::ListBreakpoints));
    assert_eq!(debugger_step(&line("")), DebuggerStep::Show(Command::Empty));
    assert_eq!(debugger_step(&line("jump")), DebuggerStep::Unknown);
    assert_eq!(debugger_step(&line("b ZZ")), DebuggerStep::Unknown);
    assert_eq!(debugger_step(&line("d")), DebuggerStep::Unknown);
}
