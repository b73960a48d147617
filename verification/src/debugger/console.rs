//! CHIP-8 debugger: commands, context and code listing.
use vstd::prelude::*;
use vstd::string::StringSliceAdditionalSpecFns;
use vstd::utf8::{encode_utf8, encode_utf8_valid_utf8};
use crate::c8core::opcodes::{get_opcode_enum, get_opcode_str, spec_extract_opcode, spec_opcode_asm, spec_opcode_enum, spec_opcode_verbose};
use crate::c8core::syntax::{find_byte, lemma_after_ascii, ranges_view, split_on, split_ranges, substring};
use crate::c8core::types::{
    at_char_start, convert_hex_addr, parse_dec_bytes, parse_hex_addr_bytes, spec_hex_addr, spec_parse_dec, C8Addr,
};
use crate::memory::Memory;
use crate::peripherals::cartridge::{pad_text, push_padded};
use crate::text::{hex4_text, push_hex4, string_push};
use vstd::string::StringExecFns;

verus! {

/// Debugger.
pub struct Debugger {}

/// Command.
#[derive(Clone, Debug, PartialEq)]
pub enum Command {
    /// Quit.
    Quit,
    /// Continue.
    Continue,
    /// Where.
    Where,
    /// List.
    List(u16),
    /// Long list.
    LongList,
    /// Dump.
    Dump(String),
    /// Read memory.
    ReadMemory(C8Addr, C8Addr),
    /// Step.
    Step,
    /// Add breakpoint.
    AddBreakpoint(C8Addr),
    /// Remove breakpoint.
    RemoveBreakpoint(C8Addr),
    /// List breakpoints.
    ListBreakpoints,
    /// Help.
    Help,
    /// Empty.
    Empty,
}

/// Why a command line gives no command.
#[derive(Clone, Debug, PartialEq)]
pub enum CommandError {
    /// `dump` without exactly one device.
    DumpUsage,
    /// `list` with more than one argument.
    ListUsage,
    /// An address argument that is not hexadecimal.
    BadAddress(String),
    /// `read-mem` without exactly an address and a count.
    ReadMemoryUsage,
    /// `add-bp` without exactly one address.
    AddBreakpointUsage,
    /// `rem-bp` without exactly one address.
    RemoveBreakpointUsage,
    /// Unknown command.
    Unknown,
}

/// Debugger context.
pub struct DebuggerContext {
    /// Last command.
    pub last_command: Option<Command>,
    /// Running.
    pub running: bool,
    /// Address.
    pub address: C8Addr,
    /// Is stepping.
    pub is_stepping: bool,
    /// Is continuing.
    pub is_continuing: bool,
}

/// `w` is the long or the short name of a command.
pub open spec fn is_word(w: Seq<u8>, long: &str, short: &str) -> bool {
    w == long.spec_bytes() || w == short.spec_bytes()
}

/// Hexadecimal address argument.
pub open spec fn hex_arg(w: Seq<u8>) -> Option<u16> {
    match spec_hex_addr(w) {
        Some(v) => Some(v as u16),
        None => None,
    }
}

/// Decimal argument.
pub open spec fn dec_arg(w: Seq<u8>) -> u16 {
    spec_parse_dec(w, 0xFFFF)->0 as u16
}

/// The arguments of a command line can be read: a `list` size, and the
/// `read-mem` count after a good address, are decimal numbers.
pub open spec fn command_accepted(s: Seq<u8>) -> bool {
    let ws = split_on(s, 0x20);
    let n = ws.len();
    &&& (is_word(ws[0], "list", "l") && n == 2 ==> spec_parse_dec(ws[1], 0xFFFF) is Some)
    &&& (is_word(ws[0], "read-mem", "rmem") && n == 3 ==> (hex_arg(ws[1]) is Some ==> spec_parse_dec(ws[2], 0xFFFF) is Some))
}

/// An address command with argument `w`: the command for its address, or the
/// bad address error.
pub open spec fn address_outcome(w: Seq<u8>, res: Result<Command, CommandError>, add: bool) -> bool {
    match hex_arg(w) {
        Some(a) => res == Ok::<Command, CommandError>(if add { Command::AddBreakpoint(a) } else { Command::RemoveBreakpoint(a) }),
        None => res matches Err(CommandError::BadAddress(b)) && encode_utf8(b@) == w,
    }
}

/// `res` is what the command line `s` gives. The line is split at each space;
/// the first word names the command, the others are its arguments.
pub open spec fn command_outcome(s: Seq<u8>, res: Result<Command, CommandError>) -> bool {
    let ws = split_on(s, 0x20);
    let n = ws.len();
    let w = ws[0];
    if is_word(w, "quit", "q") {
        res == Ok::<Command, CommandError>(Command::Quit)
    } else if is_word(w, "continue", "c") {
        res == Ok::<Command, CommandError>(Command::Continue)
    } else if is_word(w, "dump", "d") {
        if n == 2 {
            res matches Ok(Command::Dump(d)) && encode_utf8(d@) == ws[1]
        } else {
            res == Err::<Command, CommandError>(CommandError::DumpUsage)
        }
    } else if is_word(w, "where", "w") {
        res == Ok::<Command, CommandError>(Command::Where)
    } else if is_word(w, "list", "l") {
        if n == 1 {
            res == Ok::<Command, CommandError>(Command::List(2))
        } else if n == 2 {
            res == Ok::<Command, CommandError>(Command::List(dec_arg(ws[1])))
        } else {
            res == Err::<Command, CommandError>(CommandError::ListUsage)
        }
    } else if is_word(w, "longlist", "ll") {
        res == Ok::<Command, CommandError>(Command::LongList)
    } else if is_word(w, "step", "s") {
        res == Ok::<Command, CommandError>(Command::Step)
    } else if is_word(w, "help", "h") {
        res == Ok::<Command, CommandError>(Command::Help)
    } else if is_word(w, "read-mem", "rmem") {
        if n == 3 {
            match hex_arg(ws[1]) {
                Some(a) => res == Ok::<Command, CommandError>(Command::ReadMemory(a, dec_arg(ws[2]))),
                None => res matches Err(CommandError::BadAddress(b)) && encode_utf8(b@) == ws[1],
            }
        } else {
            res == Err::<Command, CommandError>(CommandError::ReadMemoryUsage)
        }
    } else if is_word(w, "add-bp", "b") {
        if n == 2 {
            address_outcome(ws[1], res, true)
        } else {
            res == Err::<Command, CommandError>(CommandError::AddBreakpointUsage)
        }
    } else if is_word(w, "rem-bp", "rb") {
        if n == 2 {
            address_outcome(ws[1], res, false)
        } else {
            res == Err::<Command, CommandError>(CommandError::RemoveBreakpointUsage)
        }
    } else if is_word(w, "list-bp", "lb") {
        res == Ok::<Command, CommandError>(Command::ListBreakpoints)
    } else if w.len() == 0 {
        res == Ok::<Command, CommandError>(Command::Empty)
    } else {
        res == Err::<Command, CommandError>(CommandError::Unknown)
    }
}

/// `w[lo..hi]` is the word `lit`.
fn word_eq(w: &[u8], lo: usize, hi: usize, lit: &str) -> (r: bool)
    requires
        lo <= hi <= w@.len(),
    ensures
        r == (w@.subrange(lo as int, hi as int) == lit.spec_bytes()),
{
    let l = lit.as_bytes();
    if hi - lo != l.len() {
        return false;
    }
    let mut i: usize = 0;
    while i < l.len()
        invariant
            i <= l@.len(),
            hi - lo == l@.len(),
            lo <= hi <= w@.len(),
            l@ == lit.spec_bytes(),
            forall|k: int| 0 <= k < i ==> w@[lo + k] == l@[k],
        decreases l@.len() - i,
    {
        if w[lo + i] != l[i] {
            assert(w@.subrange(lo as int, hi as int)[i as int] != l@[i as int]);
            return false;
        }
        i = i + 1;
    }
    assert(w@.subrange(lo as int, hi as int) =~= l@);
    true
}

/// `w[lo..hi]` is the long or the short name of a command.
fn is_word_at(w: &[u8], lo: usize, hi: usize, long: &str, short: &str) -> (r: bool)
    requires
        lo <= hi <= w@.len(),
    ensures
        r == is_word(w@.subrange(lo as int, hi as int), long, short),
{
    word_eq(w, lo, hi, long) || word_eq(w, lo, hi, short)
}

/// Address command with the argument `cmd[a..b]`.
fn address_command(cmd: &str, a: usize, b: usize, add: bool) -> (res: Result<Command, CommandError>)
    requires
        a <= b <= cmd.spec_bytes().len(),
        at_char_start(cmd.spec_bytes(), a as int),
        at_char_start(cmd.spec_bytes(), b as int),
    ensures
        address_outcome(cmd.spec_bytes().subrange(a as int, b as int), res, add),
{
    let arg = substring(cmd, a, b);
    match convert_hex_addr(arg) {
        Some(addr) => {
            if add {
                Ok(Command::AddBreakpoint(addr))
            } else {
                Ok(Command::RemoveBreakpoint(addr))
            }
        },
        None => Err(CommandError::BadAddress(arg.to_owned())),
    }
}

/// Reads a command line: the command it names, or why it names none.
#[verifier::rlimit(30)]
pub fn parse_command(cmd: &str) -> (res: Result<Command, CommandError>)
    requires
        command_accepted(cmd.spec_bytes()),
    ensures
        command_outcome(cmd.spec_bytes(), res),
{
    let w = cmd.as_bytes();
    let r = split_ranges(w, 0x20);
    let ghost ws = split_on(w@, 0x20);
    let n = r.len();
    proof {
        encode_utf8_valid_utf8(cmd@);
        assert forall|i: int| 0 <= i < n implies #[trigger] ws[i] == w@.subrange(r@[i].0 as int, r@[i].1 as int)
            && at_char_start(w@, r@[i].0 as int) && at_char_start(w@, r@[i].1 as int) by {
            assert(ranges_view(w@, r@)[i] == w@.subrange(r@[i].0 as int, r@[i].1 as int));
            if r@[i].0 > 0 {
                lemma_after_ascii(w@, r@[i].0 - 1);
            }
        }
    }
    let (a, b) = r[0];
    if is_word_at(w, a, b, "quit", "q") {
        Ok(Command::Quit)
    } else if is_word_at(w, a, b, "continue", "c") {
        Ok(Command::Continue)
    } else if is_word_at(w, a, b, "dump", "d") {
        if n == 2 {
            let (a1, b1) = r[1];
            Ok(Command::Dump(substring(cmd, a1, b1).to_owned()))
        } else {
            Err(CommandError::DumpUsage)
        }
    } else if is_word_at(w, a, b, "where", "w") {
        Ok(Command::Where)
    } else if is_word_at(w, a, b, "list", "l") {
        if n == 1 {
            Ok(Command::List(2))
        } else if n == 2 {
            let (a1, b1) = r[1];
            let size = match parse_dec_bytes(w, a1, b1, 0xFFFF) {
                Some(v) => v as u16,
                None => 0,
            };
            Ok(Command::List(size))
        } else {
            Err(CommandError::ListUsage)
        }
    } else if is_word_at(w, a, b, "longlist", "ll") {
        Ok(Command::LongList)
    } else if is_word_at(w, a, b, "step", "s") {
        Ok(Command::Step)
    } else if is_word_at(w, a, b, "help", "h") {
        Ok(Command::Help)
    } else if is_word_at(w, a, b, "read-mem", "rmem") {
        if n == 3 {
            let (a1, b1) = r[1];
            let (a2, b2) = r[2];
            let arg = substring(cmd, a1, b1);
            match convert_hex_addr(arg) {
                Some(addr) => {
                    let count = match parse_dec_bytes(w, a2, b2, 0xFFFF) {
                        Some(v) => v as u16,
                        None => 0,
                    };
                    Ok(Command::ReadMemory(addr, count))
                },
                None => Err(CommandError::BadAddress(arg.to_owned())),
            }
        } else {
            Err(CommandError::ReadMemoryUsage)
        }
    } else if is_word_at(w, a, b, "add-bp", "b") {
        if n == 2 {
            let (a1, b1) = r[1];
            address_command(cmd, a1, b1, true)
        } else {
            Err(CommandError::AddBreakpointUsage)
        }
    } else if is_word_at(w, a, b, "rem-bp", "rb") {
        if n == 2 {
            let (a1, b1) = r[1];
            address_command(cmd, a1, b1, false)
        } else {
            Err(CommandError::RemoveBreakpointUsage)
        }
    } else if is_word_at(w, a, b, "list-bp", "lb") {
        Ok(Command::ListBreakpoints)
    } else if a == b {
        Ok(Command::Empty)
    } else {
        Err(CommandError::Unknown)
    }
}

/// Whether the arguments of a command line can be read (see `command_accepted`).
pub fn command_is_accepted(cmd: &str) -> (res: bool)
    ensures
        res == command_accepted(cmd.spec_bytes()),
{
    let w = cmd.as_bytes();
    let r = split_ranges(w, 0x20);
    let ghost ws = split_on(w@, 0x20);
    let n = r.len();
    proof {
        assert forall|i: int| 0 <= i < n implies #[trigger] ws[i] == w@.subrange(r@[i].0 as int, r@[i].1 as int) by {
            assert(ranges_view(w@, r@)[i] == w@.subrange(r@[i].0 as int, r@[i].1 as int));
        }
    }
    let (a, b) = r[0];
    if is_word_at(w, a, b, "list", "l") && n == 2 {
        let (a1, b1) = r[1];
        if parse_dec_bytes(w, a1, b1, 0xFFFF).is_none() {
            return false;
        }
    }
    if is_word_at(w, a, b, "read-mem", "rmem") && n == 3 {
        let (a1, b1) = r[1];
        let (a2, b2) = r[2];
        if parse_hex_addr_bytes(w, a1, b1).is_some() && parse_dec_bytes(w, a2, b2, 0xFFFF).is_none() {
            return false;
        }
    }
    true
}

impl DebuggerContext {
    /// Creates a running context at address 0, with no command yet.
    pub fn new() -> (res: Self)
        ensures
            res.last_command is None,
            res.running,
            res.address == 0,
            !res.is_stepping,
            !res.is_continuing,
    {
        DebuggerContext { last_command: None, running: true, address: 0, is_stepping: false, is_continuing: false }
    }

    /// Sets the current address.
    pub fn set_address(&mut self, addr: C8Addr)
        ensures
            final(self).address == addr,
            final(self).last_command == old(self).last_command,
            final(self).running == old(self).running,
            final(self).is_stepping == old(self).is_stepping,
            final(self).is_continuing == old(self).is_continuing,
    {
        self.address = addr;
    }

    /// Is the debugger paused: it does not continue.
    pub fn is_paused(&self) -> (res: bool)
        ensures
            res == !self.is_continuing,
    {
        !self.is_continuing
    }
}

/// Listing line of the opcode at `addr`: `{addr:04X}| {cursor:3} {assembly:20} ; {explanation}`,
/// the cursor `-->` marking the current address.
pub open spec fn debug_line(memory: Seq<u8>, current: u16, addr: u16) -> Seq<char> {
    let op = spec_opcode_enum(spec_extract_opcode(memory, addr as int));
    hex4_text(addr) + seq!['|', ' '] + pad_text(
        if current == addr { seq!['-', '-', '>'] } else { Seq::empty() },
        3,
    ) + seq![' '] + pad_text(spec_opcode_asm(op), 20) + seq![' ', ';', ' '] + spec_opcode_verbose(op)
}

/// First address listed around `base`: `prev` opcodes back, not below 0x200.
pub open spec fn context_start(base: u16, prev: u16) -> int {
    if base - 2 * prev > 0x200 { base - 2 * prev } else { 0x200 }
}

/// Number of addresses listed from `start` to `end`, two bytes apart.
pub open spec fn context_count(start: int, end: int) -> int {
    if start > end { 0 } else { (end - start) / 2 + 1 }
}

/// The code listing around `base` (`show_line_context`) starts at the larger
/// of `base - 2 * prev` and 0x200, lists every second address from there, and
/// ends at the last of them that does not pass `base + 2 * next`.
pub proof fn lemma_context_listing(base: u16, prev: u16, next: u16)
    requires
        2 * prev <= base,
        base + 2 * next <= 0xFFFF,
    ensures
        ({
            let start = context_start(base, prev);
            let end = base + 2 * next;
            let n = context_count(start, end);
            &&& start >= 0x200
            &&& start >= base - 2 * prev
            &&& (start == 0x200 || start == base - 2 * prev)
            &&& n >= 0
            &&& (n > 0 ==> start + 2 * (n - 1) <= end < start + 2 * n)
            &&& (n == 0 ==> start > end)
        }),
{
    let start = context_start(base, prev);
    let end = base + 2 * next;
    if start <= end {
        let n = (end - start) / 2 + 1;
        assert(start + 2 * (n - 1) <= end < start + 2 * n);
    }
}

impl Debugger {
    /// Creates a debugger.
    pub fn new() -> (res: Self) {
        Debugger {}
    }

    /// Reads a command line: the command it names, if any.
    pub fn read_command(&self, cmd: &str) -> (res: Option<Command>)
        requires
            command_accepted(cmd.spec_bytes()),
        ensures
            match res {
                Some(c) => command_outcome(cmd.spec_bytes(), Ok(c)),
                None => forall|c: Command| !command_outcome(cmd.spec_bytes(), Ok(c)),
            },
    {
        match parse_command(cmd) {
            Ok(c) => Some(c),
            Err(_) => None,
        }
    }

    /// Listing line of the opcode at `addr`.
    pub fn show_line(&self, memory: &Memory, ctx: &DebuggerContext, addr: C8Addr) -> (res: String)
        requires
            (addr as int) < memory.bytes().len(),
        ensures
            res@ == debug_line(memory.bytes(), ctx.address, addr),
    {
        let opcode = memory.read_opcode_at_address(addr);
        let opcode_enum = get_opcode_enum(opcode);
        let (assembly, txt) = get_opcode_str(&opcode_enum);
        let cursor = if ctx.address == addr { "-->" } else { "" };
        proof {
            reveal_strlit("-->");
            reveal_strlit("");
        }
        let mut line = String::new();
        push_hex4(&mut line, addr);
        string_push(&mut line, '|');
        string_push(&mut line, ' ');
        push_padded(&mut line, cursor, 3);
        string_push(&mut line, ' ');
        push_padded(&mut line, assembly.as_str(), 20);
        string_push(&mut line, ' ');
        string_push(&mut line, ';');
        string_push(&mut line, ' ');
        line.append(txt.as_str());
        assert(line@ =~= debug_line(memory.bytes(), ctx.address, addr));
        line
    }

    /// Listing lines around the current address: `prev` opcodes before it (not
    /// below 0x200) and `next` after it.
    pub fn show_line_context(&self, memory: &Memory, ctx: &DebuggerContext, prev_size: u16, next_size: u16) -> (res: Vec<String>)
        requires
            2 * prev_size <= ctx.address,
            ctx.address + 2 * next_size <= 0xFFFF,
            context_count(context_start(ctx.address, prev_size), ctx.address + 2 * next_size) > 0 ==>
                context_start(ctx.address, prev_size) + 2 * (context_count(context_start(ctx.address, prev_size), ctx.address + 2 * next_size) - 1)
                < memory.bytes().len(),
        ensures
            res@.len() == context_count(context_start(ctx.address, prev_size), ctx.address + 2 * next_size),
            forall|i: int| 0 <= i < res@.len() ==> #[trigger] res@[i]@ == debug_line(
                memory.bytes(),
                ctx.address,
                (context_start(ctx.address, prev_size) + 2 * i) as u16,
            ),
    {
        let base_addr = ctx.address;
        let back = base_addr - prev_size * 2;
        let min_limit: u16 = if back > 0x0200 { back } else { 0x0200 };
        let max_limit = base_addr + next_size * 2;
        let ghost count = context_count(min_limit as int, max_limit as int);
        let mut res: Vec<String> = Vec::new();
        let mut addr: u32 = min_limit as u32;
        while addr <= max_limit as u32
            invariant
                min_limit <= addr,
                addr == min_limit || addr <= max_limit + 2,
                (addr - min_limit) % 2 == 0,
                res@.len() == (addr - min_limit) / 2,
                min_limit == context_start(ctx.address, prev_size),
                max_limit == ctx.address + 2 * next_size,
                count == context_count(min_limit as int, max_limit as int),
                count > 0 ==> min_limit + 2 * (count - 1) < memory.bytes().len(),
                forall|i: int| 0 <= i < res@.len() ==> #[trigger] res@[i]@ == debug_line(
                    memory.bytes(),
                    ctx.address,
                    (min_limit + 2 * i) as u16,
                ),
            decreases max_limit + 2 - addr,
        {
            let line = self.show_line(memory, ctx, addr as u16);
            res.push(line);
            addr = addr + 2;
        }
        res
    }
}

/// What reading a line of the debugger's prompt gave.
pub enum ReadOutcome {
    /// A line was read.
    Line(String),
    /// The reader was interrupted (Ctrl-C).
    Interrupted,
    /// The input ended.
    Eof,
    /// The reader failed in another way.
    Failed,
}

/// What the debugger session does after a read.
#[derive(Clone, Debug, PartialEq)]
pub enum DebuggerStep {
    /// Carry out the command at the prompt and read again.
    Show(Command),
    /// End the session with the command as its last one.
    Stop(Command),
    /// The line names no command: say so and read again.
    Unknown,
    /// Nothing was read: read again.
    Continue,
}

/// The command hands control back to the emulator: quitting, continuing,
/// stepping, and adding or removing a breakpoint end a debugger session.
pub open spec fn ends_session(c: Command) -> bool {
    match c {
        Command::Quit | Command::Continue | Command::Step | Command::AddBreakpoint(_) | Command::RemoveBreakpoint(_) => true,
        _ => false,
    }
}

/// A command line that gives a command that ends a session gives no other.
proof fn lemma_session_command_unique(s: Seq<u8>, c1: Command, c2: Command)
    requires
        command_outcome(s, Ok(c1)),
        command_outcome(s, Ok(c2)),
        ends_session(c1),
    ensures
        c1 == c2,
{
}

/// Decides the next step of a debugger session from what the prompt read:
/// an interruption or the end of the input quits, a failed read reads again,
/// a command that hands control back ends the session, another command is
/// carried out at the prompt, and a line that names no command is reported.
pub fn debugger_step(read: &ReadOutcome) -> (res: DebuggerStep)
    requires
        read matches ReadOutcome::Line(l) ==> command_accepted(encode_utf8(l@)),
    ensures
        match read {
            ReadOutcome::Interrupted | ReadOutcome::Eof => res == DebuggerStep::Stop(Command::Quit),
            ReadOutcome::Failed => res == DebuggerStep::Continue,
            ReadOutcome::Line(l) => {
                &&& match res {
                    DebuggerStep::Stop(c) => command_outcome(encode_utf8(l@), Ok(c)) && ends_session(c),
                    DebuggerStep::Show(c) => command_outcome(encode_utf8(l@), Ok(c)) && !ends_session(c),
                    DebuggerStep::Unknown => forall|c: Command| !command_outcome(encode_utf8(l@), Ok(c)),
                    DebuggerStep::Continue => false,
                }
                &&& forall|c: Command| #[trigger] command_outcome(encode_utf8(l@), Ok(c)) ==>
                    if ends_session(c) { res == DebuggerStep::Stop(c) } else { res is Show }
            },
        },
{
    match read {
        ReadOutcome::Interrupted => DebuggerStep::Stop(Command::Quit),
        ReadOutcome::Eof => DebuggerStep::Stop(Command::Quit),
        ReadOutcome::Failed => DebuggerStep::Continue,
        ReadOutcome::Line(l) => {
            match parse_command(l.as_str()) {
                Ok(c) => {
                    proof {
                        assert forall|c2: Command| #[trigger] command_outcome(encode_utf8(l@), Ok(c2))
                            implies ends_session(c2) == ends_session(c) && (ends_session(c) ==> c2 == c) by {
                            if ends_session(c) {
                                lemma_session_command_unique(encode_utf8(l@), c, c2);
                            } else if ends_session(c2) {
                                lemma_session_command_unique(encode_utf8(l@), c2, c);
                            }
                        }
                    }
                    match c {
                        Command::Quit => DebuggerStep::Stop(c),
                        Command::Continue => DebuggerStep::Stop(c),
                        Command::Step => DebuggerStep::Stop(c),
                        Command::AddBreakpoint(_) => DebuggerStep::Stop(c),
                        Command::RemoveBreakpoint(_) => DebuggerStep::Stop(c),
                        _ => DebuggerStep::Show(c),
                    }
                },
                Err(_) => DebuggerStep::Unknown,
            }
        },
    }
}


/// The bytes of the command names.
proof fn lemma_command_word_bytes()
    ensures
        "quit".spec_bytes() == seq![113u8, 117u8, 105u8, 116u8],
        "q".spec_bytes() == seq![113u8],
        "continue".spec_bytes() == seq![99u8, 111u8, 110u8, 116u8, 105u8, 110u8, 117u8, 101u8],
        "c".spec_bytes() == seq![99u8],
        "dump".spec_bytes() == seq![100u8, 117u8, 109u8, 112u8],
        "d".spec_bytes() == seq![100u8],
        "where".spec_bytes() == seq![119u8, 104u8, 101u8, 114u8, 101u8],
        "w".spec_bytes() == seq![119u8],
        "list".spec_bytes() == seq![108u8, 105u8, 115u8, 116u8],
        "l".spec_bytes() == seq![108u8],
        "longlist".spec_bytes() == seq![108u8, 111u8, 110u8, 103u8, 108u8, 105u8, 115u8, 116u8],
        "ll".spec_bytes() == seq![108u8, 108u8],
        "step".spec_bytes() == seq![115u8, 116u8, 101u8, 112u8],
        "s".spec_bytes() == seq![115u8],
        "help".spec_bytes() == seq![104u8, 101u8, 108u8, 112u8],
        "h".spec_bytes() == seq![104u8],
        "read-mem".spec_bytes() == seq![114u8, 101u8, 97u8, 100u8, 45u8, 109u8, 101u8, 109u8],
        "rmem".spec_bytes() == seq![114u8, 109u8, 101u8, 109u8],
        "add-bp".spec_bytes() == seq![97u8, 100u8, 100u8, 45u8, 98u8, 112u8],
        "b".spec_bytes() == seq![98u8],
        "rem-bp".spec_bytes() == seq![114u8, 101u8, 109u8, 45u8, 98u8, 112u8],
        "rb".spec_bytes() == seq![114u8, 98u8],
        "list-bp".spec_bytes() == seq![108u8, 105u8, 115u8, 116u8, 45u8, 98u8, 112u8],
        "lb".spec_bytes() == seq![108u8, 98u8],
{
    reveal_strlit("quit");
    vstd::string::is_ascii_spec_bytes("quit");
    reveal_strlit("q");
    vstd::string::is_ascii_spec_bytes("q");
    reveal_strlit("continue");
    vstd::string::is_ascii_spec_bytes("continue");
    reveal_strlit("c");
    vstd::string::is_ascii_spec_bytes("c");
    reveal_strlit("dump");
    vstd::string::is_ascii_spec_bytes("dump");
    reveal_strlit("d");
    vstd::string::is_ascii_spec_bytes("d");
    reveal_strlit("where");
    vstd::string::is_ascii_spec_bytes("where");
    reveal_strlit("w");
    vstd::string::is_ascii_spec_bytes("w");
    reveal_strlit("list");
    vstd::string::is_ascii_spec_bytes("list");
    reveal_strlit("l");
    vstd::string::is_ascii_spec_bytes("l");
    reveal_strlit("longlist");
    vstd::string::is_ascii_spec_bytes("longlist");
    reveal_strlit("ll");
    vstd::string::is_ascii_spec_bytes("ll");
    reveal_strlit("step");
    vstd::string::is_ascii_spec_bytes("step");
    reveal_strlit("s");
    vstd::string::is_ascii_spec_bytes("s");
    reveal_strlit("help");
    vstd::string::is_ascii_spec_bytes("help");
    reveal_strlit("h");
    vstd::string::is_ascii_spec_bytes("h");
    reveal_strlit("read-mem");
    vstd::string::is_ascii_spec_bytes("read-mem");
    reveal_strlit("rmem");
    vstd::string::is_ascii_spec_bytes("rmem");
    reveal_strlit("add-bp");
    vstd::string::is_ascii_spec_bytes("add-bp");
    reveal_strlit("b");
    vstd::string::is_ascii_spec_bytes("b");
    reveal_strlit("rem-bp");
    vstd::string::is_ascii_spec_bytes("rem-bp");
    reveal_strlit("rb");
    vstd::string::is_ascii_spec_bytes("rb");
    reveal_strlit("list-bp");
    vstd::string::is_ascii_spec_bytes("list-bp");
    reveal_strlit("lb");
    vstd::string::is_ascii_spec_bytes("lb");
}

/// `find_byte` skips a prefix that does not hold the byte.
proof fn lemma_find_byte_past(s: Seq<u8>, i: int, k: int, c: u8)
    requires
        0 <= i <= k <= s.len(),
        forall|j: int| i <= j < k ==> s[j] != c,
    ensures
        find_byte(s, i, c) == find_byte(s, k, c),
    decreases k - i,
{
    if i < k {
        lemma_find_byte_past(s, i + 1, k, c);
    }
}

/// Two words without a space, followed by the same arguments (nothing, or a
/// space and more), split into themselves and the same argument words.
proof fn lemma_split_after_word(a: Seq<u8>, b: Seq<u8>, rest: Seq<u8>)
    requires
        forall|i: int| 0 <= i < a.len() ==> a[i] != 0x20,
        forall|i: int| 0 <= i < b.len() ==> b[i] != 0x20,
        rest.len() == 0 || rest[0] == 0x20,
    ensures
        split_on(a + rest, 0x20)[0] == a,
        split_on(b + rest, 0x20)[0] == b,
        split_on(a + rest, 0x20).len() == split_on(b + rest, 0x20).len(),
        forall|i: int| 1 <= i < split_on(a + rest, 0x20).len() ==> split_on(a + rest, 0x20)[i] == split_on(b + rest, 0x20)[i],
{
    lemma_split_word(a, rest);
    lemma_split_word(b, rest);
}

/// A word without a space, followed by nothing or by a space and more, is the
/// first part of the split, and the rest splits as what follows the space.
proof fn lemma_split_word(a: Seq<u8>, rest: Seq<u8>)
    requires
        forall|i: int| 0 <= i < a.len() ==> a[i] != 0x20,
        rest.len() == 0 || rest[0] == 0x20,
    ensures
        split_on(a + rest, 0x20) == if rest.len() == 0 {
            seq![a]
        } else {
            seq![a] + split_on(rest.skip(1), 0x20)
        },
{
    let s = a + rest;
    lemma_find_byte_past(s, 0, a.len() as int, 0x20);
    if rest.len() == 0 {
        assert(s =~= a);
        assert(find_byte(s, a.len() as int, 0x20) == s.len());
    } else {
        assert(s[a.len() as int] == 0x20);
        assert(find_byte(s, a.len() as int, 0x20) == a.len());
        assert(s.take(a.len() as int) =~= a);
        assert(s.skip(a.len() as int + 1) =~= rest.skip(1));
    }
}

/// `quit` and `q` read the same, whatever follows.
#[verifier::rlimit(40)]
proof fn lemma_alias_quit(rest: Seq<u8>, r: Result<Command, CommandError>)
    requires
        rest.len() == 0 || rest[0] == 0x20,
    ensures
        command_outcome("quit".spec_bytes() + rest, r) == command_outcome("q".spec_bytes() + rest, r),
        command_outcome("quit".spec_bytes() + rest, r) <==> r == Ok::<Command, CommandError>(Command::Quit),
{
    lemma_command_word_bytes();
    lemma_split_after_word("quit".spec_bytes(), "q".spec_bytes(), rest);
}

/// `continue` and `c` read the same, whatever follows.
#[verifier::rlimit(40)]
proof fn lemma_alias_continue(rest: Seq<u8>, r: Result<Command, CommandError>)
    requires
        rest.len() == 0 || rest[0] == 0x20,
    ensures
        command_outcome("continue".spec_bytes() + rest, r) == command_outcome("c".spec_bytes() + rest, r),
        command_outcome("continue".spec_bytes() + rest, r) <==> r == Ok::<Command, CommandError>(Command::Continue),
{
    lemma_command_word_bytes();
    lemma_split_after_word("continue".spec_bytes(), "c".spec_bytes(), rest);
}

/// `dump` and `d` read the same, whatever follows.
#[verifier::rlimit(40)]
proof fn lemma_alias_dump(rest: Seq<u8>, r: Result<Command, CommandError>)
    requires
        rest.len() == 0 || rest[0] == 0x20,
    ensures
        command_outcome("dump".spec_bytes() + rest, r) == command_outcome("d".spec_bytes() + rest, r),
{
    lemma_command_word_bytes();
    lemma_split_after_word("dump".spec_bytes(), "d".spec_bytes(), rest);
}

/// `where` and `w` read the same, whatever follows.
#[verifier::rlimit(40)]
proof fn lemma_alias_where(rest: Seq<u8>, r: Result<Command, CommandError>)
    requires
        rest.len() == 0 || rest[0] == 0x20,
    ensures
        command_outcome("where".spec_bytes() + rest, r) == command_outcome("w".spec_bytes() + rest, r),
        command_outcome("where".spec_bytes() + rest, r) <==> r == Ok::<Command, CommandError>(Command::Where),
{
    lemma_command_word_bytes();
    lemma_split_after_word("where".spec_bytes(), "w".spec_bytes(), rest);
}

/// `list` and `l` read the same, whatever follows.
#[verifier::rlimit(40)]
proof fn lemma_alias_list(rest: Seq<u8>, r: Result<Command, CommandError>)
    requires
        rest.len() == 0 || rest[0] == 0x20,
    ensures
        command_outcome("list".spec_bytes() + rest, r) == command_outcome("l".spec_bytes() + rest, r),
{
    lemma_command_word_bytes();
    lemma_split_after_word("list".spec_bytes(), "l".spec_bytes(), rest);
}

/// `longlist` and `ll` read the same, whatever follows.
#[verifier::rlimit(40)]
proof fn lemma_alias_longlist(rest: Seq<u8>, r: Result<Command, CommandError>)
    requires
        rest.len() == 0 || rest[0] == 0x20,
    ensures
        command_outcome("longlist".spec_bytes() + rest, r) == command_outcome("ll".spec_bytes() + rest, r),
        command_outcome("longlist".spec_bytes() + rest, r) <==> r == Ok::<Command, CommandError>(Command::LongList),
{
    lemma_command_word_bytes();
    lemma_split_after_word("longlist".spec_bytes(), "ll".spec_bytes(), rest);
}

/// `step` and `s` read the same, whatever follows.
#[verifier::rlimit(40)]
proof fn lemma_alias_step(rest: Seq<u8>, r: Result<Command, CommandError>)
    requires
        rest.len() == 0 || rest[0] == 0x20,
    ensures
        command_outcome("step".spec_bytes() + rest, r) == command_outcome("s".spec_bytes() + rest, r),
        command_outcome("step".spec_bytes() + rest, r) <==> r == Ok::<Command, CommandError>(Command::Step),
{
    lemma_command_word_bytes();
    lemma_split_after_word("step".spec_bytes(), "s".spec_bytes(), rest);
}

/// `help` and `h` read the same, whatever follows.
#[verifier::rlimit(40)]
proof fn lemma_alias_help(rest: Seq<u8>, r: Result<Command, CommandError>)
    requires
        rest.len() == 0 || rest[0] == 0x20,
    ensures
        command_outcome("help".spec_bytes() + rest, r) == command_outcome("h".spec_bytes() + rest, r),
        command_outcome("help".spec_bytes() + rest, r) <==> r == Ok::<Command, CommandError>(Command::Help),
{
    lemma_command_word_bytes();
    lemma_split_after_word("help".spec_bytes(), "h".spec_bytes(), rest);
}

/// `read-mem` and `rmem` read the same, whatever follows.
#[verifier::rlimit(40)]
proof fn lemma_alias_read_mem(rest: Seq<u8>, r: Result<Command, CommandError>)
    requires
        rest.len() == 0 || rest[0] == 0x20,
    ensures
        command_outcome("read-mem".spec_bytes() + rest, r) == command_outcome("rmem".spec_bytes() + rest, r),
{
    lemma_command_word_bytes();
    lemma_split_after_word("read-mem".spec_bytes(), "rmem".spec_bytes(), rest);
}

/// `add-bp` and `b` read the same, whatever follows.
#[verifier::rlimit(40)]
proof fn lemma_alias_add_bp(rest: Seq<u8>, r: Result<Command, CommandError>)
    requires
        rest.len() == 0 || rest[0] == 0x20,
    ensures
        command_outcome("add-bp".spec_bytes() + rest, r) == command_outcome("b".spec_bytes() + rest, r),
{
    lemma_command_word_bytes();
    lemma_split_after_word("add-bp".spec_bytes(), "b".spec_bytes(), rest);
}

/// `rem-bp` and `rb` read the same, whatever follows.
#[verifier::rlimit(40)]
proof fn lemma_alias_rem_bp(rest: Seq<u8>, r: Result<Command, CommandError>)
    requires
        rest.len() == 0 || rest[0] == 0x20,
    ensures
        command_outcome("rem-bp".spec_bytes() + rest, r) == command_outcome("rb".spec_bytes() + rest, r),
{
    lemma_command_word_bytes();
    lemma_split_after_word("rem-bp".spec_bytes(), "rb".spec_bytes(), rest);
}

/// `list-bp` and `lb` read the same, whatever follows.
#[verifier::rlimit(40)]
proof fn lemma_alias_list_bp(rest: Seq<u8>, r: Result<Command, CommandError>)
    requires
        rest.len() == 0 || rest[0] == 0x20,
    ensures
        command_outcome("list-bp".spec_bytes() + rest, r) == command_outcome("lb".spec_bytes() + rest, r),
        command_outcome("list-bp".spec_bytes() + rest, r) <==> r == Ok::<Command, CommandError>(Command::ListBreakpoints),
{
    lemma_command_word_bytes();
    lemma_split_after_word("list-bp".spec_bytes(), "lb".spec_bytes(), rest);
}

/// Each command has a long and a short name that read the same, whatever
/// arguments follow; the commands without arguments are read whatever follows.
pub proof fn lemma_command_aliases(rest: Seq<u8>, r: Result<Command, CommandError>)
    requires
        rest.len() == 0 || rest[0] == 0x20,
    ensures
        command_outcome("quit".spec_bytes() + rest, r) == command_outcome("q".spec_bytes() + rest, r),
        command_outcome("continue".spec_bytes() + rest, r) == command_outcome("c".spec_bytes() + rest, r),
        command_outcome("dump".spec_bytes() + rest, r) == command_outcome("d".spec_bytes() + rest, r),
        command_outcome("where".spec_bytes() + rest, r) == command_outcome("w".spec_bytes() + rest, r),
        command_outcome("list".spec_bytes() + rest, r) == command_outcome("l".spec_bytes() + rest, r),
        command_outcome("longlist".spec_bytes() + rest, r) == command_outcome("ll".spec_bytes() + rest, r),
        command_outcome("step".spec_bytes() + rest, r) == command_outcome("s".spec_bytes() + rest, r),
        command_outcome("help".spec_bytes() + rest, r) == command_outcome("h".spec_bytes() + rest, r),
        command_outcome("read-mem".spec_bytes() + rest, r) == command_outcome("rmem".spec_bytes() + rest, r),
        command_outcome("add-bp".spec_bytes() + rest, r) == command_outcome("b".spec_bytes() + rest, r),
        command_outcome("rem-bp".spec_bytes() + rest, r) == command_outcome("rb".spec_bytes() + rest, r),
        command_outcome("list-bp".spec_bytes() + rest, r) == command_outcome("lb".spec_bytes() + rest, r),
        command_outcome("quit".spec_bytes() + rest, r) <==> r == Ok::<Command, CommandError>(Command::Quit),
        command_outcome("continue".spec_bytes() + rest, r) <==> r == Ok::<Command, CommandError>(Command::Continue),
        command_outcome("where".spec_bytes() + rest, r) <==> r == Ok::<Command, CommandError>(Command::Where),
        command_outcome("longlist".spec_bytes() + rest, r) <==> r == Ok::<Command, CommandError>(Command::LongList),
        command_outcome("step".spec_bytes() + rest, r) <==> r == Ok::<Command, CommandError>(Command::Step),
        command_outcome("help".spec_bytes() + rest, r) <==> r == Ok::<Command, CommandError>(Command::Help),
        command_outcome("list-bp".spec_bytes() + rest, r) <==> r == Ok::<Command, CommandError>(Command::ListBreakpoints),
{
    lemma_alias_quit(rest, r);
    lemma_alias_continue(rest, r);
    lemma_alias_dump(rest, r);
    lemma_alias_where(rest, r);
    lemma_alias_list(rest, r);
    lemma_alias_longlist(rest, r);
    lemma_alias_step(rest, r);
    lemma_alias_help(rest, r);
    lemma_alias_read_mem(rest, r);
    lemma_alias_add_bp(rest, r);
    lemma_alias_rem_bp(rest, r);
    lemma_alias_list_bp(rest, r);
}

} // verus!
