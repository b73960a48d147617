//! Data shown by the frames of the user interface.
use vstd::prelude::*;
use vstd::string::StrSliceExecFns;
use crate::c8core::types::C8Addr;
use crate::debugger::breakpoints::Breakpoints;
use crate::memory::INITIAL_MEMORY_POINTER;
use crate::text::{dec_text, hex2_text, hex4_text, hex_digits, hex_padded, push_dec, push_hex2, push_hex4, push_hex_padded, string_push};
use vstd::string::StringExecFns;

verus! {

/// List frame data.
pub struct ListFrameData<'a> {
    /// Cursor.
    pub cursor: i32,
    /// Data.
    pub data: &'a [String],
}

impl<'a> ListFrameData<'a> {
    /// Range of the entries shown in a frame of `max_lines` lines: the window
    /// ends at the cursor once the cursor is past the first `max_lines`
    /// entries, and stops at the last entry.
    pub fn visible_range(&self, max_lines: usize) -> (res: (usize, usize))
        requires
            max_lines <= i32::MAX,
            self.cursor + 1 - max_lines >= i32::MIN,
            self.cursor + 1 <= i32::MAX,
        ensures
            res.0 == (if self.cursor + 1 - max_lines > 0 { self.cursor + 1 - max_lines } else { 0 }),
            res.1 == (if self.data@.len() < max_lines + res.0 { self.data@.len() as int } else { max_lines + res.0 }),
    {
        let first = self.cursor + 1 - (max_lines as i32);
        let start_idx: usize = if first > 0 { first as usize } else { 0 };
        let total_lines = self.data.len();
        let end_idx = if total_lines < max_lines + start_idx { total_lines } else { max_lines + start_idx };
        (start_idx, end_idx)
    }
}

/// Command line typed in the shell frame.
pub struct ShellFrame {
    cmd_buffer: String,
    active: bool,
    cursor_shown: bool,
}

impl ShellFrame {
    /// Typed text.
    pub closed spec fn buffer(&self) -> Seq<char> {
        self.cmd_buffer@
    }

    /// Whether the shell takes the keyboard.
    pub closed spec fn is_active(&self) -> bool {
        self.active
    }

    /// Whether the text cursor is drawn.
    pub closed spec fn is_cursor_shown(&self) -> bool {
        self.cursor_shown
    }

    /// Creates an inactive shell with an empty line.
    pub fn new() -> (res: Self)
        ensures
            res.buffer() == Seq::<char>::empty(),
            !res.is_active(),
            !res.is_cursor_shown(),
    {
        ShellFrame { cmd_buffer: String::new(), active: false, cursor_shown: false }
    }

    /// Empties the line, deactivates the shell and hides the cursor.
    pub fn reset(&mut self)
        ensures
            final(self).buffer() == Seq::<char>::empty(),
            !final(self).is_active(),
            !final(self).is_cursor_shown(),
    {
        self.cmd_buffer = String::new();
        self.active = false;
        self.cursor_shown = false;
    }

    /// Activates or deactivates the shell.
    pub fn set_active(&mut self, value: bool)
        ensures
            final(self).is_active() == value,
            final(self).buffer() == old(self).buffer(),
            final(self).is_cursor_shown() == old(self).is_cursor_shown(),
    {
        self.active = value;
    }

    /// Shows or hides the text cursor (it blinks).
    pub fn toggle_cursor(&mut self)
        ensures
            final(self).is_cursor_shown() == !old(self).is_cursor_shown(),
            final(self).buffer() == old(self).buffer(),
            final(self).is_active() == old(self).is_active(),
    {
        self.cursor_shown = !self.cursor_shown;
    }

    /// Types a character.
    pub fn add_char(&mut self, ch: char)
        ensures
            final(self).buffer() == old(self).buffer().push(ch),
            final(self).is_active() == old(self).is_active(),
            final(self).is_cursor_shown() == old(self).is_cursor_shown(),
    {
        string_push(&mut self.cmd_buffer, ch);
    }

    /// Erases the last character, if any.
    pub fn remove_char(&mut self)
        ensures
            final(self).buffer() == if old(self).buffer().len() == 0 {
                old(self).buffer()
            } else {
                old(self).buffer().drop_last()
            },
            final(self).is_active() == old(self).is_active(),
            final(self).is_cursor_shown() == old(self).is_cursor_shown(),
    {
        let n = self.cmd_buffer.as_str().unicode_len();
        if n > 0 {
            let kept = self.cmd_buffer.as_str().substring_char(0, n - 1).to_owned();
            self.cmd_buffer = kept;
        }
    }

    /// Takes the typed line, leaving the line empty.
    pub fn validate(&mut self) -> (res: String)
        ensures
            res@ == old(self).buffer(),
            final(self).buffer() == Seq::<char>::empty(),
            final(self).is_active() == old(self).is_active(),
            final(self).is_cursor_shown() == old(self).is_cursor_shown(),
    {
        let cmd = self.cmd_buffer.clone();
        self.cmd_buffer = String::new();
        cmd
    }
}

/// Typing a character then erasing it gives back the line.
pub proof fn lemma_type_then_erase(line: Seq<char>, ch: char)
    ensures
        line.push(ch).len() != 0,
        line.push(ch).drop_last() == line,
{
    assert(line.push(ch).drop_last() =~= line);
}

/// Line of the code listing that shows the opcode at `addr`.
pub fn address_to_cursor(addr: C8Addr) -> (res: i32)
    requires
        addr >= INITIAL_MEMORY_POINTER,
    ensures
        res == (addr - INITIAL_MEMORY_POINTER) / 2,
{
    ((addr - INITIAL_MEMORY_POINTER) / 2) as i32
}

/// Whether a breakpoint stands on line `cursor` of the code listing.
pub fn has_breakpoint_at_cursor(cursor: i32, breakpoints: &Breakpoints) -> (res: bool)
    requires
        forall|i: int| 0 <= i < breakpoints.0@.len() ==> breakpoints.0@[i] >= INITIAL_MEMORY_POINTER,
    ensures
        res == exists|i: int| 0 <= i < breakpoints.0@.len() && (breakpoints.0@[i] - INITIAL_MEMORY_POINTER) / 2 == cursor,
{
    let n = breakpoints.0.len();
    let mut i: usize = 0;
    while i < n
        invariant
            i <= n,
            n == breakpoints.0@.len(),
            forall|k: int| 0 <= k < n ==> breakpoints.0@[k] >= INITIAL_MEMORY_POINTER,
            forall|k: int| 0 <= k < i ==> (breakpoints.0@[k] - INITIAL_MEMORY_POINTER) / 2 != cursor,
        decreases n - i,
    {
        if address_to_cursor(breakpoints.0[i]) == cursor {
            return true;
        }
        i = i + 1;
    }
    false
}

/// A new row starts before the entry `idx` of a table of `per_row` columns.
pub open spec fn row_break(idx: nat, per_row: nat) -> Seq<char> {
    if idx % per_row == 0 { seq!['\n'] } else { seq![] }
}

/// The cells `{letter}{idx:X}={value:02X} ` of `vals`, five to a row.
pub open spec fn byte_cells(letter: char, vals: Seq<u8>) -> Seq<char>
    decreases vals.len(),
{
    if vals.len() == 0 {
        seq![]
    } else {
        let i = (vals.len() - 1) as nat;
        byte_cells(letter, vals.drop_last()) + row_break(i, 5) + seq![letter] + hex_digits(i) + seq!['=']
            + hex2_text(vals.last()) + seq![' ']
    }
}

/// The cells `{value:04X} ` of `vals`, seven to a row.
pub open spec fn word_cells(vals: Seq<u16>) -> Seq<char>
    decreases vals.len(),
{
    if vals.len() == 0 {
        seq![]
    } else {
        word_cells(vals.drop_last()) + row_break((vals.len() - 1) as nat, 7) + hex4_text(vals.last()) + seq![' ']
    }
}

/// Text of the debug information frame: the registers and `I`, the stack and
/// its pointer, the timers, the input keys with the last key pressed and
/// whether the emulator waits for a key, and the emulation state.
pub open spec fn debug_info_spec(
    registers: Seq<u8>,
    i: u16,
    stack: Seq<u16>,
    sp: u16,
    delay: u8,
    sound: u8,
    sync: u8,
    keys: Seq<u8>,
    last_key: u8,
    waiting: bool,
    paused: bool,
) -> Seq<char> {
    "REGISTERS:"@ + byte_cells('V', registers) + "I="@ + hex4_text(i) + seq!['\n']
        + "\nSTACK:"@ + word_cells(stack) + "\nPTR="@ + hex4_text(sp) + seq!['\n']
        + "\nTIMERS:\n"@ + "DELAY="@ + dec_text(delay) + seq!['\n'] + "SOUND="@ + dec_text(sound) + seq!['\n']
        + "SYNC="@ + dec_text(sync) + seq!['\n']
        + "\nINPUT:"@ + byte_cells('K', keys) + "LK="@ + hex2_text(last_key) + seq![' '] + "WAIT="@
        + seq![if waiting { '1' } else { '0' }] + seq!['\n']
        + "\nEmulation state: "@ + (if paused { "PAUSED"@ } else { "RUNNING"@ })
}

/// Appends the cells of `vals`, five to a row.
fn push_byte_cells(s: &mut String, letter: char, vals: &[u8])
    ensures
        final(s)@ == old(s)@ + byte_cells(letter, vals@),
{
    let mut k: usize = 0;
    while k < vals.len()
        invariant
            k <= vals@.len(),
            s@ == old(s)@ + byte_cells(letter, vals@.take(k as int)),
        decreases vals.len() - k,
    {
        let ghost before = s@;
        if k % 5 == 0 {
            string_push(s, '\n');
        }
        string_push(s, letter);
        push_hex_padded(s, k, 0);
        string_push(s, '=');
        push_hex2(s, vals[k]);
        string_push(s, ' ');
        proof {
            let next = vals@.take(k + 1);
            assert(next.drop_last() =~= vals@.take(k as int));
            assert(hex_padded(k as nat, 0) =~= hex_digits(k as nat));
            assert(s@ =~= before + row_break(k as nat, 5) + seq![letter] + hex_digits(k as nat) + seq!['=']
                + hex2_text(vals@[k as int]) + seq![' ']);
        }
        k = k + 1;
    }
    assert(vals@.take(vals@.len() as int) =~= vals@);
}

/// Appends the cells of `vals`, seven to a row.
fn push_word_cells(s: &mut String, vals: &[u16])
    ensures
        final(s)@ == old(s)@ + word_cells(vals@),
{
    let mut k: usize = 0;
    while k < vals.len()
        invariant
            k <= vals@.len(),
            s@ == old(s)@ + word_cells(vals@.take(k as int)),
        decreases vals.len() - k,
    {
        let ghost before = s@;
        if k % 7 == 0 {
            string_push(s, '\n');
        }
        push_hex4(s, vals[k]);
        string_push(s, ' ');
        proof {
            let next = vals@.take(k + 1);
            assert(next.drop_last() =~= vals@.take(k as int));
            assert(s@ =~= before + row_break(k as nat, 7) + hex4_text(vals@[k as int]) + seq![' ']);
        }
        k = k + 1;
    }
    assert(vals@.take(vals@.len() as int) =~= vals@);
}

/// Text of the debug information frame.
pub fn debug_info_text(
    registers: &[u8],
    i: u16,
    stack: &[u16],
    sp: u16,
    delay: u8,
    sound: u8,
    sync: u8,
    keys: &[u8],
    last_key: u8,
    waiting: bool,
    paused: bool,
) -> (res: String)
    ensures
        res@ == debug_info_spec(registers@, i, stack@, sp, delay, sound, sync, keys@, last_key, waiting, paused),
{
    let mut s = String::new();
    s.append("REGISTERS:");
    push_byte_cells(&mut s, 'V', registers);
    s.append("I=");
    push_hex4(&mut s, i);
    string_push(&mut s, '\n');
    s.append("\nSTACK:");
    push_word_cells(&mut s, stack);
    s.append("\nPTR=");
    push_hex4(&mut s, sp);
    string_push(&mut s, '\n');
    s.append("\nTIMERS:\n");
    s.append("DELAY=");
    push_dec(&mut s, delay);
    string_push(&mut s, '\n');
    s.append("SOUND=");
    push_dec(&mut s, sound);
    string_push(&mut s, '\n');
    s.append("SYNC=");
    push_dec(&mut s, sync);
    string_push(&mut s, '\n');
    s.append("\nINPUT:");
    push_byte_cells(&mut s, 'K', keys);
    s.append("LK=");
    push_hex2(&mut s, last_key);
    string_push(&mut s, ' ');
    s.append("WAIT=");
    string_push(&mut s, if waiting { '1' } else { '0' });
    string_push(&mut s, '\n');
    s.append("\nEmulation state: ");
    if paused {
        s.append("PAUSED");
    } else {
        s.append("RUNNING");
    }
    s
}

} // verus!
