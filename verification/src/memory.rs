//! CHIP-8 CPU memory.
use vstd::prelude::*;
use crate::c8core::opcodes::{extract_opcode_from_array, spec_extract_opcode};
use crate::c8core::types::{C8Addr, C8Byte};
use crate::text::{hex2_text, hex4_text, hex_padded, push_hex2, push_hex4, push_hex_padded, string_push};
use vstd::string::StringExecFns;

verus! {

/// Memory size.
pub const MEMORY_SIZE: usize = 4096;

/// Bytes shown on one row of a memory dump.
pub const CHUNK_SIZE: usize = 64;

/// CHIP-8 initial memory pointer.
pub const INITIAL_MEMORY_POINTER: C8Addr = 0x200;

/// Memory after writing `data[..k]` byte by byte from `offset`; byte `i` goes
/// to `offset + i` taken as a 16-bit index.
pub open spec fn write_bytes(mem: Seq<u8>, offset: int, data: Seq<u8>, k: nat) -> Seq<u8>
    decreases k,
{
    if k == 0 {
        mem
    } else {
        write_bytes(mem, offset, data, (k - 1) as nat).update(
            offset + (k - 1) % 0x10000,
            data[k - 1],
        )
    }
}

/// Every byte of `data` written from `offset` lands inside a memory of
/// `mem_len` bytes, at a 16-bit address.
pub open spec fn write_fits(offset: int, len: nat, mem_len: nat) -> bool {
    forall|i: int| 0 <= i < len ==> offset + #[trigger] (i % 0x10000) <= 0xFFFF && offset + i % 0x10000 < mem_len
}

/// `n` copies of `c`.
pub open spec fn repeat_char(c: char, n: nat) -> Seq<char> {
    Seq::new(n, |i: int| c)
}

/// Column headers of the first `k` bytes of a dump row: `{:02X} ` of twice
/// the column number.
pub open spec fn ruler_cells(k: nat) -> Seq<char>
    decreases k,
{
    if k == 0 {
        Seq::empty()
    } else {
        ruler_cells((k - 1) as nat) + hex2_text((2 * (k - 1)) as u8) + seq![' ']
    }
}

/// Header row of a memory dump.
pub open spec fn ruler_line() -> Seq<char> {
    repeat_char(' ', 16) + ruler_cells(CHUNK_SIZE as nat) + seq!['\n']
}

/// Separator row of a memory dump.
pub open spec fn separator_line() -> Seq<char> {
    repeat_char(' ', 16) + repeat_char('-', 3 * CHUNK_SIZE as nat) + seq!['\n']
}

/// `{:02X} ` of each byte.
pub open spec fn byte_cells(b: Seq<u8>) -> Seq<char>
    decreases b.len(),
{
    if b.len() == 0 {
        Seq::empty()
    } else {
        byte_cells(b.drop_last()) + hex2_text(b.last()) + seq![' ']
    }
}

/// Dump row of chunk `idx` (`CHUNK_SIZE` bytes, the last chunk possibly shorter).
pub open spec fn chunk_line(data: Seq<u8>, idx: nat) -> Seq<char> {
    let lo = idx * CHUNK_SIZE;
    let hi = if (idx + 1) * CHUNK_SIZE < data.len() { (idx + 1) * CHUNK_SIZE } else { data.len() as int };
    seq![' ', ' ', ' ', ' '] + hex_padded(lo as nat, 4) + seq!['-'] + hex_padded(((idx + 1) * CHUNK_SIZE) as nat, 4)
        + seq![' ', '|', ' '] + byte_cells(data.subrange(lo as int, hi)) + seq!['\n']
}

/// Dump rows of the first `k` chunks.
pub open spec fn chunk_lines(data: Seq<u8>, k: nat) -> Seq<char>
    decreases k,
{
    if k == 0 {
        Seq::empty()
    } else {
        chunk_lines(data, (k - 1) as nat) + chunk_line(data, (k - 1) as nat)
    }
}

/// Number of chunks of `n` bytes.
pub open spec fn chunk_count(n: nat) -> nat {
    (n + CHUNK_SIZE - 1) as nat / CHUNK_SIZE as nat
}

/// Memory dump: header, separator, a row per chunk, separator, header, then
/// the pointer.
pub open spec fn memory_dump(data: Seq<u8>, pointer: u16) -> Seq<char> {
    ruler_line() + separator_line() + chunk_lines(data, chunk_count(data.len())) + separator_line()
        + ruler_line() + seq![' ', ' ', ' ', ' ', 'P', 'C', ':', ' '] + hex4_text(pointer) + seq!['\n']
}

/// Header row of a memory dump.
pub fn ruler_text() -> (res: String)
    ensures
        res@ == ruler_line(),
{
    let mut res = String::new();
    let mut i: usize = 0;
    while i < 16
        invariant
            i <= 16,
            res@ =~= repeat_char(' ', i as nat),
        decreases 16 - i,
    {
        string_push(&mut res, ' ');
        i = i + 1;
    }
    let mut v: usize = 0;
    while v < CHUNK_SIZE
        invariant
            v <= CHUNK_SIZE,
            res@ =~= repeat_char(' ', 16) + ruler_cells(v as nat),
        decreases CHUNK_SIZE - v,
    {
        push_hex2(&mut res, (v * 2) as u8);
        string_push(&mut res, ' ');
        v = v + 1;
    }
    string_push(&mut res, '\n');
    res
}

/// Separator row of a memory dump.
pub fn separator_text() -> (res: String)
    ensures
        res@ == separator_line(),
{
    let mut res = String::new();
    let mut i: usize = 0;
    while i < 16
        invariant
            i <= 16,
            res@ =~= repeat_char(' ', i as nat),
        decreases 16 - i,
    {
        string_push(&mut res, ' ');
        i = i + 1;
    }
    let mut k: usize = 0;
    while k < 3 * CHUNK_SIZE
        invariant
            k <= 3 * CHUNK_SIZE,
            res@ =~= repeat_char(' ', 16) + repeat_char('-', k as nat),
        decreases 3 * CHUNK_SIZE - k,
    {
        string_push(&mut res, '-');
        k = k + 1;
    }
    string_push(&mut res, '\n');
    res
}

/// CHIP-8 memory: its bytes and its pointer.
#[derive(Clone)]
pub struct Memory {
    data: Vec<C8Byte>,
    pointer: C8Addr,
}

impl Memory {
    /// Memory bytes.
    pub closed spec fn bytes(&self) -> Seq<u8> {
        self.data@
    }

    /// Memory pointer.
    pub closed spec fn pointer(&self) -> u16 {
        self.pointer
    }

    /// Creates a zeroed memory of `MEMORY_SIZE` bytes, its pointer at the
    /// initial memory pointer.
    pub fn new() -> (res: Self)
        ensures
            res.bytes() == Seq::new(MEMORY_SIZE as nat, |i: int| 0u8),
            res.pointer() == INITIAL_MEMORY_POINTER,
    {
        let data = zeroed(MEMORY_SIZE);
        Memory { data, pointer: INITIAL_MEMORY_POINTER }
    }

    /// Writes `data` from `offset` on.
    pub fn write_data_at_offset(&mut self, offset: C8Addr, data: &[C8Byte])
        requires
            write_fits(offset as int, data@.len(), old(self).bytes().len()),
        ensures
            final(self).bytes() == write_bytes(old(self).bytes(), offset as int, data@, data@.len()),
            final(self).pointer() == old(self).pointer(),
    {
        let n = data.len();
        let mut idx: usize = 0;
        while idx < n
            invariant
                idx <= n,
                n == data@.len(),
                write_fits(offset as int, data@.len(), old(self).bytes().len()),
                self.data@.len() == old(self).bytes().len(),
                self.data@ == write_bytes(old(self).bytes(), offset as int, data@, idx as nat),
                self.pointer == old(self).pointer(),
            decreases n - idx,
        {
            let short = (idx % 0x10000) as C8Addr;
            assert(offset + idx as int % 0x10000 <= 0xFFFF);
            let pos = (offset + short) as usize;
            self.data.set(pos, data[idx]);
            idx = idx + 1;
        }
    }

    /// Writes one byte at `offset`.
    pub fn write_byte_at_offset(&mut self, offset: C8Addr, byte: C8Byte)
        requires
            (offset as int) < old(self).bytes().len(),
        ensures
            final(self).bytes() == old(self).bytes().update(offset as int, byte),
            final(self).pointer() == old(self).pointer(),
    {
        self.data.set(offset as usize, byte);
    }

    /// Writes `data` from the memory pointer on.
    pub fn write_data_at_pointer(&mut self, data: &[C8Byte])
        requires
            write_fits(old(self).pointer() as int, data@.len(), old(self).bytes().len()),
        ensures
            final(self).bytes() == write_bytes(old(self).bytes(), old(self).pointer() as int, data@, data@.len()),
            final(self).pointer() == old(self).pointer(),
    {
        let pointer = self.pointer;
        self.write_data_at_offset(pointer, data)
    }

    /// Reads `count` bytes from `offset` on.
    pub fn read_data_at_offset(&self, offset: C8Addr, count: C8Addr) -> (res: &[C8Byte])
        requires
            offset + count <= 0xFFFF,
            offset + count <= self.bytes().len(),
        ensures
            res@ == self.bytes().subrange(offset as int, offset + count),
    {
        let end = offset + count;
        &self.data.as_slice()[(offset as usize)..(end as usize)]
    }

    /// Reads the byte at `offset`.
    pub fn read_byte_at_offset(&self, offset: C8Addr) -> (res: C8Byte)
        requires
            (offset as int) < self.bytes().len(),
        ensures
            res == self.bytes()[offset as int],
    {
        self.data[offset as usize]
    }

    /// Sets the memory pointer.
    pub fn set_pointer(&mut self, pointer: C8Addr)
        ensures
            final(self).pointer() == pointer,
            final(self).bytes() == old(self).bytes(),
    {
        self.pointer = pointer;
    }

    /// Gets the memory pointer.
    pub fn get_pointer(&self) -> (res: C8Addr)
        ensures
            res == self.pointer(),
    {
        self.pointer
    }

    /// Moves the memory pointer to the next opcode.
    pub fn advance_pointer(&mut self)
        requires
            old(self).pointer() + 2 <= 0xFFFF,
        ensures
            final(self).pointer() == old(self).pointer() + 2,
            final(self).bytes() == old(self).bytes(),
    {
        self.pointer = self.pointer + 2;
    }

    /// Puts the memory pointer back at the initial memory pointer.
    pub fn reset_pointer(&mut self)
        ensures
            final(self).pointer() == INITIAL_MEMORY_POINTER,
            final(self).bytes() == old(self).bytes(),
    {
        self.pointer = INITIAL_MEMORY_POINTER;
    }

    /// Reads the opcode at the memory pointer.
    pub fn read_opcode(&self) -> (res: C8Addr)
        requires
            (self.pointer() as int) < self.bytes().len(),
        ensures
            res == spec_extract_opcode(self.bytes(), self.pointer() as int),
    {
        self.read_opcode_at_address(self.pointer)
    }

    /// Reads the opcode at `addr`.
    pub fn read_opcode_at_address(&self, addr: C8Addr) -> (res: C8Addr)
        requires
            (addr as int) < self.bytes().len(),
        ensures
            res == spec_extract_opcode(self.bytes(), addr as int),
    {
        extract_opcode_from_array(self.data.as_slice(), addr as usize)
    }

    /// Clears the memory and puts the pointer back at the initial memory pointer.
    pub fn reset(&mut self)
        ensures
            final(self).bytes() == Seq::new(MEMORY_SIZE as nat, |i: int| 0u8),
            final(self).pointer() == INITIAL_MEMORY_POINTER,
    {
        self.data = zeroed(MEMORY_SIZE);
        self.pointer = INITIAL_MEMORY_POINTER;
    }

    fn chunk_text(&self, idx: usize, start: usize, end: usize) -> (res: String)
        requires
            start == idx * CHUNK_SIZE,
            start < end <= self.data@.len(),
            end == if (idx + 1) * CHUNK_SIZE < self.data@.len() { (idx + 1) * CHUNK_SIZE } else { self.data@.len() as int },
            self.data@.len() + CHUNK_SIZE <= usize::MAX,
        ensures
            res@ == chunk_line(self.data@, idx as nat),
    {
        let mut res = String::new();
        string_push(&mut res, ' ');
        string_push(&mut res, ' ');
        string_push(&mut res, ' ');
        string_push(&mut res, ' ');
        push_hex_padded(&mut res, start, 4);
        string_push(&mut res, '-');
        push_hex_padded(&mut res, start + CHUNK_SIZE, 4);
        string_push(&mut res, ' ');
        string_push(&mut res, '|');
        string_push(&mut res, ' ');
        let ghost mid = res@;
        let mut k = start;
        while k < end
            invariant
                start <= k <= end <= self.data@.len(),
                res@ =~= mid + byte_cells(self.data@.subrange(start as int, k as int)),
            decreases end - k,
        {
            push_hex2(&mut res, self.data[k]);
            string_push(&mut res, ' ');
            assert(self.data@.subrange(start as int, k + 1).drop_last() =~= self.data@.subrange(start as int, k as int));
            k = k + 1;
        }
        string_push(&mut res, '\n');
        assert(res@ =~= chunk_line(self.data@, idx as nat));
        res
    }

    /// Memory dump: a row of `CHUNK_SIZE` bytes per line, framed by column
    /// headers, then the pointer.
    pub fn dump_text(&self) -> (res: String)
        requires
            self.bytes().len() + CHUNK_SIZE <= usize::MAX,
        ensures
            res@ == memory_dump(self.bytes(), self.pointer()),
    {
        let ruler = ruler_text();
        let separator = separator_text();
        let mut res = String::new();
        res.append(ruler.as_str());
        res.append(separator.as_str());
        let len = self.data.len();
        let ghost head = ruler_line() + separator_line();
        let mut start: usize = 0;
        let mut idx: usize = 0;
        while start < len
            invariant
                start == idx * CHUNK_SIZE,
                idx == 0 || start - CHUNK_SIZE < len,
                len == self.data@.len(),
                len + CHUNK_SIZE <= usize::MAX,
                res@ =~= head + chunk_lines(self.data@, idx as nat),
            decreases len + CHUNK_SIZE - start,
        {
            let end = if len - start > CHUNK_SIZE { start + CHUNK_SIZE } else { len };
            let line = self.chunk_text(idx, start, end);
            res.append(line.as_str());
            start = start + CHUNK_SIZE;
            idx = idx + 1;
        }
        assert(idx == chunk_count(len as nat));
        res.append(separator.as_str());
        res.append(ruler.as_str());
        string_push(&mut res, ' ');
        string_push(&mut res, ' ');
        string_push(&mut res, ' ');
        string_push(&mut res, ' ');
        string_push(&mut res, 'P');
        string_push(&mut res, 'C');
        string_push(&mut res, ':');
        string_push(&mut res, ' ');
        push_hex4(&mut res, self.pointer);
        string_push(&mut res, '\n');
        assert(res@ =~= memory_dump(self.data@, self.pointer));
        res
    }

    /// Takes the bytes and the pointer of a saved memory.
    pub fn load_from_save(&mut self, memory: Memory)
        ensures
            final(self).bytes() == memory.bytes(),
            final(self).pointer() == memory.pointer(),
    {
        self.data = memory.data;
        self.pointer = memory.pointer;
    }
}

/// `n` zero bytes.
pub fn zeroed(n: usize) -> (res: Vec<C8Byte>)
    ensures
        res@ == Seq::new(n as nat, |i: int| 0u8),
{
    let mut v: Vec<C8Byte> = Vec::new();
    let mut i: usize = 0;
    while i < n
        invariant
            i <= n,
            v@ =~= Seq::new(i as nat, |k: int| 0u8),
        decreases n - i,
    {
        v.push(0);
        i = i + 1;
    }
    v
}

/// Writing then reading the same bytes gives them back: after
/// `write_data_at_offset(offset, data)`, the bytes from `offset` on are `data`,
/// when `data` is no longer than the address space.
pub proof fn lemma_write_then_read(mem: Seq<u8>, offset: int, data: Seq<u8>)
    requires
        data.len() <= 0x10000,
        0 <= offset,
        offset + data.len() <= mem.len(),
    ensures
        write_bytes(mem, offset, data, data.len()).subrange(offset, offset + data.len()) == data,
        write_bytes(mem, offset, data, data.len()).len() == mem.len(),
{
    lemma_write_bytes_frame(mem, offset, data, data.len());
    let w = write_bytes(mem, offset, data, data.len());
    assert forall|i: int| 0 <= i < data.len() implies w.subrange(offset, offset + data.len())[i] == data[i] by {
        assert(w[offset + i] == data[i]);
    }
    assert(write_bytes(mem, offset, data, data.len()).subrange(offset, offset + data.len()) =~= data);
}

/// Writing bytes leaves the length, and the bytes outside the written range, as they were.
pub proof fn lemma_write_bytes_frame(mem: Seq<u8>, offset: int, data: Seq<u8>, k: nat)
    requires
        k <= data.len() <= 0x10000,
        0 <= offset,
        offset + k <= mem.len(),
    ensures
        write_bytes(mem, offset, data, k).len() == mem.len(),
        forall|p: int| 0 <= p < mem.len() && !(offset <= p < offset + k)
            ==> #[trigger] write_bytes(mem, offset, data, k)[p] == mem[p],
        forall|i: int| 0 <= i < k ==> #[trigger] write_bytes(mem, offset, data, k)[offset + i] == data[i],
    decreases k,
{
    if k > 0 {
        lemma_write_bytes_frame(mem, offset, data, (k - 1) as nat);
        assert((k - 1) % 0x10000 == k - 1);
    }
}

} // verus!
