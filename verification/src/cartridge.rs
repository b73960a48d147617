//! CHIP-8 cartridge with a plain listing: its explanations start with a capital.
use vstd::prelude::*;
use vstd::string::StrSliceExecFns;
use crate::c8core::opcodes::{
    extract_opcode_from_array, get_opcode_enum, get_opcode_str, spec_extract_opcode, spec_opcode_asm,
    spec_opcode_enum, spec_opcode_verbose,
};
use crate::c8core::types::{C8Addr, C8Byte};
use crate::memory::INITIAL_MEMORY_POINTER;
use crate::peripherals::cartridge::{ascii_upper_char, opcode_count, pad_text, push_padded, push_str_bytes};
use crate::text::{hex4_text, push_hex4, string_push};
use vstd::string::StringExecFns;

verus! {

/// Cartridge max size.
pub const CARTRIDGE_MAX_SIZE: usize = 3584;

/// Cartridge.
pub struct Cartridge {
    title: String,
    data: Vec<C8Byte>,
}

/// Missing cartridge error.
#[derive(Debug)]
pub struct MissingCartridgeError(pub String);

/// `s` with its first character in uppercase (ASCII letters only).
pub open spec fn capitalized(s: Seq<char>) -> Seq<char> {
    if s.len() == 0 { s } else { seq![ascii_upper_char(s[0])] + s.drop_first() }
}

/// Explanation of an opcode, starting with a capital.
pub open spec fn plain_verbose(code: u16) -> Seq<char> {
    capitalized(spec_opcode_verbose(spec_opcode_enum(code)))
}

/// Listing line of the opcode `code` at address `addr`:
/// `{addr:04X}| ({code:04X})  {assembly:20} ; {explanation}`.
pub open spec fn plain_listing_line(addr: u16, code: u16) -> Seq<char> {
    hex4_text(addr) + seq!['|', ' ', '('] + hex4_text(code) + seq![')', ' ', ' ']
        + pad_text(spec_opcode_asm(spec_opcode_enum(code)), 20) + seq![' ', ';', ' '] + plain_verbose(code)
}

/// UTF-8 bytes of the listing lines of `data` from opcode `i` on, each ended by
/// a newline; opcode `i` stands at address `0x200 + 2 * i`.
pub open spec fn plain_listing_bytes(data: Seq<u8>, i: nat) -> Seq<u8>
    decreases opcode_count(data.len()) - i,
{
    if i >= opcode_count(data.len()) {
        Seq::empty()
    } else {
        vstd::utf8::encode_utf8(
            plain_listing_line((0x200 + 2 * i) as u16, spec_extract_opcode(data, (2 * i) as int)) + seq!['\n'],
        ) + plain_listing_bytes(data, i + 1)
    }
}

/// `s` with its first character in uppercase (ASCII letters only).
pub fn capitalize(s: &str) -> (res: String)
    ensures
        res@ == capitalized(s@),
{
    let n = s.unicode_len();
    let mut res = String::new();
    if n == 0 {
        return res;
    }
    let c = s.get_char(0);
    let up = if 'a' <= c && c <= 'z' {
        let v = (c as u32) - 32;
        char_of_ascii(v as u8)
    } else {
        c
    };
    string_push(&mut res, up);
    let mut i: usize = 1;
    while i < n
        invariant
            1 <= i <= n,
            n == s@.len(),
            up == ascii_upper_char(s@[0]),
            res@ =~= seq![up] + s@.subrange(1, i as int),
        decreases n - i,
    {
        let d = s.get_char(i);
        string_push(&mut res, d);
        i = i + 1;
    }
    assert(s@.subrange(1, n as int) =~= s@.drop_first());
    res
}

/// The character of an ASCII code.
fn char_of_ascii(v: u8) -> (c: char)
    requires
        v < 0x80,
    ensures
        c as u32 == v as u32,
{
    v as char
}

impl Cartridge {
    /// Title.
    pub closed spec fn title(&self) -> Seq<char> {
        self.title@
    }

    /// Data.
    pub closed spec fn data(&self) -> Seq<u8> {
        self.data@
    }

    /// Load cartridge from bytes.
    pub fn load_from_string(title: &str, bytes: &[C8Byte]) -> (res: Result<Cartridge, MissingCartridgeError>)
        ensures
            res matches Ok(c) && c.title() == title@ && c.data() == bytes@,
    {
        let title = title.to_owned();
        let data = vstd::slice::slice_to_vec(bytes);
        Ok(Cartridge { title, data })
    }

    /// Get cartridge title.
    pub fn get_title(&self) -> (res: &str)
        ensures
            res@ == self.title(),
    {
        self.title.as_str()
    }

    /// Get internal data.
    pub fn get_data(&self) -> (res: &[C8Byte])
        ensures
            res@ == self.data(),
    {
        self.data.as_slice()
    }

    /// Disassemble cartridge: returns the opcodes, their assembly and their
    /// explanations (starting with a capital).
    pub fn disassemble(&self) -> (res: (Vec<C8Addr>, Vec<String>, Vec<String>))
        ensures
            res.0@.len() == opcode_count(self.data().len()),
            res.1@.len() == opcode_count(self.data().len()),
            res.2@.len() == opcode_count(self.data().len()),
            forall|i: int| 0 <= i < res.0@.len() ==> {
                &&& #[trigger] res.0@[i] == spec_extract_opcode(self.data(), 2 * i)
                &&& res.1@[i]@ == spec_opcode_asm(spec_opcode_enum(res.0@[i]))
                &&& res.2@[i]@ == plain_verbose(res.0@[i])
            },
    {
        let mut code_output: Vec<C8Addr> = Vec::new();
        let mut assembly_output: Vec<String> = Vec::new();
        let mut verbose_output: Vec<String> = Vec::new();
        let len = self.data.len();
        let n = len / 2 + len % 2;
        let mut i: usize = 0;
        while i < n
            invariant
                len == self.data@.len(),
                n == opcode_count(len as nat),
                i <= n,
                i == code_output@.len(),
                code_output@.len() == assembly_output@.len(),
                code_output@.len() == verbose_output@.len(),
                forall|j: int| 0 <= j < code_output@.len() ==> {
                    &&& #[trigger] code_output@[j] == spec_extract_opcode(self.data@, 2 * j)
                    &&& assembly_output@[j]@ == spec_opcode_asm(spec_opcode_enum(code_output@[j]))
                    &&& verbose_output@[j]@ == plain_verbose(code_output@[j])
                },
            decreases n - i,
        {
            let ptr = 2 * i;
            let opcode_value = extract_opcode_from_array(self.data.as_slice(), ptr);
            let opcode_enum = get_opcode_enum(opcode_value);
            let (assembly, verbose) = get_opcode_str(&opcode_enum);
            let verbose = capitalize(verbose.as_str());
            code_output.push(opcode_value);
            assembly_output.push(assembly);
            verbose_output.push(verbose);
            i = i + 1;
        }
        (code_output, assembly_output, verbose_output)
    }

    /// Write disassembly listing to an output byte stream.
    pub fn write_disassembly_to_stream(&self, output_stream: &mut Vec<u8>)
        requires
            0x200 + 2 * opcode_count(self.data().len()) <= 0xFFFF,
        ensures
            final(output_stream)@ == old(output_stream)@ + plain_listing_bytes(self.data(), 0),
    {
        let (code, assembly, verbose) = self.disassemble();
        let mut ptr_value: C8Addr = INITIAL_MEMORY_POINTER;
        let n = assembly.len();
        let mut i: usize = 0;
        while i < n
            invariant
                i <= n,
                n == opcode_count(self.data().len()),
                code@.len() == n && assembly@.len() == n && verbose@.len() == n,
                ptr_value == 0x200 + 2 * i,
                0x200 + 2 * n <= 0xFFFF,
                forall|j: int| 0 <= j < n ==> {
                    &&& #[trigger] code@[j] == spec_extract_opcode(self.data(), 2 * j)
                    &&& assembly@[j]@ == spec_opcode_asm(spec_opcode_enum(code@[j]))
                    &&& verbose@[j]@ == plain_verbose(code@[j])
                },
                old(output_stream)@ + plain_listing_bytes(self.data(), 0) == output_stream@
                    + plain_listing_bytes(self.data(), i as nat),
            decreases n - i,
        {
            let c = code[i];
            let mut line = String::new();
            push_hex4(&mut line, ptr_value);
            string_push(&mut line, '|');
            string_push(&mut line, ' ');
            string_push(&mut line, '(');
            push_hex4(&mut line, c);
            string_push(&mut line, ')');
            string_push(&mut line, ' ');
            string_push(&mut line, ' ');
            push_padded(&mut line, assembly[i].as_str(), 20);
            string_push(&mut line, ' ');
            string_push(&mut line, ';');
            string_push(&mut line, ' ');
            line.append(verbose[i].as_str());
            string_push(&mut line, '\n');
            assert(line@ =~= plain_listing_line(ptr_value, c) + seq!['\n']);
            let ghost before = output_stream@;
            push_str_bytes(output_stream, line.as_str());
            assert(plain_listing_bytes(self.data(), i as nat) =~= vstd::utf8::encode_utf8(line@)
                + plain_listing_bytes(self.data(), (i + 1) as nat));
            assert(before + plain_listing_bytes(self.data(), i as nat) =~= output_stream@
                + plain_listing_bytes(self.data(), (i + 1) as nat));
            ptr_value = ptr_value + 2;
            i = i + 1;
        }
        assert(plain_listing_bytes(self.data(), n as nat) =~= Seq::<u8>::empty());
    }
}

} // verus!
