//! Cartridge.
use vstd::prelude::*;
use vstd::string::{StrSliceExecFns, StringSliceAdditionalSpecFns};
use crate::c8core::opcodes::{
    extract_opcode_from_array, get_opcode_enum, get_opcode_str, is_opcode_schip, spec_extract_opcode,
    spec_is_opcode_schip, spec_opcode_asm, spec_opcode_enum, spec_opcode_verbose,
};
use crate::c8core::types::{C8Addr, C8Byte};
use crate::memory::INITIAL_MEMORY_POINTER;
use crate::text::{hex4_text, push_hex4, string_push};
use vstd::string::StringExecFns;
use std::path::Path;

verus! {

/// Cartridge max size.
pub const CARTRIDGE_MAX_SIZE: usize = 3584;

/// Empty game name.
pub const EMPTY_GAME_NAME: &'static str = "<EMPTY>";

/// Cartridge type.
pub struct Cartridge {
    title: String,
    path: String,
    data: Vec<C8Byte>,
}

/// Missing cartridge error.
#[derive(Debug)]
pub struct MissingCartridgeError(pub String);

/// What `str::to_uppercase` (std) gives for a text.
pub uninterp spec fn str_to_uppercase(s: Seq<char>) -> Seq<char>;

/// What `Path::file_name` (std) gives for a path, as text: its last
/// component, under the path rules of the platform the library is built for.
pub uninterp spec fn path_file_name(p: Seq<char>) -> Option<Seq<char>>;

/// `s` is a plain file name: not empty, without a separator (`/`, `\\`) or a
/// drive mark (`:`), and neither `.` nor `..`.
pub open spec fn plain_name(s: Seq<char>) -> bool {
    &&& s.len() > 0
    &&& forall|i: int| 0 <= i < s.len() ==> #[trigger] s[i] != '/' && s[i] != '\\' && s[i] != ':'
    &&& s != seq!['.']
    &&& s != seq!['.', '.']
}

/// Index of the last `/` of `s`, or -1.
pub open spec fn last_slash(s: Seq<char>) -> int
    decreases s.len(),
{
    if s.len() == 0 {
        -1
    } else if s.last() == '/' {
        s.len() - 1
    } else {
        last_slash(s.drop_last())
    }
}

/// What follows the last `/` of `s` (all of `s` when it holds none).
pub open spec fn after_last_slash(s: Seq<char>) -> Seq<char> {
    s.skip(last_slash(s) + 1)
}

/// `p` is a simple path: `/`-separated, without `\\` or `:` (so without a
/// platform prefix), not starting with `//`, and ending in a plain file name.
/// Its final component is that name, which is then its file name.
pub open spec fn simple_path(p: Seq<char>) -> bool {
    &&& forall|i: int| 0 <= i < p.len() ==> #[trigger] p[i] != '\\' && p[i] != ':'
    &&& !(p.len() >= 2 && p[0] == '/' && p[1] == '/')
    &&& plain_name(after_last_slash(p))
}

/// Index of the last `.` of `s`, or -1.
pub open spec fn last_dot(s: Seq<char>) -> int
    decreases s.len(),
{
    if s.len() == 0 {
        -1
    } else if s.last() == '.' {
        s.len() - 1
    } else {
        last_dot(s.drop_last())
    }
}

/// The last `/` of `s`, where there is one, is one of its positions.
proof fn lemma_last_slash_bounds(s: Seq<char>)
    ensures
        -1 <= last_slash(s) < s.len(),
    decreases s.len(),
{
    if s.len() > 0 && s.last() != '/' {
        lemma_last_slash_bounds(s.drop_last());
    }
}

/// The last `.` of `s`, where there is one, is one of its positions.
proof fn lemma_last_dot_bounds(s: Seq<char>)
    ensures
        -1 <= last_dot(s) < s.len(),
    decreases s.len(),
{
    if s.len() > 0 && s.last() != '.' {
        lemma_last_dot_bounds(s.drop_last());
    }
}

/// Stem of a file name, as `Path::file_stem` documents it: none without a
/// file name; the whole name when it holds no `.` or only a leading one;
/// otherwise the part before the last `.`.
pub open spec fn stem_of(name: Option<Seq<char>>) -> Option<Seq<char>> {
    match name {
        None => None,
        Some(n) => if last_dot(n) <= 0 { Some(n) } else { Some(n.take(last_dot(n))) },
    }
}

/// Extension of a file name, as `Path::extension` documents it: none without
/// a file name, or when it holds no `.` or only a leading one; otherwise the
/// part after the last `.`.
pub open spec fn extension_of(name: Option<Seq<char>>) -> Option<Seq<char>> {
    match name {
        None => None,
        Some(n) => if last_dot(n) <= 0 { None } else { Some(n.skip(last_dot(n) + 1)) },
    }
}

/// ASCII uppercase mapping of one character.
pub open spec fn ascii_upper_char(c: char) -> char {
    if 'a' <= c <= 'z' { ((c as u32) - 32) as char } else { c }
}

/// `str::to_uppercase` (std). Its result is a function of the text alone, named
/// `str_to_uppercase`; on ASCII text it maps `a-z` to `A-Z` and keeps every other
/// character, as its documentation says. What it does to other characters (the
/// Unicode case tables) is not stated.
#[verifier::external_body]
fn to_uppercase(s: &str) -> (res: String)
    ensures
        res@ == str_to_uppercase(s@),
        vstd::utf8::is_ascii_chars(s@) ==> res@ == s@.map_values(|c: char| ascii_upper_char(c)),
{
    s.to_uppercase()
}

/// `Path::file_stem` (std) on the path written as `p`, its result taken back as
/// text (a part of a `&str` is valid UTF-8, so nothing is lost). As std
/// documents it, the stem is taken from the file name (`path_file_name`) by
/// its last `.`. Of the file name itself it states what `Path::file_name`
/// documents (the final component of the path) for two kinds of paths: the
/// empty path has none, and a simple path's is the plain name after its last
/// `/`. How the file name is found among the components of other paths (with
/// `\\`, drive or network prefixes, or ending in `/`, `.` or `..`) is not stated.
#[verifier::external_body]
fn file_stem(p: &str) -> (res: Option<String>)
    ensures
        match res {
            Some(s) => stem_of(path_file_name(p@)) == Some(s@),
            None => stem_of(path_file_name(p@)) is None,
        },
        p@.len() == 0 ==> res is None,
        simple_path(p@) ==> (match res {
            Some(s) => stem_of(Some(after_last_slash(p@))) == Some(s@),
            None => false,
        }),
{
    match Path::new(p).file_stem() {
        Some(s) => Some(s.to_string_lossy().into_owned()),
        None => None,
    }
}

/// `Path::extension` (std) on the path written as `p`, its result taken back as
/// text. As std documents it, the extension is taken from the file name
/// (`path_file_name`) after its last `.`; as for `file_stem`, the empty path
/// has no file name and a simple path's is the plain name after its last `/`,
/// and how the file name is found among the components of other paths is not
/// stated.
#[verifier::external_body]
fn extension(p: &str) -> (res: Option<String>)
    ensures
        match res {
            Some(s) => extension_of(path_file_name(p@)) == Some(s@),
            None => extension_of(path_file_name(p@)) is None,
        },
        p@.len() == 0 ==> res is None,
        simple_path(p@) ==> (match res {
            Some(s) => extension_of(Some(after_last_slash(p@))) == Some(s@),
            None => extension_of(Some(after_last_slash(p@))) is None,
        }),
{
    match Path::new(p).extension() {
        Some(s) => Some(s.to_string_lossy().into_owned()),
        None => None,
    }
}

/// `s` with every `_` written as a space.
pub open spec fn underscores_to_spaces(s: Seq<char>) -> Seq<char> {
    s.map_values(|c: char| if c == '_' { ' ' } else { c })
}

/// Game name of a file stem: the stem in uppercase, `_` written as a space; the
/// empty game name when there is no stem.
pub open spec fn game_name_of_stem(stem: Option<Seq<char>>) -> Seq<char> {
    match stem {
        Some(s) => underscores_to_spaces(str_to_uppercase(s)),
        None => EMPTY_GAME_NAME@,
    }
}

/// An extension names a game file: it is absent, `ch8` or `CH8`.
pub open spec fn is_game_extension_of(ext: Option<Seq<char>>) -> bool {
    match ext {
        None => true,
        Some(e) => e == seq!['c', 'h', '8'] || e == seq!['C', 'H', '8'],
    }
}

/// Replaces every `_` of `s` by a space.
pub fn replace_underscores(s: &str) -> (res: String)
    ensures
        res@ == underscores_to_spaces(s@),
{
    let n = s.unicode_len();
    let mut res = String::new();
    let mut i: usize = 0;
    while i < n
        invariant
            i <= n,
            n == s@.len(),
            res@ =~= underscores_to_spaces(s@.take(i as int)),
        decreases n - i,
    {
        let c = s.get_char(i);
        if c == '_' {
            string_push(&mut res, ' ');
        } else {
            string_push(&mut res, c);
        }
        assert(s@.take(i + 1) =~= s@.take(i as int).push(c));
        i = i + 1;
    }
    assert(s@.take(n as int) =~= s@);
    res
}

/// ASCII game name of a text: the text in ASCII uppercase, `_` written as a space.
pub open spec fn ascii_game_name(s: Seq<char>) -> Seq<char> {
    underscores_to_spaces(s.map_values(|c: char| ascii_upper_char(c)))
}

/// Game name from a file stem: the stem in uppercase, `_` written as a space;
/// the empty game name when there is no stem.
pub fn game_name_from_stem(stem: Option<&str>) -> (res: String)
    ensures
        res@ == game_name_of_stem(match stem {
            Some(s) => Some(s@),
            None => None,
        }),
        stem matches Some(s) ==> (vstd::utf8::is_ascii_chars(s@) ==> res@ == ascii_game_name(s@)),
{
    match stem {
        Some(s) => {
            let up = to_uppercase(s);
            replace_underscores(up.as_str())
        },
        None => EMPTY_GAME_NAME.to_owned(),
    }
}

/// Whether a file extension names a game file: absent, `ch8` or `CH8`.
pub fn is_game_extension(ext: Option<&str>) -> (res: bool)
    ensures
        res == is_game_extension_of(match ext {
            Some(e) => Some(e@),
            None => None,
        }),
{
    match ext {
        None => true,
        Some(e) => {
            if e.unicode_len() != 3 {
                return false;
            }
            let a = e.get_char(0);
            let b = e.get_char(1);
            let c = e.get_char(2);
            let r = (a == 'c' && b == 'h' && c == '8') || (a == 'C' && b == 'H' && c == '8');
            assert(r == (e@ =~= seq!['c', 'h', '8'] || e@ =~= seq!['C', 'H', '8']));
            r
        },
    }
}

impl Cartridge {
    /// Title.
    pub closed spec fn title(&self) -> Seq<char> {
        self.title@
    }

    /// Path.
    pub closed spec fn path(&self) -> Seq<char> {
        self.path@
    }

    /// Data.
    pub closed spec fn data(&self) -> Seq<u8> {
        self.data@
    }

    /// New empty cartridge.
    pub fn new_empty() -> (res: Self)
        ensures
            res.title() == EMPTY_GAME_NAME@,
            res.path() == Seq::<char>::empty(),
            res.data() == Seq::<u8>::empty(),
    {
        Self { title: EMPTY_GAME_NAME.to_owned(), path: String::new(), data: Vec::new() }
    }

    /// Set data.
    pub fn set_data(&mut self, data: Vec<C8Byte>)
        ensures
            final(self).data() == data@,
            final(self).title() == old(self).title(),
            final(self).path() == old(self).path(),
    {
        self.data = data;
    }

    /// Get game name from path: its file stem in uppercase, `_` written as a
    /// space, or the empty game name when the path has no file stem.
    pub fn get_game_name(path: &str) -> (res: String)
        ensures
            res@ == game_name_of_stem(stem_of(path_file_name(path@))),
            path@.len() == 0 ==> res@ == EMPTY_GAME_NAME@,
            simple_path(path@) && vstd::utf8::is_ascii_chars(path@) ==> res@ == ascii_game_name(
                stem_of(Some(after_last_slash(path@)))->0,
            ),
    {
        let stem = file_stem(path);
        match stem {
            Some(s) => {
                proof {
                    if simple_path(path@) && vstd::utf8::is_ascii_chars(path@) {
                        lemma_last_slash_bounds(path@);
                        let n = after_last_slash(path@);
                        let k = last_slash(path@) + 1;
                        lemma_last_dot_bounds(n);
                        assert forall|i: int| 0 <= i < s@.len() implies '\0' <= #[trigger] s@[i] <= '\u{7f}' by {
                            assert(s@[i] == n[i]);
                            assert(n[i] == path@[k + i]);
                        }
                    }
                }
                game_name_from_stem(Some(s.as_str()))
            },
            None => game_name_from_stem(None),
        }
    }

    /// Check game extension: the path is not empty, and its extension is absent,
    /// `ch8` or `CH8`.
    pub fn check_game_extension(path: &str) -> (res: bool)
        ensures
            res == (path@.len() > 0 && is_game_extension_of(extension_of(path_file_name(path@)))),
            simple_path(path@) ==> res == is_game_extension_of(extension_of(Some(after_last_slash(path@)))),
    {
        if path.is_empty() {
            return false;
        }
        let ext = extension(path);
        match ext {
            Some(e) => is_game_extension(Some(e.as_str())),
            None => is_game_extension(None),
        }
    }
}

/// Number of opcodes in a cartridge of `n` bytes (two bytes each, the last one
/// possibly short).
pub open spec fn opcode_count(n: nat) -> nat {
    (n + 1) / 2
}

/// `s` padded with spaces to at least `width` characters (`{:width}`).
pub open spec fn pad_text(s: Seq<char>, width: nat) -> Seq<char> {
    if s.len() >= width { s } else { s + Seq::new((width - s.len()) as nat, |i: int| ' ') }
}

/// Listing line of the opcode `code` at address `addr`:
/// `{addr:04X}|{schip}({code:04X})  {assembly:20} ; {explanation}`, where `schip`
/// is `*` for SCHIP opcodes and a space otherwise.
pub open spec fn listing_line(addr: u16, code: u16) -> Seq<char> {
    hex4_text(addr) + seq!['|'] + (if spec_is_opcode_schip(code) { seq!['*'] } else { seq![' '] })
        + seq!['('] + hex4_text(code) + seq![')', ' ', ' ']
        + pad_text(spec_opcode_asm(spec_opcode_enum(code)), 20) + seq![' ', ';', ' ']
        + spec_opcode_verbose(spec_opcode_enum(code))
}

/// UTF-8 bytes of the listing lines of `data` from opcode `i` on, each ended by
/// a newline; opcode `i` stands at address `0x200 + 2 * i`.
pub open spec fn listing_bytes(data: Seq<u8>, i: nat) -> Seq<u8>
    decreases opcode_count(data.len()) - i,
{
    if i >= opcode_count(data.len()) {
        Seq::empty()
    } else {
        vstd::utf8::encode_utf8(
            listing_line((0x200 + 2 * i) as u16, spec_extract_opcode(data, (2 * i) as int))
                + seq!['\n'],
        ) + listing_bytes(data, i + 1)
    }
}

/// Appends `s` padded with spaces to at least `width` characters.
pub fn push_padded(res: &mut String, s: &str, width: usize)
    ensures
        final(res)@ == old(res)@ + pad_text(s@, width as nat),
{
    res.append(s);
    let n = s.unicode_len();
    if n < width {
        let mut k = n;
        while k < width
            invariant
                n <= k <= width,
                n == s@.len(),
                res@ =~= old(res)@ + s@ + Seq::new((k - n) as nat, |i: int| ' '),
            decreases width - k,
        {
            string_push(res, ' ');
            k = k + 1;
        }
    }
}

/// Appends the bytes of `s`.
pub fn push_str_bytes(out: &mut Vec<u8>, s: &str)
    ensures
        final(out)@ == old(out)@ + s.spec_bytes(),
{
    let b = s.as_bytes();
    let mut i: usize = 0;
    while i < b.len()
        invariant
            i <= b@.len(),
            b@ == s.spec_bytes(),
            out@ =~= old(out)@ + b@.take(i as int),
        decreases b@.len() - i,
    {
        out.push(b[i]);
        i = i + 1;
    }
    assert(b@.take(b@.len() as int) =~= b@);
}

impl Cartridge {
    /// Load cartridge from bytes.
    pub fn load_from_string(title: &str, path: &str, bytes: &[C8Byte]) -> (res: Result<Cartridge, MissingCartridgeError>)
        ensures
            res matches Ok(c) && c.title() == title@ && c.path() == path@ && c.data() == bytes@,
    {
        let title = title.to_owned();
        let data = vstd::slice::slice_to_vec(bytes);
        let path = path.to_owned();
        Ok(Cartridge { title, data, path })
    }

    /// Get cartridge title.
    pub fn get_title(&self) -> (res: &str)
        ensures
            res@ == self.title(),
    {
        self.title.as_str()
    }

    /// Get cartridge path.
    pub fn get_path(&self) -> (res: &str)
        ensures
            res@ == self.path(),
    {
        self.path.as_str()
    }

    /// Get internal data.
    pub fn get_data(&self) -> (res: &[C8Byte])
        ensures
            res@ == self.data(),
    {
        self.data.as_slice()
    }

    /// Disassemble cartridge: returns the opcodes, their assembly and their explanations.
    pub fn disassemble(&self) -> (res: (Vec<C8Addr>, Vec<String>, Vec<String>))
        ensures
            res.0@.len() == opcode_count(self.data().len()),
            res.1@.len() == opcode_count(self.data().len()),
            res.2@.len() == opcode_count(self.data().len()),
            forall|i: int| 0 <= i < res.0@.len() ==> {
                &&& #[trigger] res.0@[i] == spec_extract_opcode(self.data(), 2 * i)
                &&& res.1@[i]@ == spec_opcode_asm(spec_opcode_enum(res.0@[i]))
                &&& res.2@[i]@ == spec_opcode_verbose(spec_opcode_enum(res.0@[i]))
            },
    {
        let mut code_output: Vec<C8Addr> = Vec::new();
        let mut assembly_output: Vec<String> = Vec::new();
        let mut verbose_output: Vec<String> = Vec::new();
        let len = self.data.len();
        let n = len / 2 + len % 2;
        let mut i: usize = 0;
        while i < n
            invariant
                len == self.data@.len(),
                n == opcode_count(len as nat),
                i <= n,
                i == code_output@.len(),
                code_output@.len() == assembly_output@.len(),
                code_output@.len() == verbose_output@.len(),
                forall|j: int| 0 <= j < code_output@.len() ==> {
                    &&& #[trigger] code_output@[j] == spec_extract_opcode(self.data@, 2 * j)
                    &&& assembly_output@[j]@ == spec_opcode_asm(spec_opcode_enum(code_output@[j]))
                    &&& verbose_output@[j]@ == spec_opcode_verbose(spec_opcode_enum(code_output@[j]))
                },
            decreases n - i,
        {
            let ptr = 2 * i;
            let opcode_value = extract_opcode_from_array(self.data.as_slice(), ptr);
            let opcode_enum = get_opcode_enum(opcode_value);
            let (assembly, verbose) = get_opcode_str(&opcode_enum);
            code_output.push(opcode_value);
            assembly_output.push(assembly);
            verbose_output.push(verbose);
            i = i + 1;
        }
        (code_output, assembly_output, verbose_output)
    }

    /// Write disassembly listing to an output byte stream.
    pub fn write_disassembly_to_stream(&self, output_stream: &mut Vec<u8>)
        requires
            0x200 + 2 * opcode_count(self.data().len()) <= 0xFFFF,
        ensures
            final(output_stream)@ == old(output_stream)@ + listing_bytes(self.data(), 0),
    {
        let (code, assembly, verbose) = self.disassemble();
        let mut ptr_value: C8Addr = INITIAL_MEMORY_POINTER;
        let n = assembly.len();
        let mut i: usize = 0;
        while i < n
            invariant
                i <= n,
                n == opcode_count(self.data().len()),
                code@.len() == n && assembly@.len() == n && verbose@.len() == n,
                ptr_value == 0x200 + 2 * i,
                0x200 + 2 * n <= 0xFFFF,
                forall|j: int| 0 <= j < n ==> {
                    &&& #[trigger] code@[j] == spec_extract_opcode(self.data(), 2 * j)
                    &&& assembly@[j]@ == spec_opcode_asm(spec_opcode_enum(code@[j]))
                    &&& verbose@[j]@ == spec_opcode_verbose(spec_opcode_enum(code@[j]))
                },
                old(output_stream)@ + listing_bytes(self.data(), 0)
                    == output_stream@ + listing_bytes(self.data(), i as nat),
            decreases n - i,
        {
            let c = code[i];
            let mut line = String::new();
            push_hex4(&mut line, ptr_value);
            string_push(&mut line, '|');
            if is_opcode_schip(c) {
                string_push(&mut line, '*');
            } else {
                string_push(&mut line, ' ');
            }
            string_push(&mut line, '(');
            push_hex4(&mut line, c);
            string_push(&mut line, ')');
            string_push(&mut line, ' ');
            string_push(&mut line, ' ');
            push_padded(&mut line, assembly[i].as_str(), 20);
            string_push(&mut line, ' ');
            string_push(&mut line, ';');
            string_push(&mut line, ' ');
            line.append(verbose[i].as_str());
            string_push(&mut line, '\n');
            assert(line@ =~= listing_line(ptr_value, c) + seq!['\n']);
            let ghost before = output_stream@;
            push_str_bytes(output_stream, line.as_str());
            assert(listing_bytes(self.data(), i as nat) =~= vstd::utf8::encode_utf8(line@) + listing_bytes(self.data(), (i + 1) as nat));
            assert(before + listing_bytes(self.data(), i as nat) =~= output_stream@ + listing_bytes(self.data(), (i + 1) as nat));
            ptr_value = ptr_value + 2;
            i = i + 1;
        }
        assert(listing_bytes(self.data(), n as nat) =~= Seq::<u8>::empty());
    }
}

} // verus!
