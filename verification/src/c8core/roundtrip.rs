//! The assembly text of an opcode reads back as that opcode.
use vstd::prelude::*;
use vstd::utf8::{encode_utf8, is_ascii_chars, is_ascii_chars_encode_utf8};
use crate::c8core::assembler::{
    find_upper, resolvable, spec_arg_token, spec_resolve, spec_split_words, spec_words_to_opcode, upper_end, ArgToken,
    AsmError,
};
use crate::c8core::opcodes::{lemma_encode_decode, operands_fit, spec_opcode_asm, spec_opcode_enum, OpCode};
use crate::c8core::syntax::{find_byte, split_trim, trim, trim_end, trim_start, ws_back_len, ws_front_len};
use crate::c8core::types::{hex_digit_value, hex_digits_value, spec_hex_addr, spec_parse_hex};
use crate::text::{hex2_text, hex4_text, hex_char, reg_text};

verus! {

/// Bytes of an ASCII text, one per character.
pub open spec fn ascii(cs: Seq<char>) -> Seq<u8> {
    cs.map_values(|c: char| c as u8)
}

/// Byte of the hexadecimal digit `d`.
pub open spec fn hexb(d: int) -> u8 {
    hex_char(d) as u8
}

/// Bytes of a register argument `V{x:X}`.
pub open spec fn reg_b(x: u8) -> Seq<u8> {
    seq![0x56u8, hexb(x as int)]
}

/// Bytes of a byte argument `{b:02X}`.
pub open spec fn hex2_b(b: u8) -> Seq<u8> {
    seq![hexb(b as int / 16), hexb(b as int % 16)]
}

/// Bytes of an address argument `{a:04X}`.
pub open spec fn hex4_b(a: u16) -> Seq<u8> {
    seq![hexb(a as int / 4096), hexb((a as int / 256) % 16), hexb((a as int / 16) % 16), hexb(a as int % 16)]
}

/// A byte that an argument text may hold: printable ASCII, not a space or a comma.
pub open spec fn arg_byte(b: u8) -> bool {
    0x21 <= b <= 0x7E && b != 0x2C
}

/// An argument text: not empty, made of argument bytes.
pub open spec fn plain_arg(a: Seq<u8>) -> bool {
    a.len() > 0 && forall|i: int| 0 <= i < a.len() ==> #[trigger] arg_byte(a[i])
}

/// A mnemonic: not empty, made of uppercase letters.
pub open spec fn upper_word(m: Seq<u8>) -> bool {
    m.len() > 0 && forall|i: int| 0 <= i < m.len() ==> 0x41 <= #[trigger] m[i] <= 0x5A
}

/// Instruction text: a mnemonic, and after a space its arguments separated by `, `.
pub open spec fn line_of(m: Seq<u8>, args: Seq<Seq<u8>>) -> Seq<u8> {
    if args.len() == 0 {
        m
    } else if args.len() == 1 {
        m + seq![0x20u8] + args[0]
    } else if args.len() == 2 {
        m + seq![0x20u8] + args[0] + seq![0x2Cu8, 0x20u8] + args[1]
    } else {
        m + seq![0x20u8] + args[0] + seq![0x2Cu8, 0x20u8] + args[1] + seq![0x2Cu8, 0x20u8] + args[2]
    }
}

/// The digit `d` is written with an ASCII digit or uppercase letter, which reads back as `d`.
proof fn lemma_hexb(d: int)
    requires
        0 <= d < 16,
    ensures
        (0x30 <= hexb(d) <= 0x39) || (0x41 <= hexb(d) <= 0x46),
        hex_digit_value(hexb(d)) == Some(d as nat),
        '\0' <= hex_char(d) <= '\u{7f}',
{
}

/// A register argument is read as that register.
proof fn lemma_reg_token(x: u8)
    requires
        x < 16,
    ensures
        plain_arg(reg_b(x)),
        spec_arg_token(reg_b(x)) == Some(Ok::<ArgToken, AsmError>(ArgToken::Register(x))),
{
    lemma_hexb(x as int);
    let d = reg_b(x).skip(1);
    assert(d =~= seq![hexb(x as int)]);
    assert(d.drop_last() =~= Seq::<u8>::empty());
    assert(d.last() == hexb(x as int));
    assert(hex_digits_value(d.drop_last()) == 0);
    assert(hex_digits_value(d) == x);
    assert(spec_parse_hex(d, 0xFF) == Some(x as nat));
}

/// A byte argument is read as that byte.
proof fn lemma_byte_token(b: u8)
    ensures
        plain_arg(hex2_b(b)),
        spec_arg_token(hex2_b(b)) == Some(Ok::<ArgToken, AsmError>(ArgToken::Byte(b))),
{
    let h = b as int / 16;
    let l = b as int % 16;
    lemma_hexb(h);
    lemma_hexb(l);
    let s = hex2_b(b);
    let s1 = s.drop_last();
    assert(s1 =~= seq![hexb(h)]);
    assert(s1.drop_last() =~= Seq::<u8>::empty());
    assert(hex_digits_value(s1.drop_last()) == 0);
    assert(s1.last() == hexb(h));
    assert(hex_digits_value(s1) == h);
    assert(s.last() == hexb(l));
    assert(hex_digits_value(s) == h * 16 + l);
    assert(spec_parse_hex(s, 0xFF) == Some(b as nat));
}

/// An address argument is read as that address.
proof fn lemma_addr_token(a: u16)
    ensures
        plain_arg(hex4_b(a)),
        spec_arg_token(hex4_b(a)) == Some(Ok::<ArgToken, AsmError>(ArgToken::Address(a))),
{
    let d0 = a as int / 4096;
    let d1 = (a as int / 256) % 16;
    let d2 = (a as int / 16) % 16;
    let d3 = a as int % 16;
    lemma_hexb(d0);
    lemma_hexb(d1);
    lemma_hexb(d2);
    lemma_hexb(d3);
    let s = hex4_b(a);
    let s3 = s.drop_last();
    let s2 = s3.drop_last();
    let s1 = s2.drop_last();
    let s0 = s1.drop_last();
    assert(s3 =~= seq![hexb(d0), hexb(d1), hexb(d2)]);
    assert(s2 =~= seq![hexb(d0), hexb(d1)]);
    assert(s1 =~= seq![hexb(d0)]);
    assert(s0 =~= Seq::<u8>::empty());
    assert(hex_digits_value(s0) == 0);
    assert(s1.last() == hexb(d0));
    assert(hex_digits_value(s1) == d0);
    assert(s2.last() == hexb(d1));
    assert(hex_digits_value(s2) == d0 * 16 + d1);
    assert(s3.last() == hexb(d2));
    assert(hex_digits_value(s3) == (d0 * 16 + d1) * 16 + d2);
    assert(s.last() == hexb(d3));
    assert(hex_digits_value(s) == ((d0 * 16 + d1) * 16 + d2) * 16 + d3);
    assert(((d0 * 16 + d1) * 16 + d2) * 16 + d3 == a);
    assert(spec_hex_addr(s) == Some(a as nat));
}

/// The texts of registers, bytes and addresses are ASCII, with the bytes above.
proof fn lemma_operand_texts(x: u8, b: u8, a: u16)
    ensures
        x < 16 ==> is_ascii_chars(reg_text(x)) && ascii(reg_text(x)) == reg_b(x),
        is_ascii_chars(hex2_text(b)) && ascii(hex2_text(b)) == hex2_b(b),
        is_ascii_chars(hex4_text(a)) && ascii(hex4_text(a)) == hex4_b(a),
{
    if x < 16 {
        lemma_hexb(x as int);
        assert(ascii(reg_text(x)) =~= reg_b(x));
    }
    lemma_hexb(b as int / 16);
    lemma_hexb(b as int % 16);
    assert(ascii(hex2_text(b)) =~= hex2_b(b));
    lemma_hexb(a as int / 4096);
    lemma_hexb((a as int / 256) % 16);
    lemma_hexb((a as int / 16) % 16);
    lemma_hexb(a as int % 16);
    assert(ascii(hex4_text(a)) =~= hex4_b(a));
}

/// The UTF-8 bytes of an ASCII text are its characters.
proof fn lemma_encode_ascii(cs: Seq<char>)
    requires
        is_ascii_chars(cs),
    ensures
        encode_utf8(cs) == ascii(cs),
{
    is_ascii_chars_encode_utf8(cs);
    assert(encode_utf8(cs) =~= ascii(cs));
}

/// ASCII texts join into an ASCII text whose bytes are joined.
proof fn lemma_ascii_cat(a: Seq<char>, b: Seq<char>)
    requires
        is_ascii_chars(a),
        is_ascii_chars(b),
    ensures
        is_ascii_chars(a + b),
        ascii(a + b) == ascii(a) + ascii(b),
{
    assert forall|i: int| 0 <= i < (a + b).len() implies '\0' <= #[trigger] (a + b)[i] <= '\u{7f}' by {
        if i < a.len() {
            assert((a + b)[i] == a[i]);
        } else {
            assert((a + b)[i] == b[i - a.len()]);
        }
    }
    assert(ascii(a + b) =~= ascii(a) + ascii(b));
}

/// An argument, after at most one space, is its own trim.
proof fn lemma_trim_arg(lead: Seq<u8>, a: Seq<u8>)
    requires
        lead.len() == 0 || lead == seq![0x20u8],
        plain_arg(a),
    ensures
        trim(lead + a) == a,
{
    assert(arg_byte(a[0]));
    assert(arg_byte(a[a.len() - 1]));
    assert(ws_front_len(a) == 0);
    assert(trim_start(a) == a);
    if lead.len() == 0 {
        assert(lead + a =~= a);
    } else {
        assert((lead + a)[0] == 0x20);
        assert(ws_front_len(lead + a) == 1);
        assert((lead + a).skip(1) =~= a);
    }
    assert(trim_start(lead + a) == a);
    assert(ws_back_len(a) == 0);
    assert(trim_end(a) == a);
}

/// `find_byte` finds no byte that a stretch of argument bytes lacks.
proof fn lemma_find_past_args(s: Seq<u8>, i: int, k: int, c: u8)
    requires
        0 <= i <= k <= s.len(),
        forall|j: int| i <= j < k ==> s[j] != c,
    ensures
        find_byte(s, i, c) == find_byte(s, k, c),
    decreases k - i,
{
    if i < k {
        lemma_find_past_args(s, i + 1, k, c);
    }
}

/// The fields of `lead + a` (no comma) are `[a]`; of `lead + a + ", " + rest`,
/// `a` followed by the fields of `" " + rest`.
proof fn lemma_split_trim_step(lead: Seq<u8>, a: Seq<u8>, rest: Option<Seq<u8>>)
    requires
        lead.len() == 0 || lead == seq![0x20u8],
        plain_arg(a),
    ensures
        rest is None ==> split_trim(lead + a) == seq![a],
        rest matches Some(r) ==> split_trim(lead + a + seq![0x2Cu8, 0x20u8] + r)
            == seq![a] + split_trim(seq![0x20u8] + r),
{
    lemma_trim_arg(lead, a);
    let la = lead + a;
    assert forall|j: int| 0 <= j < la.len() implies la[j] != 0x2C by {
        if j >= lead.len() {
            assert(la[j] == a[j - lead.len()]);
            assert(arg_byte(a[j - lead.len()]));
        }
    }
    match rest {
        None => {
            lemma_find_past_args(la, 0, la.len() as int, 0x2C);
        },
        Some(r) => {
            let s = la + seq![0x2Cu8, 0x20u8] + r;
            assert forall|j: int| 0 <= j < la.len() implies s[j] != 0x2C by {
                assert(s[j] == la[j]);
            }
            lemma_find_past_args(s, 0, la.len() as int, 0x2C);
            assert(s[la.len() as int] == 0x2C);
            assert(s.take(la.len() as int) =~= la);
            assert(s.skip(la.len() as int + 1) =~= seq![0x20u8] + r);
        },
    }
}

/// The mnemonic is the first run of uppercase letters.
proof fn lemma_upper_end(s: Seq<u8>, m: Seq<u8>, i: int)
    requires
        upper_word(m),
        m.len() <= s.len(),
        s.take(m.len() as int) == m,
        m.len() == s.len() || s[m.len() as int] == 0x20,
        0 <= i <= m.len(),
    ensures
        upper_end(s, i) == m.len(),
    decreases m.len() - i,
{
    if i < m.len() {
        assert(s[i] == m[i]);
        lemma_upper_end(s, m, i + 1);
    }
}

/// An instruction text splits into its mnemonic and its arguments.
pub proof fn lemma_split_line(m: Seq<u8>, args: Seq<Seq<u8>>)
    requires
        upper_word(m),
        args.len() <= 3,
        forall|i: int| 0 <= i < args.len() ==> plain_arg(#[trigger] args[i]),
    ensures
        spec_split_words(line_of(m, args)) == Some((m, args)),
{
    let s = line_of(m, args);
    assert(s.take(m.len() as int) =~= m);
    assert(s[0] == m[0]);
    assert(find_upper(s, 0) == 0);
    lemma_upper_end(s, m, 0);
    if args.len() > 0 {
        let rest = s.subrange(m.len() as int + 1, s.len() as int);
        assert(plain_arg(args[0]));
        if args.len() == 1 {
            assert(rest =~= args[0]);
            lemma_split_trim_step(Seq::<u8>::empty(), args[0], None);
            assert(Seq::<u8>::empty() + args[0] =~= args[0]);
        } else if args.len() == 2 {
            assert(plain_arg(args[1]));
            assert(rest =~= Seq::<u8>::empty() + args[0] + seq![0x2Cu8, 0x20u8] + args[1]);
            lemma_split_trim_step(Seq::<u8>::empty(), args[0], Some(args[1]));
            lemma_split_trim_step(seq![0x20u8], args[1], None);
        } else {
            assert(plain_arg(args[1]));
            assert(plain_arg(args[2]));
            let r2 = args[1] + seq![0x2Cu8, 0x20u8] + args[2];
            assert(rest =~= Seq::<u8>::empty() + args[0] + seq![0x2Cu8, 0x20u8] + r2);
            lemma_split_trim_step(Seq::<u8>::empty(), args[0], Some(r2));
            assert(seq![0x20u8] + r2 =~= seq![0x20u8] + args[1] + seq![0x2Cu8, 0x20u8] + args[2]);
            lemma_split_trim_step(seq![0x20u8], args[1], Some(args[2]));
            lemma_split_trim_step(seq![0x20u8], args[2], None);
        }
        assert forall|j: int| 0 <= j < rest.len() implies rest[j] != 0x0A by {
            assert(rest[j] == s[m.len() + 1 + j]);
            if args.len() == 1 {
                assert(arg_byte(args[0][j]));
            } else if args.len() == 2 {
                if j < args[0].len() {
                    assert(rest[j] == args[0][j]);
                    assert(arg_byte(args[0][j]));
                } else if j >= args[0].len() + 2 {
                    assert(rest[j] == args[1][j - args[0].len() - 2]);
                    assert(arg_byte(args[1][j - args[0].len() - 2]));
                }
            } else {
                let l0 = args[0].len() as int;
                let l1 = args[1].len() as int;
                if j < l0 {
                    assert(rest[j] == args[0][j]);
                    assert(arg_byte(args[0][j]));
                } else if l0 + 2 <= j < l0 + 2 + l1 {
                    assert(rest[j] == args[1][j - l0 - 2]);
                    assert(arg_byte(args[1][j - l0 - 2]));
                } else if j >= l0 + l1 + 4 {
                    assert(rest[j] == args[2][j - l0 - l1 - 4]);
                    assert(arg_byte(args[2][j - l0 - l1 - 4]));
                }
            }
        }
        lemma_find_past_args(rest, 0, rest.len() as int, 0x0A);
        assert(s.subrange(m.len() as int + 1, s.len() as int) == rest);
    }
}

/// The text of `SYS` reads back as `SYS`.
proof fn lemma_text_sys(a: u16)
    ensures
        spec_words_to_opcode(encode_utf8(spec_opcode_asm(OpCode::SYS(a)))) == Some(Ok::<OpCode, AsmError>(OpCode::SYS(a))),
{
    reveal_strlit("SYS ");
    assert(ascii("SYS "@) =~= seq![83u8, 89u8, 83u8, 32u8]);
    assert(is_ascii_chars("SYS "@));
    lemma_operand_texts(0, 0, a);
    lemma_addr_token(a);
    lemma_ascii_cat("SYS "@, hex4_text(a));
    let t = spec_opcode_asm(OpCode::SYS(a));
    assert(t == "SYS "@ + hex4_text(a));
    lemma_encode_ascii(t);
    let m = seq![83u8, 89u8, 83u8];
    let args: Seq<Seq<u8>> = seq![hex4_b(a)];
    assert(ascii(t) =~= line_of(m, args));
    lemma_split_line(m, args);
}

/// The text of `CLS` reads back as `CLS`.
proof fn lemma_text_cls()
    ensures
        spec_words_to_opcode(encode_utf8(spec_opcode_asm(OpCode::CLS))) == Some(Ok::<OpCode, AsmError>(OpCode::CLS)),
{
    reveal_strlit("CLS");
    assert(ascii("CLS"@) =~= seq![67u8, 76u8, 83u8]);
    assert(is_ascii_chars("CLS"@));
    let t = spec_opcode_asm(OpCode::CLS);
    assert(t == "CLS"@);
    lemma_encode_ascii(t);
    let m = seq![67u8, 76u8, 83u8];
    let args: Seq<Seq<u8>> = Seq::<Seq<u8>>::empty();
    assert(ascii(t) =~= line_of(m, args));
    lemma_split_line(m, args);
}

/// The text of `RET` reads back as `RET`.
proof fn lemma_text_ret()
    ensures
        spec_words_to_opcode(encode_utf8(spec_opcode_asm(OpCode::RET))) == Some(Ok::<OpCode, AsmError>(OpCode::RET)),
{
    reveal_strlit("RET");
    assert(ascii("RET"@) =~= seq![82u8, 69u8, 84u8]);
    assert(is_ascii_chars("RET"@));
    let t = spec_opcode_asm(OpCode::RET);
    assert(t == "RET"@);
    lemma_encode_ascii(t);
    let m = seq![82u8, 69u8, 84u8];
    let args: Seq<Seq<u8>> = Seq::<Seq<u8>>::empty();
    assert(ascii(t) =~= line_of(m, args));
    lemma_split_line(m, args);
}

/// The text of `JP` reads back as `JP`.
proof fn lemma_text_jp(a: u16)
    ensures
        spec_words_to_opcode(encode_utf8(spec_opcode_asm(OpCode::JP(a)))) == Some(Ok::<OpCode, AsmError>(OpCode::JP(a))),
{
    reveal_strlit("JP ");
    assert(ascii("JP "@) =~= seq![74u8, 80u8, 32u8]);
    assert(is_ascii_chars("JP "@));
    lemma_operand_texts(0, 0, a);
    lemma_addr_token(a);
    lemma_ascii_cat("JP "@, hex4_text(a));
    let t = spec_opcode_asm(OpCode::JP(a));
    assert(t == "JP "@ + hex4_text(a));
    lemma_encode_ascii(t);
    let m = seq![74u8, 80u8];
    let args: Seq<Seq<u8>> = seq![hex4_b(a)];
    assert(ascii(t) =~= line_of(m, args));
    lemma_split_line(m, args);
}

/// The text of `CALL` reads back as `CALL`.
proof fn lemma_text_call(a: u16)
    ensures
        spec_words_to_opcode(encode_utf8(spec_opcode_asm(OpCode::CALL(a)))) == Some(Ok::<OpCode, AsmError>(OpCode::CALL(a))),
{
    reveal_strlit("CALL ");
    assert(ascii("CALL "@) =~= seq![67u8, 65u8, 76u8, 76u8, 32u8]);
    assert(is_ascii_chars("CALL "@));
    lemma_operand_texts(0, 0, a);
    lemma_addr_token(a);
    lemma_ascii_cat("CALL "@, hex4_text(a));
    let t = spec_opcode_asm(OpCode::CALL(a));
    assert(t == "CALL "@ + hex4_text(a));
    lemma_encode_ascii(t);
    let m = seq![67u8, 65u8, 76u8, 76u8];
    let args: Seq<Seq<u8>> = seq![hex4_b(a)];
    assert(ascii(t) =~= line_of(m, args));
    lemma_split_line(m, args);
}

/// The text of `SEByte` reads back as `SEByte`.
proof fn lemma_text_sebyte(x: u8, b: u8)
    requires
        x < 16,
    ensures
        spec_words_to_opcode(encode_utf8(spec_opcode_asm(OpCode::SEByte(x, b)))) == Some(Ok::<OpCode, AsmError>(OpCode::SEByte(x, b))),
{
    reveal_strlit("SE ");
    assert(ascii("SE "@) =~= seq![83u8, 69u8, 32u8]);
    assert(is_ascii_chars("SE "@));
    reveal_strlit(", ");
    assert(ascii(", "@) =~= seq![44u8, 32u8]);
    assert(is_ascii_chars(", "@));
    lemma_operand_texts(x, 0, 0);
    lemma_reg_token(x);
    lemma_operand_texts(0, b, 0);
    lemma_byte_token(b);
    lemma_ascii_cat("SE "@, reg_text(x));
    lemma_ascii_cat("SE "@ + reg_text(x), ", "@);
    lemma_ascii_cat("SE "@ + reg_text(x) + ", "@, hex2_text(b));
    let t = spec_opcode_asm(OpCode::SEByte(x, b));
    assert(t == "SE "@ + reg_text(x) + ", "@ + hex2_text(b));
    lemma_encode_ascii(t);
    let m = seq![83u8, 69u8];
    let args: Seq<Seq<u8>> = seq![reg_b(x), hex2_b(b)];
    assert(ascii(t) =~= line_of(m, args));
    lemma_split_line(m, args);
}

/// The text of `SNEByte` reads back as `SNEByte`.
proof fn lemma_text_snebyte(x: u8, b: u8)
    requires
        x < 16,
    ensures
        spec_words_to_opcode(encode_utf8(spec_opcode_asm(OpCode::SNEByte(x, b)))) == Some(Ok::<OpCode, AsmError>(OpCode::SNEByte(x, b))),
{
    reveal_strlit("SNE ");
    assert(ascii("SNE "@) =~= seq![83u8, 78u8, 69u8, 32u8]);
    assert(is_ascii_chars("SNE "@));
    reveal_strlit(", ");
    assert(ascii(", "@) =~= seq![44u8, 32u8]);
    assert(is_ascii_chars(", "@));
    lemma_operand_texts(x, 0, 0);
    lemma_reg_token(x);
    lemma_operand_texts(0, b, 0);
    lemma_byte_token(b);
    lemma_ascii_cat("SNE "@, reg_text(x));
    lemma_ascii_cat("SNE "@ + reg_text(x), ", "@);
    lemma_ascii_cat("SNE "@ + reg_text(x) + ", "@, hex2_text(b));
    let t = spec_opcode_asm(OpCode::SNEByte(x, b));
    assert(t == "SNE "@ + reg_text(x) + ", "@ + hex2_text(b));
    lemma_encode_ascii(t);
    let m = seq![83u8, 78u8, 69u8];
    let args: Seq<Seq<u8>> = seq![reg_b(x), hex2_b(b)];
    assert(ascii(t) =~= line_of(m, args));
    lemma_split_line(m, args);
}

/// The text of `LDByte` reads back as `LDByte`.
proof fn lemma_text_ldbyte(x: u8, b: u8)
    requires
        x < 16,
    ensures
        spec_words_to_opcode(encode_utf8(spec_opcode_asm(OpCode::LDByte(x, b)))) == Some(Ok::<OpCode, AsmError>(OpCode::LDByte(x, b))),
{
    reveal_strlit("LD ");
    assert(ascii("LD "@) =~= seq![76u8, 68u8, 32u8]);
    assert(is_ascii_chars("LD "@));
    reveal_strlit(", ");
    assert(ascii(", "@) =~= seq![44u8, 32u8]);
    assert(is_ascii_chars(", "@));
    lemma_operand_texts(x, 0, 0);
    lemma_reg_token(x);
    lemma_operand_texts(0, b, 0);
    lemma_byte_token(b);
    lemma_ascii_cat("LD "@, reg_text(x));
    lemma_ascii_cat("LD "@ + reg_text(x), ", "@);
    lemma_ascii_cat("LD "@ + reg_text(x) + ", "@, hex2_text(b));
    let t = spec_opcode_asm(OpCode::LDByte(x, b));
    assert(t == "LD "@ + reg_text(x) + ", "@ + hex2_text(b));
    lemma_encode_ascii(t);
    let m = seq![76u8, 68u8];
    let args: Seq<Seq<u8>> = seq![reg_b(x), hex2_b(b)];
    assert(ascii(t) =~= line_of(m, args));
    lemma_split_line(m, args);
}

/// The text of `ADDByte` reads back as `ADDByte`.
proof fn lemma_text_addbyte(x: u8, b: u8)
    requires
        x < 16,
    ensures
        spec_words_to_opcode(encode_utf8(spec_opcode_asm(OpCode::ADDByte(x, b)))) == Some(Ok::<OpCode, AsmError>(OpCode::ADDByte(x, b))),
{
    reveal_strlit("ADD ");
    assert(ascii("ADD "@) =~= seq![65u8, 68u8, 68u8, 32u8]);
    assert(is_ascii_chars("ADD "@));
    reveal_strlit(", ");
    assert(ascii(", "@) =~= seq![44u8, 32u8]);
    assert(is_ascii_chars(", "@));
    lemma_operand_texts(x, 0, 0);
    lemma_reg_token(x);
    lemma_operand_texts(0, b, 0);
    lemma_byte_token(b);
    lemma_ascii_cat("ADD "@, reg_text(x));
    lemma_ascii_cat("ADD "@ + reg_text(x), ", "@);
    lemma_ascii_cat("ADD "@ + reg_text(x) + ", "@, hex2_text(b));
    let t = spec_opcode_asm(OpCode::ADDByte(x, b));
    assert(t == "ADD "@ + reg_text(x) + ", "@ + hex2_text(b));
    lemma_encode_ascii(t);
    let m = seq![65u8, 68u8, 68u8];
    let args: Seq<Seq<u8>> = seq![reg_b(x), hex2_b(b)];
    assert(ascii(t) =~= line_of(m, args));
    lemma_split_line(m, args);
}

/// The text of `RND` reads back as `RND`.
proof fn lemma_text_rnd(x: u8, b: u8)
    requires
        x < 16,
    ensures
        spec_words_to_opcode(encode_utf8(spec_opcode_asm(OpCode::RND(x, b)))) == Some(Ok::<OpCode, AsmError>(OpCode::RND(x, b))),
{
    reveal_strlit("RND ");
    assert(ascii("RND "@) =~= seq![82u8, 78u8, 68u8, 32u8]);
    assert(is_ascii_chars("RND "@));
    reveal_strlit(", ");
    assert(ascii(", "@) =~= seq![44u8, 32u8]);
    assert(is_ascii_chars(", "@));
    lemma_operand_texts(x, 0, 0);
    lemma_reg_token(x);
    lemma_operand_texts(0, b, 0);
    lemma_byte_token(b);
    lemma_ascii_cat("RND "@, reg_text(x));
    lemma_ascii_cat("RND "@ + reg_text(x), ", "@);
    lemma_ascii_cat("RND "@ + reg_text(x) + ", "@, hex2_text(b));
    let t = spec_opcode_asm(OpCode::RND(x, b));
    assert(t == "RND "@ + reg_text(x) + ", "@ + hex2_text(b));
    lemma_encode_ascii(t);
    let m = seq![82u8, 78u8, 68u8];
    let args: Seq<Seq<u8>> = seq![reg_b(x), hex2_b(b)];
    assert(ascii(t) =~= line_of(m, args));
    lemma_split_line(m, args);
}

/// The text of `SE` reads back as `SE`.
proof fn lemma_text_se(x: u8, y: u8)
    requires
        x < 16,
        y < 16,
    ensures
        spec_words_to_opcode(encode_utf8(spec_opcode_asm(OpCode::SE(x, y)))) == Some(Ok::<OpCode, AsmError>(OpCode::SE(x, y))),
{
    reveal_strlit("SE ");
    assert(ascii("SE "@) =~= seq![83u8, 69u8, 32u8]);
    assert(is_ascii_chars("SE "@));
    reveal_strlit(", ");
    assert(ascii(", "@) =~= seq![44u8, 32u8]);
    assert(is_ascii_chars(", "@));
    lemma_operand_texts(x, 0, 0);
    lemma_reg_token(x);
    lemma_operand_texts(y, 0, 0);
    lemma_reg_token(y);
    lemma_ascii_cat("SE "@, reg_text(x));
    lemma_ascii_cat("SE "@ + reg_text(x), ", "@);
    lemma_ascii_cat("SE "@ + reg_text(x) + ", "@, reg_text(y));
    let t = spec_opcode_asm(OpCode::SE(x, y));
    assert(t == "SE "@ + reg_text(x) + ", "@ + reg_text(y));
    lemma_encode_ascii(t);
    let m = seq![83u8, 69u8];
    let args: Seq<Seq<u8>> = seq![reg_b(x), reg_b(y)];
    assert(ascii(t) =~= line_of(m, args));
    lemma_split_line(m, args);
}

/// The text of `LD` reads back as `LD`.
proof fn lemma_text_ld(x: u8, y: u8)
    requires
        x < 16,
        y < 16,
    ensures
        spec_words_to_opcode(encode_utf8(spec_opcode_asm(OpCode::LD(x, y)))) == Some(Ok::<OpCode, AsmError>(OpCode::LD(x, y))),
{
    reveal_strlit("LD ");
    assert(ascii("LD "@) =~= seq![76u8, 68u8, 32u8]);
    assert(is_ascii_chars("LD "@));
    reveal_strlit(", ");
    assert(ascii(", "@) =~= seq![44u8, 32u8]);
    assert(is_ascii_chars(", "@));
    lemma_operand_texts(x, 0, 0);
    lemma_reg_token(x);
    lemma_operand_texts(y, 0, 0);
    lemma_reg_token(y);
    lemma_ascii_cat("LD "@, reg_text(x));
    lemma_ascii_cat("LD "@ + reg_text(x), ", "@);
    lemma_ascii_cat("LD "@ + reg_text(x) + ", "@, reg_text(y));
    let t = spec_opcode_asm(OpCode::LD(x, y));
    assert(t == "LD "@ + reg_text(x) + ", "@ + reg_text(y));
    lemma_encode_ascii(t);
    let m = seq![76u8, 68u8];
    let args: Seq<Seq<u8>> = seq![reg_b(x), reg_b(y)];
    assert(ascii(t) =~= line_of(m, args));
    lemma_split_line(m, args);
}

/// The text of `OR` reads back as `OR`.
proof fn lemma_text_or(x: u8, y: u8)
    requires
        x < 16,
        y < 16,
    ensures
        spec_words_to_opcode(encode_utf8(spec_opcode_asm(OpCode::OR(x, y)))) == Some(Ok::<OpCode, AsmError>(OpCode::OR(x, y))),
{
    reveal_strlit("OR ");
    assert(ascii("OR "@) =~= seq![79u8, 82u8, 32u8]);
    assert(is_ascii_chars("OR "@));
    reveal_strlit(", ");
    assert(ascii(", "@) =~= seq![44u8, 32u8]);
    assert(is_ascii_chars(", "@));
    lemma_operand_texts(x, 0, 0);
    lemma_reg_token(x);
    lemma_operand_texts(y, 0, 0);
    lemma_reg_token(y);
    lemma_ascii_cat("OR "@, reg_text(x));
    lemma_ascii_cat("OR "@ + reg_text(x), ", "@);
    lemma_ascii_cat("OR "@ + reg_text(x) + ", "@, reg_text(y));
    let t = spec_opcode_asm(OpCode::OR(x, y));
    assert(t == "OR "@ + reg_text(x) + ", "@ + reg_text(y));
    lemma_encode_ascii(t);
    let m = seq![79u8, 82u8];
    let args: Seq<Seq<u8>> = seq![reg_b(x), reg_b(y)];
    assert(ascii(t) =~= line_of(m, args));
    lemma_split_line(m, args);
}

/// The text of `AND` reads back as `AND`.
proof fn lemma_text_and(x: u8, y: u8)
    requires
        x < 16,
        y < 16,
    ensures
        spec_words_to_opcode(encode_utf8(spec_opcode_asm(OpCode::AND(x, y)))) == Some(Ok::<OpCode, AsmError>(OpCode::AND(x, y))),
{
    reveal_strlit("AND ");
    assert(ascii("AND "@) =~= seq![65u8, 78u8, 68u8, 32u8]);
    assert(is_ascii_chars("AND "@));
    reveal_strlit(", ");
    assert(ascii(", "@) =~= seq![44u8, 32u8]);
    assert(is_ascii_chars(", "@));
    lemma_operand_texts(x, 0, 0);
    lemma_reg_token(x);
    lemma_operand_texts(y, 0, 0);
    lemma_reg_token(y);
    lemma_ascii_cat("AND "@, reg_text(x));
    lemma_ascii_cat("AND "@ + reg_text(x), ", "@);
    lemma_ascii_cat("AND "@ + reg_text(x) + ", "@, reg_text(y));
    let t = spec_opcode_asm(OpCode::AND(x, y));
    assert(t == "AND "@ + reg_text(x) + ", "@ + reg_text(y));
    lemma_encode_ascii(t);
    let m = seq![65u8, 78u8, 68u8];
    let args: Seq<Seq<u8>> = seq![reg_b(x), reg_b(y)];
    assert(ascii(t) =~= line_of(m, args));
    lemma_split_line(m, args);
}

/// The text of `XOR` reads back as `XOR`.
proof fn lemma_text_xor(x: u8, y: u8)
    requires
        x < 16,
        y < 16,
    ensures
        spec_words_to_opcode(encode_utf8(spec_opcode_asm(OpCode::XOR(x, y)))) == Some(Ok::<OpCode, AsmError>(OpCode::XOR(x, y))),
{
    reveal_strlit("XOR ");
    assert(ascii("XOR "@) =~= seq![88u8, 79u8, 82u8, 32u8]);
    assert(is_ascii_chars("XOR "@));
    reveal_strlit(", ");
    assert(ascii(", "@) =~= seq![44u8, 32u8]);
    assert(is_ascii_chars(", "@));
    lemma_operand_texts(x, 0, 0);
    lemma_reg_token(x);
    lemma_operand_texts(y, 0, 0);
    lemma_reg_token(y);
    lemma_ascii_cat("XOR "@, reg_text(x));
    lemma_ascii_cat("XOR "@ + reg_text(x), ", "@);
    lemma_ascii_cat("XOR "@ + reg_text(x) + ", "@, reg_text(y));
    let t = spec_opcode_asm(OpCode::XOR(x, y));
    assert(t == "XOR "@ + reg_text(x) + ", "@ + reg_text(y));
    lemma_encode_ascii(t);
    let m = seq![88u8, 79u8, 82u8];
    let args: Seq<Seq<u8>> = seq![reg_b(x), reg_b(y)];
    assert(ascii(t) =~= line_of(m, args));
    lemma_split_line(m, args);
}

/// The text of `ADD` reads back as `ADD`.
proof fn lemma_text_add(x: u8, y: u8)
    requires
        x < 16,
        y < 16,
    ensures
        spec_words_to_opcode(encode_utf8(spec_opcode_asm(OpCode::ADD(x, y)))) == Some(Ok::<OpCode, AsmError>(OpCode::ADD(x, y))),
{
    reveal_strlit("ADD ");
    assert(ascii("ADD "@) =~= seq![65u8, 68u8, 68u8, 32u8]);
    assert(is_ascii_chars("ADD "@));
    reveal_strlit(", ");
    assert(ascii(", "@) =~= seq![44u8, 32u8]);
    assert(is_ascii_chars(", "@));
    lemma_operand_texts(x, 0, 0);
    lemma_reg_token(x);
    lemma_operand_texts(y, 0, 0);
    lemma_reg_token(y);
    lemma_ascii_cat("ADD "@, reg_text(x));
    lemma_ascii_cat("ADD "@ + reg_text(x), ", "@);
    lemma_ascii_cat("ADD "@ + reg_text(x) + ", "@, reg_text(y));
    let t = spec_opcode_asm(OpCode::ADD(x, y));
    assert(t == "ADD "@ + reg_text(x) + ", "@ + reg_text(y));
    lemma_encode_ascii(t);
    let m = seq![65u8, 68u8, 68u8];
    let args: Seq<Seq<u8>> = seq![reg_b(x), reg_b(y)];
    assert(ascii(t) =~= line_of(m, args));
    lemma_split_line(m, args);
}

/// The text of `SUB` reads back as `SUB`.
proof fn lemma_text_sub(x: u8, y: u8)
    requires
        x < 16,
        y < 16,
    ensures
        spec_words_to_opcode(encode_utf8(spec_opcode_asm(OpCode::SUB(x, y)))) == Some(Ok::<OpCode, AsmError>(OpCode::SUB(x, y))),
{
    reveal_strlit("SUB ");
    assert(ascii("SUB "@) =~= seq![83u8, 85u8, 66u8, 32u8]);
    assert(is_ascii_chars("SUB "@));
    reveal_strlit(", ");
    assert(ascii(", "@) =~= seq![44u8, 32u8]);
    assert(is_ascii_chars(", "@));
    lemma_operand_texts(x, 0, 0);
    lemma_reg_token(x);
    lemma_operand_texts(y, 0, 0);
    lemma_reg_token(y);
    lemma_ascii_cat("SUB "@, reg_text(x));
    lemma_ascii_cat("SUB "@ + reg_text(x), ", "@);
    lemma_ascii_cat("SUB "@ + reg_text(x) + ", "@, reg_text(y));
    let t = spec_opcode_asm(OpCode::SUB(x, y));
    assert(t == "SUB "@ + reg_text(x) + ", "@ + reg_text(y));
    lemma_encode_ascii(t);
    let m = seq![83u8, 85u8, 66u8];
    let args: Seq<Seq<u8>> = seq![reg_b(x), reg_b(y)];
    assert(ascii(t) =~= line_of(m, args));
    lemma_split_line(m, args);
}

/// The text of `SUBN` reads back as `SUBN`.
proof fn lemma_text_subn(x: u8, y: u8)
    requires
        x < 16,
        y < 16,
    ensures
        spec_words_to_opcode(encode_utf8(spec_opcode_asm(OpCode::SUBN(x, y)))) == Some(Ok::<OpCode, AsmError>(OpCode::SUBN(x, y))),
{
    reveal_strlit("SUBN ");
    assert(ascii("SUBN "@) =~= seq![83u8, 85u8, 66u8, 78u8, 32u8]);
    assert(is_ascii_chars("SUBN "@));
    reveal_strlit(", ");
    assert(ascii(", "@) =~= seq![44u8, 32u8]);
    assert(is_ascii_chars(", "@));
    lemma_operand_texts(x, 0, 0);
    lemma_reg_token(x);
    lemma_operand_texts(y, 0, 0);
    lemma_reg_token(y);
    lemma_ascii_cat("SUBN "@, reg_text(x));
    lemma_ascii_cat("SUBN "@ + reg_text(x), ", "@);
    lemma_ascii_cat("SUBN "@ + reg_text(x) + ", "@, reg_text(y));
    let t = spec_opcode_asm(OpCode::SUBN(x, y));
    assert(t == "SUBN "@ + reg_text(x) + ", "@ + reg_text(y));
    lemma_encode_ascii(t);
    let m = seq![83u8, 85u8, 66u8, 78u8];
    let args: Seq<Seq<u8>> = seq![reg_b(x), reg_b(y)];
    assert(ascii(t) =~= line_of(m, args));
    lemma_split_line(m, args);
}

/// The text of `SNE` reads back as `SNE`.
proof fn lemma_text_sne(x: u8, y: u8)
    requires
        x < 16,
        y < 16,
    ensures
        spec_words_to_opcode(encode_utf8(spec_opcode_asm(OpCode::SNE(x, y)))) == Some(Ok::<OpCode, AsmError>(OpCode::SNE(x, y))),
{
    reveal_strlit("SNE ");
    assert(ascii("SNE "@) =~= seq![83u8, 78u8, 69u8, 32u8]);
    assert(is_ascii_chars("SNE "@));
    reveal_strlit(", ");
    assert(ascii(", "@) =~= seq![44u8, 32u8]);
    assert(is_ascii_chars(", "@));
    lemma_operand_texts(x, 0, 0);
    lemma_reg_token(x);
    lemma_operand_texts(y, 0, 0);
    lemma_reg_token(y);
    lemma_ascii_cat("SNE "@, reg_text(x));
    lemma_ascii_cat("SNE "@ + reg_text(x), ", "@);
    lemma_ascii_cat("SNE "@ + reg_text(x) + ", "@, reg_text(y));
    let t = spec_opcode_asm(OpCode::SNE(x, y));
    assert(t == "SNE "@ + reg_text(x) + ", "@ + reg_text(y));
    lemma_encode_ascii(t);
    let m = seq![83u8, 78u8, 69u8];
    let args: Seq<Seq<u8>> = seq![reg_b(x), reg_b(y)];
    assert(ascii(t) =~= line_of(m, args));
    lemma_split_line(m, args);
}

/// The text of `DRWX` reads back as `DRWX`.
proof fn lemma_text_drwx(x: u8, y: u8)
    requires
        x < 16,
        y < 16,
    ensures
        spec_words_to_opcode(encode_utf8(spec_opcode_asm(OpCode::DRWX(x, y)))) == Some(Ok::<OpCode, AsmError>(OpCode::DRWX(x, y))),
{
    reveal_strlit("DRWX ");
    assert(ascii("DRWX "@) =~= seq![68u8, 82u8, 87u8, 88u8, 32u8]);
    assert(is_ascii_chars("DRWX "@));
    reveal_strlit(", ");
    assert(ascii(", "@) =~= seq![44u8, 32u8]);
    assert(is_ascii_chars(", "@));
    lemma_operand_texts(x, 0, 0);
    lemma_reg_token(x);
    lemma_operand_texts(y, 0, 0);
    lemma_reg_token(y);
    lemma_ascii_cat("DRWX "@, reg_text(x));
    lemma_ascii_cat("DRWX "@ + reg_text(x), ", "@);
    lemma_ascii_cat("DRWX "@ + reg_text(x) + ", "@, reg_text(y));
    let t = spec_opcode_asm(OpCode::DRWX(x, y));
    assert(t == "DRWX "@ + reg_text(x) + ", "@ + reg_text(y));
    lemma_encode_ascii(t);
    let m = seq![68u8, 82u8, 87u8, 88u8];
    let args: Seq<Seq<u8>> = seq![reg_b(x), reg_b(y)];
    assert(ascii(t) =~= line_of(m, args));
    lemma_split_line(m, args);
}

/// The text of `SHR` reads back as `SHR`.
proof fn lemma_text_shr(x: u8, y: u8)
    requires
        x < 16,
        y == 0,
    ensures
        spec_words_to_opcode(encode_utf8(spec_opcode_asm(OpCode::SHR(x, y)))) == Some(Ok::<OpCode, AsmError>(OpCode::SHR(x, y))),
{
    reveal_strlit("SHR ");
    assert(ascii("SHR "@) =~= seq![83u8, 72u8, 82u8, 32u8]);
    assert(is_ascii_chars("SHR "@));
    lemma_operand_texts(x, 0, 0);
    lemma_reg_token(x);
    lemma_ascii_cat("SHR "@, reg_text(x));
    let t = spec_opcode_asm(OpCode::SHR(x, y));
    assert(t == "SHR "@ + reg_text(x));
    lemma_encode_ascii(t);
    let m = seq![83u8, 72u8, 82u8];
    let args: Seq<Seq<u8>> = seq![reg_b(x)];
    assert(ascii(t) =~= line_of(m, args));
    lemma_split_line(m, args);
}

/// The text of `SHL` reads back as `SHL`.
proof fn lemma_text_shl(x: u8, y: u8)
    requires
        x < 16,
        y == 0,
    ensures
        spec_words_to_opcode(encode_utf8(spec_opcode_asm(OpCode::SHL(x, y)))) == Some(Ok::<OpCode, AsmError>(OpCode::SHL(x, y))),
{
    reveal_strlit("SHL ");
    assert(ascii("SHL "@) =~= seq![83u8, 72u8, 76u8, 32u8]);
    assert(is_ascii_chars("SHL "@));
    lemma_operand_texts(x, 0, 0);
    lemma_reg_token(x);
    lemma_ascii_cat("SHL "@, reg_text(x));
    let t = spec_opcode_asm(OpCode::SHL(x, y));
    assert(t == "SHL "@ + reg_text(x));
    lemma_encode_ascii(t);
    let m = seq![83u8, 72u8, 76u8];
    let args: Seq<Seq<u8>> = seq![reg_b(x)];
    assert(ascii(t) =~= line_of(m, args));
    lemma_split_line(m, args);
}

/// The text of `LDI` reads back as `LDI`.
proof fn lemma_text_ldi(a: u16)
    ensures
        spec_words_to_opcode(encode_utf8(spec_opcode_asm(OpCode::LDI(a)))) == Some(Ok::<OpCode, AsmError>(OpCode::LDI(a))),
{
    reveal_strlit("LD I, ");
    assert(ascii("LD I, "@) =~= seq![76u8, 68u8, 32u8, 73u8, 44u8, 32u8]);
    assert(is_ascii_chars("LD I, "@));
    lemma_operand_texts(0, 0, a);
    lemma_addr_token(a);
    lemma_ascii_cat("LD I, "@, hex4_text(a));
    let t = spec_opcode_asm(OpCode::LDI(a));
    assert(t == "LD I, "@ + hex4_text(a));
    lemma_encode_ascii(t);
    let m = seq![76u8, 68u8];
    let args: Seq<Seq<u8>> = seq![seq![73u8], hex4_b(a)];
    assert(plain_arg(args[0]));
    assert(ascii(t) =~= line_of(m, args));
    lemma_split_line(m, args);
}

/// The text of `JP0` reads back as `JP0`.
proof fn lemma_text_jp0(a: u16)
    ensures
        spec_words_to_opcode(encode_utf8(spec_opcode_asm(OpCode::JP0(a)))) == Some(Ok::<OpCode, AsmError>(OpCode::JP0(a))),
{
    reveal_strlit("JP V0, ");
    assert(ascii("JP V0, "@) =~= seq![74u8, 80u8, 32u8, 86u8, 48u8, 44u8, 32u8]);
    assert(is_ascii_chars("JP V0, "@));
    lemma_operand_texts(0u8, 0, 0);
    lemma_reg_token(0u8);
    lemma_operand_texts(0, 0, a);
    lemma_addr_token(a);
    lemma_ascii_cat("JP V0, "@, hex4_text(a));
    let t = spec_opcode_asm(OpCode::JP0(a));
    assert(t == "JP V0, "@ + hex4_text(a));
    lemma_encode_ascii(t);
    let m = seq![74u8, 80u8];
    let args: Seq<Seq<u8>> = seq![reg_b(0u8), hex4_b(a)];
    assert(ascii(t) =~= line_of(m, args));
    lemma_split_line(m, args);
}

/// The text of `DRW` reads back as `DRW`.
proof fn lemma_text_drw(x: u8, y: u8, n: u8)
    requires
        x < 16,
        y < 16,
    ensures
        spec_words_to_opcode(encode_utf8(spec_opcode_asm(OpCode::DRW(x, y, n)))) == Some(Ok::<OpCode, AsmError>(OpCode::DRW(x, y, n))),
{
    reveal_strlit("DRW ");
    assert(ascii("DRW "@) =~= seq![68u8, 82u8, 87u8, 32u8]);
    assert(is_ascii_chars("DRW "@));
    reveal_strlit(", ");
    assert(ascii(", "@) =~= seq![44u8, 32u8]);
    assert(is_ascii_chars(", "@));
    reveal_strlit(", ");
    assert(ascii(", "@) =~= seq![44u8, 32u8]);
    assert(is_ascii_chars(", "@));
    lemma_operand_texts(x, 0, 0);
    lemma_reg_token(x);
    lemma_operand_texts(y, 0, 0);
    lemma_reg_token(y);
    lemma_operand_texts(0, n, 0);
    lemma_byte_token(n);
    lemma_ascii_cat("DRW "@, reg_text(x));
    lemma_ascii_cat("DRW "@ + reg_text(x), ", "@);
    lemma_ascii_cat("DRW "@ + reg_text(x) + ", "@, reg_text(y));
    lemma_ascii_cat("DRW "@ + reg_text(x) + ", "@ + reg_text(y), ", "@);
    lemma_ascii_cat("DRW "@ + reg_text(x) + ", "@ + reg_text(y) + ", "@, hex2_text(n));
    let t = spec_opcode_asm(OpCode::DRW(x, y, n));
    assert(t == "DRW "@ + reg_text(x) + ", "@ + reg_text(y) + ", "@ + hex2_text(n));
    lemma_encode_ascii(t);
    let m = seq![68u8, 82u8, 87u8];
    let args: Seq<Seq<u8>> = seq![reg_b(x), reg_b(y), hex2_b(n)];
    assert(ascii(t) =~= line_of(m, args));
    lemma_split_line(m, args);
}

/// The text of `SKP` reads back as `SKP`.
proof fn lemma_text_skp(x: u8)
    requires
        x < 16,
    ensures
        spec_words_to_opcode(encode_utf8(spec_opcode_asm(OpCode::SKP(x)))) == Some(Ok::<OpCode, AsmError>(OpCode::SKP(x))),
{
    reveal_strlit("SKP ");
    assert(ascii("SKP "@) =~= seq![83u8, 75u8, 80u8, 32u8]);
    assert(is_ascii_chars("SKP "@));
    lemma_operand_texts(x, 0, 0);
    lemma_reg_token(x);
    lemma_ascii_cat("SKP "@, reg_text(x));
    let t = spec_opcode_asm(OpCode::SKP(x));
    assert(t == "SKP "@ + reg_text(x));
    lemma_encode_ascii(t);
    let m = seq![83u8, 75u8, 80u8];
    let args: Seq<Seq<u8>> = seq![reg_b(x)];
    assert(ascii(t) =~= line_of(m, args));
    lemma_split_line(m, args);
}

/// The text of `SKNP` reads back as `SKNP`.
proof fn lemma_text_sknp(x: u8)
    requires
        x < 16,
    ensures
        spec_words_to_opcode(encode_utf8(spec_opcode_asm(OpCode::SKNP(x)))) == Some(Ok::<OpCode, AsmError>(OpCode::SKNP(x))),
{
    reveal_strlit("SKNP ");
    assert(ascii("SKNP "@) =~= seq![83u8, 75u8, 78u8, 80u8, 32u8]);
    assert(is_ascii_chars("SKNP "@));
    lemma_operand_texts(x, 0, 0);
    lemma_reg_token(x);
    lemma_ascii_cat("SKNP "@, reg_text(x));
    let t = spec_opcode_asm(OpCode::SKNP(x));
    assert(t == "SKNP "@ + reg_text(x));
    lemma_encode_ascii(t);
    let m = seq![83u8, 75u8, 78u8, 80u8];
    let args: Seq<Seq<u8>> = seq![reg_b(x)];
    assert(ascii(t) =~= line_of(m, args));
    lemma_split_line(m, args);
}

/// The text of `LDGetDelayTimer` reads back as `LDGetDelayTimer`.
proof fn lemma_text_ldgetdelaytimer(x: u8)
    requires
        x < 16,
    ensures
        spec_words_to_opcode(encode_utf8(spec_opcode_asm(OpCode::LDGetDelayTimer(x)))) == Some(Ok::<OpCode, AsmError>(OpCode::LDGetDelayTimer(x))),
{
    reveal_strlit("LD ");
    assert(ascii("LD "@) =~= seq![76u8, 68u8, 32u8]);
    assert(is_ascii_chars("LD "@));
    reveal_strlit(", DT");
    assert(ascii(", DT"@) =~= seq![44u8, 32u8, 68u8, 84u8]);
    assert(is_ascii_chars(", DT"@));
    lemma_operand_texts(x, 0, 0);
    lemma_reg_token(x);
    lemma_ascii_cat("LD "@, reg_text(x));
    lemma_ascii_cat("LD "@ + reg_text(x), ", DT"@);
    let t = spec_opcode_asm(OpCode::LDGetDelayTimer(x));
    assert(t == "LD "@ + reg_text(x) + ", DT"@);
    lemma_encode_ascii(t);
    let m = seq![76u8, 68u8];
    let args: Seq<Seq<u8>> = seq![reg_b(x), seq![68u8, 84u8]];
    assert(plain_arg(args[1]));
    assert(ascii(t) =~= line_of(m, args));
    lemma_split_line(m, args);
}

/// The text of `LDGetKey` reads back as `LDGetKey`.
proof fn lemma_text_ldgetkey(x: u8)
    requires
        x < 16,
    ensures
        spec_words_to_opcode(encode_utf8(spec_opcode_asm(OpCode::LDGetKey(x)))) == Some(Ok::<OpCode, AsmError>(OpCode::LDGetKey(x))),
{
    reveal_strlit("LD ");
    assert(ascii("LD "@) =~= seq![76u8, 68u8, 32u8]);
    assert(is_ascii_chars("LD "@));
    reveal_strlit(", K");
    assert(ascii(", K"@) =~= seq![44u8, 32u8, 75u8]);
    assert(is_ascii_chars(", K"@));
    lemma_operand_texts(x, 0, 0);
    lemma_reg_token(x);
    lemma_ascii_cat("LD "@, reg_text(x));
    lemma_ascii_cat("LD "@ + reg_text(x), ", K"@);
    let t = spec_opcode_asm(OpCode::LDGetKey(x));
    assert(t == "LD "@ + reg_text(x) + ", K"@);
    lemma_encode_ascii(t);
    let m = seq![76u8, 68u8];
    let args: Seq<Seq<u8>> = seq![reg_b(x), seq![75u8]];
    assert(plain_arg(args[1]));
    assert(ascii(t) =~= line_of(m, args));
    lemma_split_line(m, args);
}

/// The text of `LDSetDelayTimer` reads back as `LDSetDelayTimer`.
proof fn lemma_text_ldsetdelaytimer(x: u8)
    requires
        x < 16,
    ensures
        spec_words_to_opcode(encode_utf8(spec_opcode_asm(OpCode::LDSetDelayTimer(x)))) == Some(Ok::<OpCode, AsmError>(OpCode::LDSetDelayTimer(x))),
{
    reveal_strlit("LD DT, ");
    assert(ascii("LD DT, "@) =~= seq![76u8, 68u8, 32u8, 68u8, 84u8, 44u8, 32u8]);
    assert(is_ascii_chars("LD DT, "@));
    lemma_operand_texts(x, 0, 0);
    lemma_reg_token(x);
    lemma_ascii_cat("LD DT, "@, reg_text(x));
    let t = spec_opcode_asm(OpCode::LDSetDelayTimer(x));
    assert(t == "LD DT, "@ + reg_text(x));
    lemma_encode_ascii(t);
    let m = seq![76u8, 68u8];
    let args: Seq<Seq<u8>> = seq![seq![68u8, 84u8], reg_b(x)];
    assert(plain_arg(args[0]));
    assert(ascii(t) =~= line_of(m, args));
    lemma_split_line(m, args);
}

/// The text of `LDSetSoundTimer` reads back as `LDSetSoundTimer`.
proof fn lemma_text_ldsetsoundtimer(x: u8)
    requires
        x < 16,
    ensures
        spec_words_to_opcode(encode_utf8(spec_opcode_asm(OpCode::LDSetSoundTimer(x)))) == Some(Ok::<OpCode, AsmError>(OpCode::LDSetSoundTimer(x))),
{
    reveal_strlit("LD ST, ");
    assert(ascii("LD ST, "@) =~= seq![76u8, 68u8, 32u8, 83u8, 84u8, 44u8, 32u8]);
    assert(is_ascii_chars("LD ST, "@));
    lemma_operand_texts(x, 0, 0);
    lemma_reg_token(x);
    lemma_ascii_cat("LD ST, "@, reg_text(x));
    let t = spec_opcode_asm(OpCode::LDSetSoundTimer(x));
    assert(t == "LD ST, "@ + reg_text(x));
    lemma_encode_ascii(t);
    let m = seq![76u8, 68u8];
    let args: Seq<Seq<u8>> = seq![seq![83u8, 84u8], reg_b(x)];
    assert(plain_arg(args[0]));
    assert(ascii(t) =~= line_of(m, args));
    lemma_split_line(m, args);
}

/// The text of `ADDI` reads back as `ADDI`.
proof fn lemma_text_addi(x: u8)
    requires
        x < 16,
    ensures
        spec_words_to_opcode(encode_utf8(spec_opcode_asm(OpCode::ADDI(x)))) == Some(Ok::<OpCode, AsmError>(OpCode::ADDI(x))),
{
    reveal_strlit("ADD I, ");
    assert(ascii("ADD I, "@) =~= seq![65u8, 68u8, 68u8, 32u8, 73u8, 44u8, 32u8]);
    assert(is_ascii_chars("ADD I, "@));
    lemma_operand_texts(x, 0, 0);
    lemma_reg_token(x);
    lemma_ascii_cat("ADD I, "@, reg_text(x));
    let t = spec_opcode_asm(OpCode::ADDI(x));
    assert(t == "ADD I, "@ + reg_text(x));
    lemma_encode_ascii(t);
    let m = seq![65u8, 68u8, 68u8];
    let args: Seq<Seq<u8>> = seq![seq![73u8], reg_b(x)];
    assert(plain_arg(args[0]));
    assert(ascii(t) =~= line_of(m, args));
    lemma_split_line(m, args);
}

/// The text of `LDSprite` reads back as `LDSprite`.
proof fn lemma_text_ldsprite(x: u8)
    requires
        x < 16,
    ensures
        spec_words_to_opcode(encode_utf8(spec_opcode_asm(OpCode::LDSprite(x)))) == Some(Ok::<OpCode, AsmError>(OpCode::LDSprite(x))),
{
    reveal_strlit("LD F, ");
    assert(ascii("LD F, "@) =~= seq![76u8, 68u8, 32u8, 70u8, 44u8, 32u8]);
    assert(is_ascii_chars("LD F, "@));
    lemma_operand_texts(x, 0, 0);
    lemma_reg_token(x);
    lemma_ascii_cat("LD F, "@, reg_text(x));
    let t = spec_opcode_asm(OpCode::LDSprite(x));
    assert(t == "LD F, "@ + reg_text(x));
    lemma_encode_ascii(t);
    let m = seq![76u8, 68u8];
    let args: Seq<Seq<u8>> = seq![seq![70u8], reg_b(x)];
    assert(plain_arg(args[0]));
    assert(ascii(t) =~= line_of(m, args));
    lemma_split_line(m, args);
}

/// The text of `LDBCD` reads back as `LDBCD`.
proof fn lemma_text_ldbcd(x: u8)
    requires
        x < 16,
    ensures
        spec_words_to_opcode(encode_utf8(spec_opcode_asm(OpCode::LDBCD(x)))) == Some(Ok::<OpCode, AsmError>(OpCode::LDBCD(x))),
{
    reveal_strlit("LD B, ");
    assert(ascii("LD B, "@) =~= seq![76u8, 68u8, 32u8, 66u8, 44u8, 32u8]);
    assert(is_ascii_chars("LD B, "@));
    lemma_operand_texts(x, 0, 0);
    lemma_reg_token(x);
    lemma_ascii_cat("LD B, "@, reg_text(x));
    let t = spec_opcode_asm(OpCode::LDBCD(x));
    assert(t == "LD B, "@ + reg_text(x));
    lemma_encode_ascii(t);
    let m = seq![76u8, 68u8];
    let args: Seq<Seq<u8>> = seq![seq![66u8], reg_b(x)];
    assert(plain_arg(args[0]));
    assert(ascii(t) =~= line_of(m, args));
    lemma_split_line(m, args);
}

/// The text of `LDS` reads back as `LDS`.
proof fn lemma_text_lds(x: u8)
    requires
        x < 16,
    ensures
        spec_words_to_opcode(encode_utf8(spec_opcode_asm(OpCode::LDS(x)))) == Some(Ok::<OpCode, AsmError>(OpCode::LDS(x))),
{
    reveal_strlit("LD [I], ");
    assert(ascii("LD [I], "@) =~= seq![76u8, 68u8, 32u8, 91u8, 73u8, 93u8, 44u8, 32u8]);
    assert(is_ascii_chars("LD [I], "@));
    lemma_operand_texts(x, 0, 0);
    lemma_reg_token(x);
    lemma_ascii_cat("LD [I], "@, reg_text(x));
    let t = spec_opcode_asm(OpCode::LDS(x));
    assert(t == "LD [I], "@ + reg_text(x));
    lemma_encode_ascii(t);
    let m = seq![76u8, 68u8];
    let args: Seq<Seq<u8>> = seq![seq![91u8, 73u8, 93u8], reg_b(x)];
    assert(plain_arg(args[0]));
    assert(ascii(t) =~= line_of(m, args));
    lemma_split_line(m, args);
}

/// The text of `LDR` reads back as `LDR`.
proof fn lemma_text_ldr(x: u8)
    requires
        x < 16,
    ensures
        spec_words_to_opcode(encode_utf8(spec_opcode_asm(OpCode::LDR(x)))) == Some(Ok::<OpCode, AsmError>(OpCode::LDR(x))),
{
    reveal_strlit("LD ");
    assert(ascii("LD "@) =~= seq![76u8, 68u8, 32u8]);
    assert(is_ascii_chars("LD "@));
    reveal_strlit(", [I]");
    assert(ascii(", [I]"@) =~= seq![44u8, 32u8, 91u8, 73u8, 93u8]);
    assert(is_ascii_chars(", [I]"@));
    lemma_operand_texts(x, 0, 0);
    lemma_reg_token(x);
    lemma_ascii_cat("LD "@, reg_text(x));
    lemma_ascii_cat("LD "@ + reg_text(x), ", [I]"@);
    let t = spec_opcode_asm(OpCode::LDR(x));
    assert(t == "LD "@ + reg_text(x) + ", [I]"@);
    lemma_encode_ascii(t);
    let m = seq![76u8, 68u8];
    let args: Seq<Seq<u8>> = seq![reg_b(x), seq![91u8, 73u8, 93u8]];
    assert(plain_arg(args[1]));
    assert(ascii(t) =~= line_of(m, args));
    lemma_split_line(m, args);
}

/// The text of `SCRD` reads back as `SCRD`.
proof fn lemma_text_scrd(n: u8)
    ensures
        spec_words_to_opcode(encode_utf8(spec_opcode_asm(OpCode::SCRD(n)))) == Some(Ok::<OpCode, AsmError>(OpCode::SCRD(n))),
{
    reveal_strlit("SCRD ");
    assert(ascii("SCRD "@) =~= seq![83u8, 67u8, 82u8, 68u8, 32u8]);
    assert(is_ascii_chars("SCRD "@));
    lemma_operand_texts(0, n, 0);
    lemma_byte_token(n);
    lemma_ascii_cat("SCRD "@, hex2_text(n));
    let t = spec_opcode_asm(OpCode::SCRD(n));
    assert(t == "SCRD "@ + hex2_text(n));
    lemma_encode_ascii(t);
    let m = seq![83u8, 67u8, 82u8, 68u8];
    let args: Seq<Seq<u8>> = seq![hex2_b(n)];
    assert(ascii(t) =~= line_of(m, args));
    lemma_split_line(m, args);
}

/// The text of `SCRR` reads back as `SCRR`.
proof fn lemma_text_scrr()
    ensures
        spec_words_to_opcode(encode_utf8(spec_opcode_asm(OpCode::SCRR))) == Some(Ok::<OpCode, AsmError>(OpCode::SCRR)),
{
    reveal_strlit("SCRR");
    assert(ascii("SCRR"@) =~= seq![83u8, 67u8, 82u8, 82u8]);
    assert(is_ascii_chars("SCRR"@));
    let t = spec_opcode_asm(OpCode::SCRR);
    assert(t == "SCRR"@);
    lemma_encode_ascii(t);
    let m = seq![83u8, 67u8, 82u8, 82u8];
    let args: Seq<Seq<u8>> = Seq::<Seq<u8>>::empty();
    assert(ascii(t) =~= line_of(m, args));
    lemma_split_line(m, args);
}

/// The text of `SCRL` reads back as `SCRL`.
proof fn lemma_text_scrl()
    ensures
        spec_words_to_opcode(encode_utf8(spec_opcode_asm(OpCode::SCRL))) == Some(Ok::<OpCode, AsmError>(OpCode::SCRL)),
{
    reveal_strlit("SCRL");
    assert(ascii("SCRL"@) =~= seq![83u8, 67u8, 82u8, 76u8]);
    assert(is_ascii_chars("SCRL"@));
    let t = spec_opcode_asm(OpCode::SCRL);
    assert(t == "SCRL"@);
    lemma_encode_ascii(t);
    let m = seq![83u8, 67u8, 82u8, 76u8];
    let args: Seq<Seq<u8>> = Seq::<Seq<u8>>::empty();
    assert(ascii(t) =~= line_of(m, args));
    lemma_split_line(m, args);
}

/// The text of `EXIT` reads back as `EXIT`.
proof fn lemma_text_exit()
    ensures
        spec_words_to_opcode(encode_utf8(spec_opcode_asm(OpCode::EXIT))) == Some(Ok::<OpCode, AsmError>(OpCode::EXIT)),
{
    reveal_strlit("EXIT");
    assert(ascii("EXIT"@) =~= seq![69u8, 88u8, 73u8, 84u8]);
    assert(is_ascii_chars("EXIT"@));
    let t = spec_opcode_asm(OpCode::EXIT);
    assert(t == "EXIT"@);
    lemma_encode_ascii(t);
    let m = seq![69u8, 88u8, 73u8, 84u8];
    let args: Seq<Seq<u8>> = Seq::<Seq<u8>>::empty();
    assert(ascii(t) =~= line_of(m, args));
    lemma_split_line(m, args);
}

/// The text of `LOW` reads back as `LOW`.
proof fn lemma_text_low()
    ensures
        spec_words_to_opcode(encode_utf8(spec_opcode_asm(OpCode::LOW))) == Some(Ok::<OpCode, AsmError>(OpCode::LOW)),
{
    reveal_strlit("LOW");
    assert(ascii("LOW"@) =~= seq![76u8, 79u8, 87u8]);
    assert(is_ascii_chars("LOW"@));
    let t = spec_opcode_asm(OpCode::LOW);
    assert(t == "LOW"@);
    lemma_encode_ascii(t);
    let m = seq![76u8, 79u8, 87u8];
    let args: Seq<Seq<u8>> = Seq::<Seq<u8>>::empty();
    assert(ascii(t) =~= line_of(m, args));
    lemma_split_line(m, args);
}

/// The text of `HIGH` reads back as `HIGH`.
proof fn lemma_text_high()
    ensures
        spec_words_to_opcode(encode_utf8(spec_opcode_asm(OpCode::HIGH))) == Some(Ok::<OpCode, AsmError>(OpCode::HIGH)),
{
    reveal_strlit("HIGH");
    assert(ascii("HIGH"@) =~= seq![72u8, 73u8, 71u8, 72u8]);
    assert(is_ascii_chars("HIGH"@));
    let t = spec_opcode_asm(OpCode::HIGH);
    assert(t == "HIGH"@);
    lemma_encode_ascii(t);
    let m = seq![72u8, 73u8, 71u8, 72u8];
    let args: Seq<Seq<u8>> = Seq::<Seq<u8>>::empty();
    assert(ascii(t) =~= line_of(m, args));
    lemma_split_line(m, args);
}

/// The text of `LDXSprite` reads back as `LDXSprite`.
proof fn lemma_text_ldxsprite(x: u8)
    requires
        x < 16,
    ensures
        spec_words_to_opcode(encode_utf8(spec_opcode_asm(OpCode::LDXSprite(x)))) == Some(Ok::<OpCode, AsmError>(OpCode::LDXSprite(x))),
{
    reveal_strlit("LDX F, ");
    assert(ascii("LDX F, "@) =~= seq![76u8, 68u8, 88u8, 32u8, 70u8, 44u8, 32u8]);
    assert(is_ascii_chars("LDX F, "@));
    lemma_operand_texts(x, 0, 0);
    lemma_reg_token(x);
    lemma_ascii_cat("LDX F, "@, reg_text(x));
    let t = spec_opcode_asm(OpCode::LDXSprite(x));
    assert(t == "LDX F, "@ + reg_text(x));
    lemma_encode_ascii(t);
    let m = seq![76u8, 68u8, 88u8];
    let args: Seq<Seq<u8>> = seq![seq![70u8], reg_b(x)];
    assert(plain_arg(args[0]));
    assert(ascii(t) =~= line_of(m, args));
    lemma_split_line(m, args);
}

/// The text of `LDXS` reads back as `LDXS`.
proof fn lemma_text_ldxs(x: u8)
    requires
        x < 16,
    ensures
        spec_words_to_opcode(encode_utf8(spec_opcode_asm(OpCode::LDXS(x)))) == Some(Ok::<OpCode, AsmError>(OpCode::LDXS(x))),
{
    reveal_strlit("LDX [I], ");
    assert(ascii("LDX [I], "@) =~= seq![76u8, 68u8, 88u8, 32u8, 91u8, 73u8, 93u8, 44u8, 32u8]);
    assert(is_ascii_chars("LDX [I], "@));
    lemma_operand_texts(x, 0, 0);
    lemma_reg_token(x);
    lemma_ascii_cat("LDX [I], "@, reg_text(x));
    let t = spec_opcode_asm(OpCode::LDXS(x));
    assert(t == "LDX [I], "@ + reg_text(x));
    lemma_encode_ascii(t);
    let m = seq![76u8, 68u8, 88u8];
    let args: Seq<Seq<u8>> = seq![seq![91u8, 73u8, 93u8], reg_b(x)];
    assert(plain_arg(args[0]));
    assert(ascii(t) =~= line_of(m, args));
    lemma_split_line(m, args);
}

/// The text of `LDXR` reads back as `LDXR`.
proof fn lemma_text_ldxr(x: u8)
    requires
        x < 16,
    ensures
        spec_words_to_opcode(encode_utf8(spec_opcode_asm(OpCode::LDXR(x)))) == Some(Ok::<OpCode, AsmError>(OpCode::LDXR(x))),
{
    reveal_strlit("LDX ");
    assert(ascii("LDX "@) =~= seq![76u8, 68u8, 88u8, 32u8]);
    assert(is_ascii_chars("LDX "@));
    reveal_strlit(", [I]");
    assert(ascii(", [I]"@) =~= seq![44u8, 32u8, 91u8, 73u8, 93u8]);
    assert(is_ascii_chars(", [I]"@));
    lemma_operand_texts(x, 0, 0);
    lemma_reg_token(x);
    lemma_ascii_cat("LDX "@, reg_text(x));
    lemma_ascii_cat("LDX "@ + reg_text(x), ", [I]"@);
    let t = spec_opcode_asm(OpCode::LDXR(x));
    assert(t == "LDX "@ + reg_text(x) + ", [I]"@);
    lemma_encode_ascii(t);
    let m = seq![76u8, 68u8, 88u8];
    let args: Seq<Seq<u8>> = seq![reg_b(x), seq![91u8, 73u8, 93u8]];
    assert(plain_arg(args[1]));
    assert(ascii(t) =~= line_of(m, args));
    lemma_split_line(m, args);
}

/// The text of `EMPTY` reads back as `EMPTY`.
proof fn lemma_text_empty()
    ensures
        spec_words_to_opcode(encode_utf8(spec_opcode_asm(OpCode::EMPTY))) == Some(Ok::<OpCode, AsmError>(OpCode::EMPTY)),
{
    reveal_strlit("EMPTY");
    assert(ascii("EMPTY"@) =~= seq![69u8, 77u8, 80u8, 84u8, 89u8]);
    assert(is_ascii_chars("EMPTY"@));
    let t = spec_opcode_asm(OpCode::EMPTY);
    assert(t == "EMPTY"@);
    lemma_encode_ascii(t);
    let m = seq![69u8, 77u8, 80u8, 84u8, 89u8];
    let args: Seq<Seq<u8>> = Seq::<Seq<u8>>::empty();
    assert(ascii(t) =~= line_of(m, args));
    lemma_split_line(m, args);
}

/// The text of `DATA` reads back as `DATA`.
proof fn lemma_text_data(a: u16)
    ensures
        spec_words_to_opcode(encode_utf8(spec_opcode_asm(OpCode::DATA(a)))) == Some(Ok::<OpCode, AsmError>(OpCode::DATA(a))),
{
    reveal_strlit("DATA ");
    assert(ascii("DATA "@) =~= seq![68u8, 65u8, 84u8, 65u8, 32u8]);
    assert(is_ascii_chars("DATA "@));
    lemma_operand_texts(0, 0, a);
    lemma_addr_token(a);
    lemma_ascii_cat("DATA "@, hex4_text(a));
    let t = spec_opcode_asm(OpCode::DATA(a));
    assert(t == "DATA "@ + hex4_text(a));
    lemma_encode_ascii(t);
    let m = seq![68u8, 65u8, 84u8, 65u8];
    let args: Seq<Seq<u8>> = seq![hex4_b(a)];
    assert(ascii(t) =~= line_of(m, args));
    lemma_split_line(m, args);
}

/// The assembly text of an opcode reads back as that opcode: assembling the
/// text that the disassembler prints for an instruction whose operands fit its
/// encoding gives the instruction again. (`SHR` and `SHL` are written with one
/// register, so they read back with a second register of 0.)
pub proof fn lemma_asm_text_reads_back(op: OpCode)
    requires
        operands_fit(op),
        op matches OpCode::SHR(_, y) ==> y == 0,
        op matches OpCode::SHL(_, y) ==> y == 0,
    ensures
        spec_words_to_opcode(encode_utf8(spec_opcode_asm(op))) == Some(Ok::<OpCode, AsmError>(op)),
{
    match op {
        OpCode::SYS(a) => lemma_text_sys(a),
        OpCode::CLS => lemma_text_cls(),
        OpCode::RET => lemma_text_ret(),
        OpCode::JP(a) => lemma_text_jp(a),
        OpCode::CALL(a) => lemma_text_call(a),
        OpCode::SEByte(x, b) => lemma_text_sebyte(x, b),
        OpCode::SNEByte(x, b) => lemma_text_snebyte(x, b),
        OpCode::LDByte(x, b) => lemma_text_ldbyte(x, b),
        OpCode::ADDByte(x, b) => lemma_text_addbyte(x, b),
        OpCode::RND(x, b) => lemma_text_rnd(x, b),
        OpCode::SE(x, y) => lemma_text_se(x, y),
        OpCode::LD(x, y) => lemma_text_ld(x, y),
        OpCode::OR(x, y) => lemma_text_or(x, y),
        OpCode::AND(x, y) => lemma_text_and(x, y),
        OpCode::XOR(x, y) => lemma_text_xor(x, y),
        OpCode::ADD(x, y) => lemma_text_add(x, y),
        OpCode::SUB(x, y) => lemma_text_sub(x, y),
        OpCode::SUBN(x, y) => lemma_text_subn(x, y),
        OpCode::SNE(x, y) => lemma_text_sne(x, y),
        OpCode::DRWX(x, y) => lemma_text_drwx(x, y),
        OpCode::SHR(x, y) => lemma_text_shr(x, y),
        OpCode::SHL(x, y) => lemma_text_shl(x, y),
        OpCode::LDI(a) => lemma_text_ldi(a),
        OpCode::JP0(a) => lemma_text_jp0(a),
        OpCode::DRW(x, y, n) => lemma_text_drw(x, y, n),
        OpCode::SKP(x) => lemma_text_skp(x),
        OpCode::SKNP(x) => lemma_text_sknp(x),
        OpCode::LDGetDelayTimer(x) => lemma_text_ldgetdelaytimer(x),
        OpCode::LDGetKey(x) => lemma_text_ldgetkey(x),
        OpCode::LDSetDelayTimer(x) => lemma_text_ldsetdelaytimer(x),
        OpCode::LDSetSoundTimer(x) => lemma_text_ldsetsoundtimer(x),
        OpCode::ADDI(x) => lemma_text_addi(x),
        OpCode::LDSprite(x) => lemma_text_ldsprite(x),
        OpCode::LDBCD(x) => lemma_text_ldbcd(x),
        OpCode::LDS(x) => lemma_text_lds(x),
        OpCode::LDR(x) => lemma_text_ldr(x),
        OpCode::SCRD(n) => lemma_text_scrd(n),
        OpCode::SCRR => lemma_text_scrr(),
        OpCode::SCRL => lemma_text_scrl(),
        OpCode::EXIT => lemma_text_exit(),
        OpCode::LOW => lemma_text_low(),
        OpCode::HIGH => lemma_text_high(),
        OpCode::LDXSprite(x) => lemma_text_ldxsprite(x),
        OpCode::LDXS(x) => lemma_text_ldxs(x),
        OpCode::LDXR(x) => lemma_text_ldxr(x),
        OpCode::EMPTY => lemma_text_empty(),
        OpCode::DATA(a) => lemma_text_data(a),
    }
}

/// Disassembling a 16-bit value and assembling the text again gives the value
/// back, for every value whose instruction is written in full (all but the
/// `SHR` and `SHL` encodings with a second register other than 0, which their
/// one-register text drops).
pub proof fn lemma_listing_reassembles(v: u16)
    requires
        spec_opcode_enum(v) matches OpCode::SHR(_, y) ==> y == 0,
        spec_opcode_enum(v) matches OpCode::SHL(_, y) ==> y == 0,
    ensures
        resolvable(encode_utf8(spec_opcode_asm(spec_opcode_enum(v)))),
        spec_resolve(encode_utf8(spec_opcode_asm(spec_opcode_enum(v)))) == Ok::<int, AsmError>(v as int),
{
    let op = spec_opcode_enum(v);
    lemma_encode_decode(v);
    assert(operands_fit(op));
    lemma_asm_text_reads_back(op);
}

} // verus!
