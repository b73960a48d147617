//! Building text: hexadecimal and decimal rendering of numbers.
use vstd::prelude::*;

verus! {

/// `String::push` (std): appends the given `char` to the end of the string.
#[verifier::external_body]
pub(crate) fn string_push(s: &mut String, c: char)
    ensures
        final(s)@ == old(s)@.push(c),
{
    s.push(c);
}

/// Uppercase hexadecimal digit of `d` (`0 <= d < 16`).
pub open spec fn hex_char(d: int) -> char {
    if d == 0 { '0' }
    else if d == 1 { '1' }
    else if d == 2 { '2' }
    else if d == 3 { '3' }
    else if d == 4 { '4' }
    else if d == 5 { '5' }
    else if d == 6 { '6' }
    else if d == 7 { '7' }
    else if d == 8 { '8' }
    else if d == 9 { '9' }
    else if d == 10 { 'A' }
    else if d == 11 { 'B' }
    else if d == 12 { 'C' }
    else if d == 13 { 'D' }
    else if d == 14 { 'E' }
    else { 'F' }
}

/// Hexadecimal digit of the low nibble of `d`.
pub fn hex_digit_char(d: u8) -> (c: char)
    requires
        d < 16,
    ensures
        c == hex_char(d as int),
{
    if d == 0 { '0' }
    else if d == 1 { '1' }
    else if d == 2 { '2' }
    else if d == 3 { '3' }
    else if d == 4 { '4' }
    else if d == 5 { '5' }
    else if d == 6 { '6' }
    else if d == 7 { '7' }
    else if d == 8 { '8' }
    else if d == 9 { '9' }
    else if d == 10 { 'A' }
    else if d == 11 { 'B' }
    else if d == 12 { 'C' }
    else if d == 13 { 'D' }
    else if d == 14 { 'E' }
    else { 'F' }
}

/// `{:02X}` rendering of a byte.
pub open spec fn hex2_text(v: u8) -> Seq<char> {
    seq![hex_char(v as int / 16), hex_char(v as int % 16)]
}

/// `{:X}` rendering of a byte: one digit below 16, two digits otherwise.
pub open spec fn hex_text(v: u8) -> Seq<char> {
    if v < 16 {
        seq![hex_char(v as int)]
    } else {
        hex2_text(v)
    }
}

/// `{:04X}` rendering of a 16-bit value.
pub open spec fn hex4_text(v: u16) -> Seq<char> {
    seq![
        hex_char(v as int / 4096),
        hex_char((v as int / 256) % 16),
        hex_char((v as int / 16) % 16),
        hex_char(v as int % 16),
    ]
}

/// Appends the `{:02X}` rendering of `v`.
pub fn push_hex2(s: &mut String, v: u8)
    ensures
        final(s)@ == old(s)@ + hex2_text(v),
{
    string_push(s, hex_digit_char(v / 16));
    string_push(s, hex_digit_char(v % 16));
    assert(s@ =~= old(s)@ + hex2_text(v));
}

/// Appends the `{:X}` rendering of `v`.
pub fn push_hex(s: &mut String, v: u8)
    ensures
        final(s)@ == old(s)@ + hex_text(v),
{
    if v < 16 {
        string_push(s, hex_digit_char(v));
        assert(s@ =~= old(s)@ + hex_text(v));
    } else {
        push_hex2(s, v);
    }
}

/// Appends the `{:04X}` rendering of `v`.
pub fn push_hex4(s: &mut String, v: u16)
    ensures
        final(s)@ == old(s)@ + hex4_text(v),
{
    string_push(s, hex_digit_char((v / 4096) as u8));
    string_push(s, hex_digit_char(((v / 256) % 16) as u8));
    string_push(s, hex_digit_char(((v / 16) % 16) as u8));
    string_push(s, hex_digit_char((v % 16) as u8));
    assert(s@ =~= old(s)@ + hex4_text(v));
}

/// `V{:X}` rendering of a register index.
pub open spec fn reg_text(x: u8) -> Seq<char> {
    seq!['V'] + hex_text(x)
}

/// Appends the `V{:X}` rendering of register `x`.
pub fn push_reg(s: &mut String, x: u8)
    ensures
        final(s)@ == old(s)@ + reg_text(x),
{
    string_push(s, 'V');
    push_hex(s, x);
    assert(s@ =~= old(s)@ + reg_text(x));
}

/// Hexadecimal digits of `v`, most significant first, without leading zeros.
pub open spec fn hex_digits(v: nat) -> Seq<char>
    decreases v,
{
    if v < 16 {
        seq![hex_char(v as int)]
    } else {
        hex_digits(v / 16) + seq![hex_char((v % 16) as int)]
    }
}

/// `{:0width$X}` rendering of `v`: its hexadecimal digits, with leading zeros
/// up to `width` digits.
pub open spec fn hex_padded(v: nat, width: nat) -> Seq<char> {
    let d = hex_digits(v);
    if d.len() >= width {
        d
    } else {
        Seq::new((width - d.len()) as nat, |i: int| '0') + d
    }
}

fn push_hex_digits(s: &mut String, v: usize)
    ensures
        final(s)@ == old(s)@ + hex_digits(v as nat),
    decreases v,
{
    if v >= 16 {
        push_hex_digits(s, v / 16);
    }
    string_push(s, hex_digit_char((v % 16) as u8));
    assert(s@ =~= old(s)@ + hex_digits(v as nat));
}

fn hex_digit_count(v: usize) -> (n: usize)
    ensures
        n == hex_digits(v as nat).len(),
    decreases v,
{
    proof {
        lemma_hex_digits_len(v as nat);
    }
    if v >= 16 {
        hex_digit_count(v / 16) + 1
    } else {
        1
    }
}

proof fn lemma_hex_digits_len(v: nat)
    ensures
        1 <= hex_digits(v).len() <= v / 16 + 1,
    decreases v,
{
    if v >= 16 {
        lemma_hex_digits_len(v / 16);
    }
}

/// Appends the `{:0width$X}` rendering of `v`.
pub fn push_hex_padded(s: &mut String, v: usize, width: usize)
    ensures
        final(s)@ == old(s)@ + hex_padded(v as nat, width as nat),
{
    let n = hex_digit_count(v);
    let mut k = n;
    while k < width
        invariant
            n <= k <= if n < width { width } else { n },
            n == hex_digits(v as nat).len(),
            s@ =~= old(s)@ + Seq::new((k - n) as nat, |i: int| '0'),
        decreases width - k,
    {
        string_push(s, '0');
        k = k + 1;
    }
    push_hex_digits(s, v);
    assert(s@ =~= old(s)@ + hex_padded(v as nat, width as nat));
}

/// Decimal digit character of `d` (`0 <= d < 10`).
pub open spec fn dec_char(d: int) -> char {
    hex_char(d)
}

/// `{}` rendering of a byte in decimal.
pub open spec fn dec_text(v: u8) -> Seq<char> {
    if v < 10 {
        seq![dec_char(v as int)]
    } else if v < 100 {
        seq![dec_char(v as int / 10), dec_char(v as int % 10)]
    } else {
        seq![dec_char(v as int / 100), dec_char((v as int / 10) % 10), dec_char(v as int % 10)]
    }
}

/// Appends the decimal rendering of `v`.
pub fn push_dec(s: &mut String, v: u8)
    ensures
        final(s)@ == old(s)@ + dec_text(v),
{
    if v >= 100 {
        string_push(s, hex_digit_char(v / 100));
    }
    if v >= 10 {
        string_push(s, hex_digit_char((v / 10) % 10));
    }
    string_push(s, hex_digit_char(v % 10));
    assert(s@ =~= old(s)@ + dec_text(v));
}

} // verus!
