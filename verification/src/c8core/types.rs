//! Core types and hexadecimal conversions.
use vstd::prelude::*;
use vstd::string::StringSliceAdditionalSpecFns;

verus! {

/// CHIP-8 byte type.
pub type C8Byte = u8;

/// CHIP-8 address type.
pub type C8Addr = u16;

/// CHIP-8 register index.
pub type C8RegIdx = u8;

/// Byte index `k` of `s` starts a character (or is the end): the byte there is
/// no UTF-8 continuation byte. Indices past the end are accepted too.
pub open spec fn at_char_start(s: Seq<u8>, k: int) -> bool {
    k >= s.len() || !(0x80 <= s[k] < 0xC0)
}

/// Value of a hexadecimal digit byte (`0-9`, `a-f`, `A-F`).
pub open spec fn hex_digit_value(b: u8) -> Option<nat> {
    if 0x30 <= b <= 0x39 {
        Some((b - 0x30) as nat)
    } else if 0x41 <= b <= 0x46 {
        Some((b - 0x41 + 10) as nat)
    } else if 0x61 <= b <= 0x66 {
        Some((b - 0x61 + 10) as nat)
    } else {
        None
    }
}

/// Every byte of `s` is a hexadecimal digit.
pub open spec fn all_hex_digits(s: Seq<u8>) -> bool {
    forall|i: int| 0 <= i < s.len() ==> (#[trigger] hex_digit_value(s[i])) is Some
}

/// Big-endian value of a sequence of hexadecimal digits.
pub open spec fn hex_digits_value(s: Seq<u8>) -> nat
    decreases s.len(),
{
    if s.len() == 0 {
        0
    } else {
        hex_digits_value(s.drop_last()) * 16 + match hex_digit_value(s.last()) {
            Some(d) => d,
            None => 0,
        }
    }
}

/// The digits that a radix parse reads: an optional leading `+` is skipped.
pub open spec fn radix_digits(s: Seq<u8>) -> Seq<u8> {
    if s.len() > 0 && s[0] == 0x2b {
        s.drop_first()
    } else {
        s
    }
}

/// Unsigned hexadecimal parse of `s` bounded by `max`: `None` when the input is
/// empty, holds a non-digit, or denotes a value above `max`.
pub open spec fn spec_parse_hex(s: Seq<u8>, max: nat) -> Option<nat> {
    let d = radix_digits(s);
    if d.len() > 0 && all_hex_digits(d) && hex_digits_value(d) <= max {
        Some(hex_digits_value(d))
    } else {
        None
    }
}

/// Reads the hexadecimal value of `s[lo..hi]` (an optional `+` then digits):
/// the value when it is at most `max`, `None` otherwise.
pub fn parse_hex_bytes(s: &[u8], lo: usize, hi: usize, max: u32) -> (res: Option<u32>)
    requires
        max < 0x10000,
        lo <= hi <= s@.len(),
    ensures
        res matches Some(v) ==> spec_parse_hex(s@.subrange(lo as int, hi as int), max as nat) == Some(v as nat),
        res is None ==> spec_parse_hex(s@.subrange(lo as int, hi as int), max as nat) is None,
{
    let ghost full = s@.subrange(lo as int, hi as int);
    let mut start: usize = lo;
    if lo < hi && s[lo] == 0x2b {
        start = lo + 1;
    }
    let ghost d = radix_digits(full);
    assert(d =~= s@.subrange(start as int, hi as int));
    if start == hi {
        return None;
    }
    let mut acc: u32 = 0;
    let mut i: usize = start;
    while i < hi
        invariant
            start <= i <= hi,
            hi <= s@.len(),
            d =~= s@.subrange(start as int, hi as int),
            d == radix_digits(full),
            full == s@.subrange(lo as int, hi as int),
            max < 0x10000,
            all_hex_digits(d.take(i - start)),
            acc as nat == if hex_digits_value(d.take(i - start)) <= max {
                hex_digits_value(d.take(i - start))
            } else {
                (max + 1) as nat
            },
        decreases hi - i,
    {
        let b = s[i];
        let dv: u32;
        if 0x30 <= b && b <= 0x39 {
            dv = (b - 0x30) as u32;
        } else if 0x41 <= b && b <= 0x46 {
            dv = (b - 0x41 + 10) as u32;
        } else if 0x61 <= b && b <= 0x66 {
            dv = (b - 0x61 + 10) as u32;
        } else {
            assert(d[i - start] == b);
            assert(hex_digit_value(d[i - start]) is None);
            assert(!all_hex_digits(d));
            return None;
        }
        let ghost prev = d.take(i - start);
        let ghost next = d.take(i - start + 1);
        assert(next.drop_last() =~= prev);
        assert(next.last() == b);
        assert(hex_digit_value(b) == Some(dv as nat));
        assert(hex_digits_value(next) == hex_digits_value(prev) * 16 + dv);
        assert forall|k: int| 0 <= k < next.len() implies (#[trigger] hex_digit_value(next[k])) is Some by {
            if k < prev.len() {
                assert(next[k] == prev[k]);
            }
        }
        if acc > max {
            assert(hex_digits_value(prev) > max);
            assert(hex_digits_value(prev) * 16 + dv > max) by (nonlinear_arith)
                requires hex_digits_value(prev) > max, dv >= 0;
        } else {
            let v = acc * 16 + dv;
            if v > max {
                acc = max + 1;
            } else {
                acc = v;
            }
        }
        i = i + 1;
    }
    assert(d.take(hi - start) =~= d);
    if acc > max {
        None
    } else {
        Some(acc)
    }
}

/// Value of a decimal digit byte.
pub open spec fn dec_digit_value(b: u8) -> Option<nat> {
    if 0x30 <= b <= 0x39 {
        Some((b - 0x30) as nat)
    } else {
        None
    }
}

/// Every byte of `s` is a decimal digit.
pub open spec fn all_dec_digits(s: Seq<u8>) -> bool {
    forall|i: int| 0 <= i < s.len() ==> (#[trigger] dec_digit_value(s[i])) is Some
}

/// Value of a sequence of decimal digits.
pub open spec fn dec_digits_value(s: Seq<u8>) -> nat
    decreases s.len(),
{
    if s.len() == 0 {
        0
    } else {
        dec_digits_value(s.drop_last()) * 10 + match dec_digit_value(s.last()) {
            Some(d) => d,
            None => 0,
        }
    }
}

/// Unsigned decimal parse of `s` bounded by `max` (`str::parse` for an unsigned
/// integer): `None` when the input is empty, holds a non-digit, or denotes a
/// value above `max`.
pub open spec fn spec_parse_dec(s: Seq<u8>, max: nat) -> Option<nat> {
    let d = radix_digits(s);
    if d.len() > 0 && all_dec_digits(d) && dec_digits_value(d) <= max {
        Some(dec_digits_value(d))
    } else {
        None
    }
}

/// Reads the decimal value of `s[lo..hi]` (an optional `+` then digits): the
/// value when it is at most `max`, `None` otherwise.
pub fn parse_dec_bytes(s: &[u8], lo: usize, hi: usize, max: u32) -> (res: Option<u32>)
    requires
        max < 0x10000,
        lo <= hi <= s@.len(),
    ensures
        res matches Some(v) ==> spec_parse_dec(s@.subrange(lo as int, hi as int), max as nat) == Some(v as nat),
        res is None ==> spec_parse_dec(s@.subrange(lo as int, hi as int), max as nat) is None,
{
    let ghost full = s@.subrange(lo as int, hi as int);
    let mut start: usize = lo;
    if lo < hi && s[lo] == 0x2b {
        start = lo + 1;
    }
    let ghost d = radix_digits(full);
    assert(d =~= s@.subrange(start as int, hi as int));
    if start == hi {
        return None;
    }
    let mut acc: u32 = 0;
    let mut i: usize = start;
    while i < hi
        invariant
            start <= i <= hi,
            hi <= s@.len(),
            d =~= s@.subrange(start as int, hi as int),
            d == radix_digits(full),
            full == s@.subrange(lo as int, hi as int),
            max < 0x10000,
            all_dec_digits(d.take(i - start)),
            acc as nat == if dec_digits_value(d.take(i - start)) <= max {
                dec_digits_value(d.take(i - start))
            } else {
                (max + 1) as nat
            },
        decreases hi - i,
    {
        let b = s[i];
        let dv: u32;
        if 0x30 <= b && b <= 0x39 {
            dv = (b - 0x30) as u32;
        } else {
            assert(d[i - start] == b);
            assert(dec_digit_value(d[i - start]) is None);
            assert(!all_dec_digits(d));
            return None;
        }
        let ghost prev = d.take(i - start);
        let ghost next = d.take(i - start + 1);
        assert(next.drop_last() =~= prev);
        assert(next.last() == b);
        assert(dec_digit_value(b) == Some(dv as nat));
        assert(dec_digits_value(next) == dec_digits_value(prev) * 10 + dv);
        assert forall|k: int| 0 <= k < next.len() implies (#[trigger] dec_digit_value(next[k])) is Some by {
            if k < prev.len() {
                assert(next[k] == prev[k]);
            }
        }
        if acc > max {
            assert(dec_digits_value(prev) > max);
            assert(dec_digits_value(prev) * 10 + dv > max) by (nonlinear_arith)
                requires dec_digits_value(prev) > max, dv >= 0;
        } else {
            let v = acc * 10 + dv;
            if v > max {
                acc = max + 1;
            } else {
                acc = v;
            }
        }
        i = i + 1;
    }
    assert(d.take(hi - start) =~= d);
    if acc > max {
        None
    } else {
        Some(acc)
    }
}

/// The digits of an address text: what follows a leading `0x`, or the whole text.
pub open spec fn hex_addr_digits(s: Seq<u8>) -> Seq<u8> {
    if s.len() >= 2 && s[0] == 0x30 && s[1] == 0x78 {
        s.skip(2)
    } else {
        s
    }
}

/// Value of an address text: its digits, after an optional `0x`, read in
/// hexadecimal up to `0xFFFF`; `None` when they do not parse.
pub open spec fn spec_hex_addr(s: Seq<u8>) -> Option<nat> {
    spec_parse_hex(hex_addr_digits(s), 0xFFFF)
}

/// Reads the address text `s[lo..hi]`: hexadecimal digits, after an optional `0x`.
pub fn parse_hex_addr_bytes(s: &[u8], lo: usize, hi: usize) -> (res: Option<C8Addr>)
    requires
        lo <= hi <= s@.len(),
    ensures
        match res {
            Some(v) => spec_hex_addr(s@.subrange(lo as int, hi as int)) == Some(v as nat),
            None => spec_hex_addr(s@.subrange(lo as int, hi as int)) is None,
        },
{
    let ghost t = s@.subrange(lo as int, hi as int);
    let start = if hi - lo >= 2 && s[lo] == 0x30 && s[lo + 1] == 0x78 { lo + 2 } else { lo };
    assert(hex_addr_digits(t) =~= s@.subrange(start as int, hi as int));
    match parse_hex_bytes(s, start, hi, 0xFFFF) {
        Some(v) => Some(v as u16),
        None => None,
    }
}

/// Convert hexadecimal address: the digits after an optional `0x` prefix, read
/// in hexadecimal; `None` when they are not a hexadecimal number up to `0xFFFF`.
pub fn convert_hex_addr(s: &str) -> (res: Option<C8Addr>)
    ensures
        match res {
            Some(v) => spec_hex_addr(s.spec_bytes()) == Some(v as nat),
            None => spec_hex_addr(s.spec_bytes()) is None,
        },
{
    let b = s.as_bytes();
    assert(b@.subrange(0, b@.len() as int) =~= b@);
    parse_hex_addr_bytes(b, 0, b.len())
}

/// Convert hexadecimal byte.
pub fn convert_hex_byte(s: &str) -> (res: Option<C8Byte>)
    ensures
        res matches Some(v) ==> spec_parse_hex(s.spec_bytes(), 0xFF) == Some(v as nat),
        res is None ==> spec_parse_hex(s.spec_bytes(), 0xFF) is None,
{
    let b = s.as_bytes();
    let r = parse_hex_bytes(b, 0, b.len(), 0xFF);
    assert(b@.subrange(0, b@.len() as int) =~= b@);
    match r {
        Some(v) => Some(v as u8),
        None => None,
    }
}

} // verus!
