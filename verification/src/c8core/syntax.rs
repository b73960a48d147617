//! Byte-level scanning of UTF-8 text: Unicode whitespace trimming and searches.
use vstd::prelude::*;
use vstd::string::StringSliceAdditionalSpecFns;
use vstd::utf8::*;
use crate::c8core::types::at_char_start;

verus! {

/// Length of the Unicode `White_Space` character that `s` starts with, 0 if none.
pub open spec fn ws_front_len(s: Seq<u8>) -> nat {
    if s.len() >= 1 && (0x09 <= s[0] <= 0x0D || s[0] == 0x20) {
        1
    } else if s.len() >= 2 && s[0] == 0xC2 && (s[1] == 0x85 || s[1] == 0xA0) {
        2
    } else if s.len() >= 3 && ws3(s[0], s[1], s[2]) {
        3
    } else {
        0
    }
}

/// The three bytes encode one of the three-byte Unicode `White_Space` characters
/// (U+1680, U+2000 to U+200A, U+2028, U+2029, U+202F, U+205F, U+3000).
pub open spec fn ws3(a: u8, b: u8, c: u8) -> bool {
    ||| (a == 0xE1 && b == 0x9A && c == 0x80)
    ||| (a == 0xE2 && b == 0x80 && (0x80 <= c <= 0x8A || c == 0xA8 || c == 0xA9 || c == 0xAF))
    ||| (a == 0xE2 && b == 0x81 && c == 0x9F)
    ||| (a == 0xE3 && b == 0x80 && c == 0x80)
}

/// Length of the Unicode `White_Space` character that `s` ends with, 0 if none.
pub open spec fn ws_back_len(s: Seq<u8>) -> nat {
    let n = s.len() as int;
    if n >= 1 && (0x09 <= s[n - 1] <= 0x0D || s[n - 1] == 0x20) {
        1
    } else if n >= 2 && s[n - 2] == 0xC2 && (s[n - 1] == 0x85 || s[n - 1] == 0xA0) {
        2
    } else if n >= 3 && ws3(s[n - 3], s[n - 2], s[n - 1]) {
        3
    } else {
        0
    }
}

/// `s` without its leading whitespace.
pub open spec fn trim_start(s: Seq<u8>) -> Seq<u8>
    decreases s.len(),
{
    let k = ws_front_len(s);
    if k == 0 || k > s.len() {
        s
    } else {
        trim_start(s.skip(k as int))
    }
}

/// `s` without its trailing whitespace.
pub open spec fn trim_end(s: Seq<u8>) -> Seq<u8>
    decreases s.len(),
{
    let k = ws_back_len(s);
    if k == 0 || k > s.len() {
        s
    } else {
        trim_end(s.take(s.len() - k))
    }
}

/// `s` without leading and trailing whitespace (`str::trim`).
pub open spec fn trim(s: Seq<u8>) -> Seq<u8> {
    trim_end(trim_start(s))
}

/// Length of the whitespace character starting `w[lo..hi]`.
pub fn ws_front(w: &[u8], lo: usize, hi: usize) -> (k: usize)
    requires
        lo <= hi <= w@.len(),
    ensures
        k == ws_front_len(w@.subrange(lo as int, hi as int)),
        k <= hi - lo,
{
    let ghost s = w@.subrange(lo as int, hi as int);
    let n = hi - lo;
    if n >= 1 && ((0x09 <= w[lo] && w[lo] <= 0x0D) || w[lo] == 0x20) {
        1
    } else if n >= 2 && w[lo] == 0xC2 && (w[lo + 1] == 0x85 || w[lo + 1] == 0xA0) {
        2
    } else if n >= 3 && is_ws3(w[lo], w[lo + 1], w[lo + 2]) {
        3
    } else {
        0
    }
}

/// Length of the whitespace character ending `w[lo..hi]`.
pub fn ws_back(w: &[u8], lo: usize, hi: usize) -> (k: usize)
    requires
        lo <= hi <= w@.len(),
    ensures
        k == ws_back_len(w@.subrange(lo as int, hi as int)),
        k <= hi - lo,
{
    let ghost s = w@.subrange(lo as int, hi as int);
    let n = hi - lo;
    if n >= 1 && ((0x09 <= w[hi - 1] && w[hi - 1] <= 0x0D) || w[hi - 1] == 0x20) {
        1
    } else if n >= 2 && w[hi - 2] == 0xC2 && (w[hi - 1] == 0x85 || w[hi - 1] == 0xA0) {
        2
    } else if n >= 3 && is_ws3(w[hi - 3], w[hi - 2], w[hi - 1]) {
        3
    } else {
        0
    }
}

fn is_ws3(a: u8, b: u8, c: u8) -> (r: bool)
    ensures
        r == ws3(a, b, c),
{
    (a == 0xE1 && b == 0x9A && c == 0x80)
        || (a == 0xE2 && b == 0x80 && ((0x80 <= c && c <= 0x8A) || c == 0xA8 || c == 0xA9 || c == 0xAF))
        || (a == 0xE2 && b == 0x81 && c == 0x9F)
        || (a == 0xE3 && b == 0x80 && c == 0x80)
}

/// Bounds of `trim(w[lo..hi])` inside `w`.
pub fn trim_range(w: &[u8], lo: usize, hi: usize) -> (res: (usize, usize))
    requires
        lo <= hi <= w@.len(),
    ensures
        lo <= res.0 <= res.1 <= hi,
        w@.subrange(res.0 as int, res.1 as int) == trim(w@.subrange(lo as int, hi as int)),
        valid_utf8(w@) && at_char_start(w@, lo as int) && at_char_start(w@, hi as int)
            ==> at_char_start(w@, res.0 as int) && at_char_start(w@, res.1 as int),
{
    let ghost s = w@.subrange(lo as int, hi as int);
    let ghost cond = valid_utf8(w@) && at_char_start(w@, lo as int);
    let mut a = lo;
    loop
        invariant
            lo <= a <= hi <= w@.len(),
            s == w@.subrange(lo as int, hi as int),
            trim_start(s) == trim_start(w@.subrange(a as int, hi as int)),
            cond == (valid_utf8(w@) && at_char_start(w@, lo as int)),
            cond ==> at_char_start(w@, a as int),
        ensures
            lo <= a <= hi,
            trim_start(s) == w@.subrange(a as int, hi as int),
            cond ==> at_char_start(w@, a as int),
        decreases hi - a,
    {
        let k = ws_front(w, a, hi);
        if k == 0 {
            break;
        }
        assert(w@.subrange(a as int, hi as int).skip(k as int) =~= w@.subrange(a + k, hi as int));
        proof {
            if cond {
                lemma_boundary_iff(w@, a as int);
                lemma_boundary_step(w@, a as int);
                let t = w@.subrange(a as int, w@.len() as int);
                assert(t[0] == w@[a as int]);
                assert(length_of_first_scalar(t) == k);
                lemma_boundary_iff(w@, a + k);
            }
        }
        a = a + k;
    }
    let mut b = hi;
    loop
        invariant
            lo <= a <= b <= hi <= w@.len(),
            trim(s) == trim_end(w@.subrange(a as int, b as int)),
            cond ==> at_char_start(w@, a as int),
            cond == (valid_utf8(w@) && at_char_start(w@, lo as int)),
            b == hi || at_char_start(w@, b as int),
        ensures
            a <= b <= hi,
            trim(s) == w@.subrange(a as int, b as int),
            b == hi || at_char_start(w@, b as int),
        decreases b - a,
    {
        let k = ws_back(w, a, b);
        if k == 0 {
            break;
        }
        assert(w@.subrange(a as int, b as int).take(b - a - k) =~= w@.subrange(a as int, b - k));
        b = b - k;
    }
    (a, b)
}

/// Index of the first byte `c` in `s` at or after `i`, or `s.len()`.
pub open spec fn find_byte(s: Seq<u8>, i: int, c: u8) -> int
    decreases s.len() - i,
{
    if i >= s.len() {
        s.len() as int
    } else if s[i] == c {
        i
    } else {
        find_byte(s, i + 1, c)
    }
}

/// Index of the first byte `c` in `w` at or after `i` and before `hi`, or `hi`.
pub fn find_byte_from(w: &[u8], i: usize, hi: usize, c: u8) -> (r: usize)
    requires
        i <= hi <= w@.len(),
    ensures
        i <= r <= hi,
        r == i + find_byte(w@.subrange(i as int, hi as int), 0, c),
{
    let ghost s = w@.subrange(i as int, hi as int);
    let mut j = i;
    while j < hi
        invariant
            i <= j <= hi <= w@.len(),
            s == w@.subrange(i as int, hi as int),
            find_byte(s, 0, c) == find_byte(s, j - i, c),
        decreases hi - j,
    {
        if w[j] == c {
            return j;
        }
        j = j + 1;
    }
    j
}

/// `find_byte` stays within `i..=s.len()`.
pub proof fn lemma_find_byte_bounds(s: Seq<u8>, i: int, c: u8)
    requires
        0 <= i,
    ensures
        i <= find_byte(s, i, c) <= s.len() || (i > s.len() && find_byte(s, i, c) == s.len()),
        find_byte(s, i, c) < s.len() ==> s[find_byte(s, i, c)] == c,
    decreases s.len() - i,
{
    if i < s.len() && s[i] != c {
        lemma_find_byte_bounds(s, i + 1, c);
    }
}

/// The comma-separated fields of `s`, each trimmed (`s.split(',').map(str::trim)`).
pub open spec fn split_trim(s: Seq<u8>) -> Seq<Seq<u8>>
    decreases s.len(),
{
    let c = find_byte(s, 0, 0x2C);
    if c >= s.len() {
        seq![trim(s)]
    } else {
        proof {
            lemma_find_byte_bounds(s, 0, 0x2C);
        }
        seq![trim(s.take(c))] + split_trim(s.skip(c + 1))
    }
}

/// The parts of `s` separated by the byte `c` (`str::split(c)`).
pub open spec fn split_on(s: Seq<u8>, c: u8) -> Seq<Seq<u8>>
    decreases s.len(),
{
    let k = find_byte(s, 0, c);
    if k >= s.len() {
        seq![s]
    } else {
        proof {
            lemma_find_byte_bounds(s, 0, c);
        }
        seq![s.take(k)] + split_on(s.skip(k + 1), c)
    }
}

/// The byte ranges `r` of `w`, each read as the bytes it covers.
pub open spec fn ranges_view(w: Seq<u8>, r: Seq<(usize, usize)>) -> Seq<Seq<u8>> {
    r.map_values(|p: (usize, usize)| w.subrange(p.0 as int, p.1 as int))
}

/// Every range of `r` lies inside `w`.
pub open spec fn ranges_within(w: Seq<u8>, r: Seq<(usize, usize)>) -> bool {
    forall|i: int| 0 <= i < r.len() ==> #[trigger] r[i].0 <= r[i].1 && r[i].1 <= w.len()
}

/// Ranges of the trimmed comma-separated fields of `w[a..k]`.
pub fn split_trim_ranges(w: &[u8], a: usize, k: usize) -> (res: Vec<(usize, usize)>)
    requires
        a <= k <= w@.len(),
    ensures
        ranges_within(w@, res@),
        ranges_view(w@, res@) == split_trim(w@.subrange(a as int, k as int)),
{
    let mut out: Vec<(usize, usize)> = Vec::new();
    let mut pos = a;
    let ghost whole = split_trim(w@.subrange(a as int, k as int));
    assert(ranges_view(w@, out@) =~= Seq::<Seq<u8>>::empty());
    assert(ranges_view(w@, out@) + split_trim(w@.subrange(pos as int, k as int)) =~= whole);
    loop
        invariant_except_break
            ranges_view(w@, out@) + split_trim(w@.subrange(pos as int, k as int)) == whole,
        invariant
            a <= pos <= k <= w@.len(),
            ranges_within(w@, out@),
            whole == split_trim(w@.subrange(a as int, k as int)),
        ensures
            ranges_within(w@, out@),
            ranges_view(w@, out@) == whole,
        decreases k - pos,
    {
        let ghost t = w@.subrange(pos as int, k as int);
        let c = find_byte_from(w, pos, k, 0x2C);
        let r = trim_range(w, pos, c);
        let ghost prev = out@;
        out.push(r);
        assert(ranges_view(w@, out@) =~= ranges_view(w@, prev).push(w@.subrange(r.0 as int, r.1 as int)));
        proof {
            lemma_find_byte_bounds(t, 0, 0x2C);
        }
        if c == k {
            assert(w@.subrange(pos as int, c as int) =~= t);
            assert(split_trim(t) == seq![trim(t)]);
            assert(ranges_view(w@, out@) =~= whole);
            break;
        }
        assert(t.take(c - pos) =~= w@.subrange(pos as int, c as int));
        assert(t.skip(c - pos + 1) =~= w@.subrange(c + 1, k as int));
        assert(split_trim(t) == seq![trim(t.take(c - pos))] + split_trim(t.skip(c - pos + 1)));
        assert(ranges_view(w@, out@) + split_trim(w@.subrange(c + 1, k as int)) =~= whole);
        pos = c + 1;
    }
    out
}

/// Ranges of the parts of `w` separated by the byte `c`; each part starts at the
/// beginning or right after a `c`, and ends at the end or right before a `c`.
pub fn split_ranges(w: &[u8], c: u8) -> (res: Vec<(usize, usize)>)
    ensures
        ranges_within(w@, res@),
        ranges_view(w@, res@) == split_on(w@, c),
        res@.len() >= 1,
        forall|i: int| 0 <= i < res@.len() ==> (#[trigger] res@[i]).0 == 0 || w@[res@[i].0 - 1] == c,
        forall|i: int| 0 <= i < res@.len() ==> (#[trigger] res@[i]).1 == w@.len() || w@[res@[i].1 as int] == c,
{
    let k = w.len();
    let mut out: Vec<(usize, usize)> = Vec::new();
    let mut pos: usize = 0;
    let ghost whole = split_on(w@, c);
    assert(w@.subrange(0, k as int) =~= w@);
    assert(ranges_view(w@, out@) + split_on(w@.subrange(pos as int, k as int), c) =~= whole);
    loop
        invariant_except_break
            ranges_view(w@, out@) + split_on(w@.subrange(pos as int, k as int), c) == whole,
            pos == 0 || w@[pos - 1] == c,
        invariant
            pos <= k,
            k == w@.len(),
            ranges_within(w@, out@),
            whole == split_on(w@, c),
            forall|i: int| 0 <= i < out@.len() ==> (#[trigger] out@[i]).0 == 0 || w@[out@[i].0 - 1] == c,
            forall|i: int| 0 <= i < out@.len() ==> (#[trigger] out@[i]).1 == w@.len() || w@[out@[i].1 as int] == c,
        ensures
            ranges_within(w@, out@),
            ranges_view(w@, out@) == whole,
            out@.len() >= 1,
        decreases k - pos,
    {
        let ghost t = w@.subrange(pos as int, k as int);
        let e = find_byte_from(w, pos, k, c);
        proof {
            lemma_find_byte_bounds(t, 0, c);
            if e < k {
                assert(t[e - pos] == w@[e as int]);
            }
        }
        let ghost prev = out@;
        out.push((pos, e));
        assert(ranges_view(w@, out@) =~= ranges_view(w@, prev).push(w@.subrange(pos as int, e as int)));
        if e == k {
            assert(w@.subrange(pos as int, e as int) =~= t);
            assert(split_on(t, c) == seq![t]);
            assert(ranges_view(w@, out@) =~= whole);
            break;
        }
        assert(t.take(e - pos) =~= w@.subrange(pos as int, e as int));
        assert(t.skip(e - pos + 1) =~= w@.subrange(e + 1, k as int));
        assert(split_on(t, c) == seq![t.take(e - pos)] + split_on(t.skip(e - pos + 1), c));
        assert(ranges_view(w@, out@) + split_on(w@.subrange(e + 1, k as int), c) =~= whole);
        pos = e + 1;
    }
    out
}

/// In valid UTF-8, a character boundary followed by a character gives a
/// boundary right after that character.
pub proof fn lemma_boundary_step(bytes: Seq<u8>, i: int)
    requires
        valid_utf8(bytes),
        is_char_boundary(bytes, i),
        0 <= i < bytes.len(),
    ensures
        valid_first_scalar(bytes.subrange(i, bytes.len() as int)),
        is_char_boundary(bytes, i + length_of_first_scalar(bytes.subrange(i, bytes.len() as int))),
    decreases bytes.len(),
{
    let n = bytes.len() as int;
    let l0 = length_of_first_scalar(bytes);
    let pop = pop_first_scalar(bytes);
    assert(valid_first_scalar(bytes) && valid_utf8(pop));
    assert(pop.len() == n - l0);
    if i == 0 {
        assert(bytes.subrange(0, n) =~= bytes);
        assert(is_char_boundary(pop, 0));
    } else {
        assert(i >= l0) by {
            if i < l0 {
                assert(!is_char_boundary(pop, i - l0));
            }
        }
        assert(is_char_boundary(pop, i - l0));
        assert(pop.subrange(i - l0, pop.len() as int) =~= bytes.subrange(i, n));
        lemma_boundary_step(pop, i - l0);
        let l = length_of_first_scalar(bytes.subrange(i, n));
        assert(is_char_boundary(pop, i - l0 + l));
    }
}

/// In valid UTF-8, the character boundaries are the indices of the bytes that
/// are no continuation bytes, and the end.
pub proof fn lemma_boundary_iff(bytes: Seq<u8>, i: int)
    requires
        valid_utf8(bytes),
        0 <= i <= bytes.len(),
    ensures
        is_char_boundary(bytes, i) <==> at_char_start(bytes, i),
{
    if i == bytes.len() {
        is_char_boundary_start_end_of_seq(bytes);
    } else {
        is_char_boundary_iff_not_is_continuation_byte(bytes, i);
    }
}

/// The bytes of a string start a character at index 0.
pub proof fn lemma_str_start(s: &str)
    ensures
        at_char_start(s.spec_bytes(), 0),
{
    encode_utf8_valid_utf8(s@);
    is_char_boundary_start_end_of_seq(s.spec_bytes());
    lemma_boundary_iff(s.spec_bytes(), 0);
}

/// In valid UTF-8, the byte after an ASCII byte starts a character.
pub proof fn lemma_after_ascii(w: Seq<u8>, i: int)
    requires
        valid_utf8(w),
        0 <= i < w.len(),
        w[i] < 0x80,
    ensures
        at_char_start(w, i + 1),
{
    lemma_boundary_iff(w, i);
    lemma_boundary_step(w, i);
    let t = w.subrange(i, w.len() as int);
    assert(t[0] == w[i]);
    lemma_boundary_iff(w, i + 1);
}

/// The part `s[a..b]` of a string, cut at two character starts.
pub fn substring<'a>(s: &'a str, a: usize, b: usize) -> (r: &'a str)
    requires
        a <= b <= s.spec_bytes().len(),
        at_char_start(s.spec_bytes(), a as int),
        at_char_start(s.spec_bytes(), b as int),
    ensures
        r.spec_bytes() == s.spec_bytes().subrange(a as int, b as int),
{
    let ghost bytes = s.spec_bytes();
    proof {
        encode_utf8_valid_utf8(s@);
        lemma_boundary_iff(bytes, a as int);
        lemma_boundary_iff(bytes, b as int);
        valid_utf8_split(bytes, a as int);
    }
    let (_, right) = s.split_at(a);
    let ghost rb = right.spec_bytes();
    assert(rb =~= bytes.subrange(a as int, bytes.len() as int));
    proof {
        lemma_boundary_iff(rb, b - a);
    }
    let (mid, _) = right.split_at(b - a);
    assert(mid.spec_bytes() =~= bytes.subrange(a as int, b as int));
    mid
}

} // verus!
