//! Hex literals: parsing tokens into numbers and rendering numbers as digits.
use vstd::prelude::*;

verus! {

/// An ASCII whitespace byte: space, tab, LF, VT, FF, CR.
pub open spec fn is_ascii_space(b: u8) -> bool {
    b == 0x20 || (0x09 <= b && b <= 0x0d)
}

/// The UTF-8 encodings of U+0085 and U+00A0.
pub open spec fn is_space2(a: u8, b: u8) -> bool {
    a == 0xc2 && (b == 0x85 || b == 0xa0)
}

/// The UTF-8 encodings of U+1680, U+2000 to U+200A, U+2028, U+2029, U+202F,
/// U+205F and U+3000.
pub open spec fn is_space3(a: u8, b: u8, c: u8) -> bool {
    (a == 0xe1 && b == 0x9a && c == 0x80) || (a == 0xe2 && b == 0x80 && ((0x80 <= c && c <= 0x8a)
        || c == 0xa8 || c == 0xa9 || c == 0xaf)) || (a == 0xe2 && b == 0x81 && c == 0x9f) || (a
        == 0xe3 && b == 0x80 && c == 0x80)
}

/// The length of the whitespace character (Unicode White_Space, in UTF-8) that
/// `s` starts with, or 0.
pub open spec fn space_at_start(s: Seq<u8>) -> nat {
    if s.len() >= 1 && is_ascii_space(s[0]) {
        1
    } else if s.len() >= 2 && is_space2(s[0], s[1]) {
        2
    } else if s.len() >= 3 && is_space3(s[0], s[1], s[2]) {
        3
    } else {
        0
    }
}

/// The length of the whitespace character that `s` ends with, or 0.
pub open spec fn space_at_end(s: Seq<u8>) -> nat {
    let n = s.len() as int;
    if n >= 1 && is_ascii_space(s[n - 1]) {
        1
    } else if n >= 2 && is_space2(s[n - 2], s[n - 1]) {
        2
    } else if n >= 3 && is_space3(s[n - 3], s[n - 2], s[n - 1]) {
        3
    } else {
        0
    }
}

/// `s` without its leading whitespace.
pub open spec fn trim_start(s: Seq<u8>) -> Seq<u8>
    decreases s.len(),
{
    if space_at_start(s) > 0 {
        trim_start(s.skip(space_at_start(s) as int))
    } else {
        s
    }
}

/// `s` without its trailing whitespace.
pub open spec fn trim_end(s: Seq<u8>) -> Seq<u8>
    decreases s.len(),
{
    if space_at_end(s) > 0 {
        trim_end(s.take(s.len() - space_at_end(s)))
    } else {
        s
    }
}

/// `s` without surrounding whitespace.
pub open spec fn trim(s: Seq<u8>) -> Seq<u8> {
    trim_end(trim_start(s))
}

/// `s` without one leading `0x` or `0X`, if it has one.
pub open spec fn strip_radix(s: Seq<u8>) -> Seq<u8> {
    if s.len() >= 2 && s[0] == 0x30 && (s[1] == 0x78 || s[1] == 0x58) {
        s.subrange(2, s.len() as int)
    } else {
        s
    }
}

/// The digits of a hex token: trimmed, then without its optional prefix.
pub open spec fn hex_body(s: Seq<u8>) -> Seq<u8> {
    strip_radix(trim(s))
}

pub open spec fn is_hex_digit(b: u8) -> bool {
    (0x30 <= b && b <= 0x39) || (0x61 <= b && b <= 0x66) || (0x41 <= b && b <= 0x46)
}

/// The value of one hex digit.
pub open spec fn digit_value(b: u8) -> nat {
    if 0x30 <= b && b <= 0x39 {
        (b - 0x30) as nat
    } else if 0x61 <= b && b <= 0x66 {
        (b - 0x61 + 10) as nat
    } else {
        (b - 0x41 + 10) as nat
    }
}

pub open spec fn all_hex(s: Seq<u8>) -> bool {
    forall|i: int| 0 <= i < s.len() ==> is_hex_digit(#[trigger] s[i])
}

/// The number that a string of hex digits denotes, most significant first.
pub open spec fn hex_value(s: Seq<u8>) -> nat
    decreases s.len(),
{
    if s.len() == 0 {
        0
    } else {
        hex_value(s.drop_last()) * 16 + digit_value(s.last())
    }
}

/// What a hex literal denotes as a pointer-width number, if anything.
pub open spec fn hex_usize_of(s: Seq<u8>) -> Option<usize> {
    let t = hex_body(s);
    if t.len() > 0 && all_hex(t) && hex_value(t) <= usize::MAX {
        Some(hex_value(t) as usize)
    } else {
        None
    }
}

/// What a byte token denotes: exactly two hex digits after trimming and prefix.
pub open spec fn hex_byte_of(s: Seq<u8>) -> Option<u8> {
    let t = hex_body(s);
    if t.len() == 2 && all_hex(t) {
        Some(hex_value(t) as u8)
    } else {
        None
    }
}

/// The lowercase ASCII digit of a nibble.
pub open spec fn digit_char(n: nat) -> u8 {
    if n < 10 {
        (0x30 + n) as u8
    } else {
        (0x61 + n - 10) as u8
    }
}

/// The lowest `n` hex digits of `v`, most significant first.
pub open spec fn hex_digits(v: nat, n: nat) -> Seq<u8>
    decreases n,
{
    if n == 0 {
        Seq::empty()
    } else {
        hex_digits(v / 16, (n - 1) as nat).push(digit_char(v % 16))
    }
}

proof fn lemma_hex_value_step(s: Seq<u8>, i: int)
    requires
        0 <= i < s.len(),
    ensures
        hex_value(s.take(i + 1)) == hex_value(s.take(i)) * 16 + digit_value(s[i]),
{
    assert(s.take(i + 1).drop_last() =~= s.take(i));
}

proof fn lemma_hex_value_grows(s: Seq<u8>, i: int, j: int)
    requires
        0 <= i <= j <= s.len(),
    ensures
        hex_value(s.take(i)) <= hex_value(s.take(j)),
    decreases j - i,
{
    if i < j {
        lemma_hex_value_grows(s, i, j - 1);
        lemma_hex_value_step(s, j - 1);
    }
}

/// Whether `b` is ASCII whitespace.
pub fn ascii_space(b: u8) -> (r: bool)
    ensures
        r == is_ascii_space(b),
{
    b == 0x20 || (0x09 <= b && b <= 0x0d)
}

fn space3(a: u8, b: u8, c: u8) -> (r: bool)
    ensures
        r == is_space3(a, b, c),
{
    (a == 0xe1 && b == 0x9a && c == 0x80) || (a == 0xe2 && b == 0x80 && ((0x80 <= c && c <= 0x8a)
        || c == 0xa8 || c == 0xa9 || c == 0xaf)) || (a == 0xe2 && b == 0x81 && c == 0x9f) || (a
        == 0xe3 && b == 0x80 && c == 0x80)
}

/// The length of the whitespace character at position `i` of `s`, or 0.
pub fn space_len_at(s: &[u8], i: usize) -> (k: usize)
    requires
        i <= s@.len(),
    ensures
        k == space_at_start(s@.skip(i as int)),
{
    let r = s.len() - i;
    if r >= 1 && ascii_space(s[i]) {
        1
    } else if r >= 2 && s[i] == 0xc2 && (s[i + 1] == 0x85 || s[i + 1] == 0xa0) {
        2
    } else if r >= 3 && space3(s[i], s[i + 1], s[i + 2]) {
        3
    } else {
        0
    }
}

/// The length of the whitespace character that ends `s[lo..hi]`, or 0.
fn space_len_before(s: &[u8], lo: usize, hi: usize) -> (k: usize)
    requires
        lo <= hi <= s@.len(),
    ensures
        k == space_at_end(s@.subrange(lo as int, hi as int)),
{
    let r = hi - lo;
    if r >= 1 && ascii_space(s[hi - 1]) {
        1
    } else if r >= 2 && s[hi - 2] == 0xc2 && (s[hi - 1] == 0x85 || s[hi - 1] == 0xa0) {
        2
    } else if r >= 3 && space3(s[hi - 3], s[hi - 2], s[hi - 1]) {
        3
    } else {
        0
    }
}

/// The bounds of `s` without surrounding whitespace.
pub fn trim_bounds(s: &[u8]) -> (r: (usize, usize))
    ensures
        r.0 <= r.1 <= s@.len(),
        s@.subrange(r.0 as int, r.1 as int) == trim(s@),
{
    let n = s.len();
    let mut lo: usize = 0;
    assert(s@.skip(0) =~= s@);
    let mut k = space_len_at(s, 0);
    while k > 0
        invariant
            lo <= n == s@.len(),
            k == space_at_start(s@.skip(lo as int)),
            trim_start(s@) == trim_start(s@.skip(lo as int)),
        decreases n - lo,
    {
        assert(s@.skip(lo as int).skip(k as int) =~= s@.skip(lo + k));
        lo = lo + k;
        k = space_len_at(s, lo);
    }
    assert(s@.skip(lo as int) =~= s@.subrange(lo as int, n as int));
    let mut hi: usize = n;
    let mut k = space_len_before(s, lo, hi);
    while k > 0
        invariant
            lo <= hi <= n == s@.len(),
            k == space_at_end(s@.subrange(lo as int, hi as int)),
            trim(s@) == trim_end(s@.subrange(lo as int, hi as int)),
        decreases hi - lo,
    {
        assert(s@.subrange(lo as int, hi as int).take(hi - lo - k) =~= s@.subrange(
            lo as int,
            hi - k,
        ));
        hi = hi - k;
        k = space_len_before(s, lo, hi);
    }
    (lo, hi)
}

/// Whether `b` is a hex digit.
pub fn hex_digit_byte(b: u8) -> (r: bool)
    ensures
        r == is_hex_digit(b),
{
    (0x30 <= b && b <= 0x39) || (0x61 <= b && b <= 0x66) || (0x41 <= b && b <= 0x46)
}

/// The value of a hex digit.
fn digit_val(b: u8) -> (r: u8)
    requires
        is_hex_digit(b),
    ensures
        r as nat == digit_value(b),
        r < 16,
{
    if b <= 0x39 {
        b - 0x30
    } else if b >= 0x61 {
        b - 0x61 + 10
    } else {
        b - 0x41 + 10
    }
}

/// Trims whitespace and strips an optional `0x`/`0X` prefix; returns the bounds
/// of what is left.
pub fn trim_hex(s: &[u8]) -> (r: (usize, usize))
    ensures
        r.0 <= r.1 <= s@.len(),
        s@.subrange(r.0 as int, r.1 as int) == hex_body(s@),
{
    let (lo, hi) = trim_bounds(s);
    if hi - lo >= 2 && s[lo] == 0x30 && (s[lo + 1] == 0x78 || s[lo + 1] == 0x58) {
        assert(s@.subrange(lo as int, hi as int).subrange(2, hi - lo) =~= s@.subrange(
            lo + 2,
            hi as int,
        ));
        (lo + 2, hi)
    } else {
        (lo, hi)
    }
}

/// Parses a hex literal, optionally prefixed by `0x`/`0X` and surrounded by
/// whitespace, as a pointer-width number. `None` when nothing is left after
/// trimming, when any other character than a hex digit remains, or when the
/// value does not fit.
pub fn parse_hex_usize(s: &[u8]) -> (r: Option<usize>)
    ensures
        r == hex_usize_of(s@),
{
    let (lo, hi) = trim_hex(s);
    let ghost t = s@.subrange(lo as int, hi as int);
    if lo == hi {
        return None;
    }
    let mut acc: usize = 0;
    let mut i: usize = lo;
    while i < hi
        invariant
            lo <= i <= hi <= s@.len(),
            t == s@.subrange(lo as int, hi as int),
            t == hex_body(s@),
            all_hex(t.take(i - lo)),
            acc as nat == hex_value(t.take(i - lo)),
        decreases hi - i,
    {
        let b = s[i];
        if !hex_digit_byte(b) {
            assert(!is_hex_digit(t[i - lo]));
            assert(!all_hex(t));
            return None;
        }
        let d = digit_val(b) as usize;
        proof {
            lemma_hex_value_step(t, i - lo);
            assert(t.take(i - lo + 1) =~= t.take(i - lo).push(b));
        }
        if acc > (usize::MAX - d) / 16 {
            // The digits so far already exceed the width; a longer string only
            // grows, unless a later character is no digit at all.
            assert(hex_value(t.take(i - lo + 1)) > usize::MAX) by (nonlinear_arith)
                requires
                    hex_value(t.take(i - lo + 1)) == acc * 16 + d,
                    acc > (usize::MAX - d) / 16,
                    d < 16,
            ;
            let mut j: usize = i + 1;
            while j < hi
                invariant
                    lo <= i < j <= hi <= s@.len(),
                    t == s@.subrange(lo as int, hi as int),
                    t == hex_body(s@),
                    all_hex(t.take(j - lo)),
                decreases hi - j,
            {
                let c = s[j];
                if !hex_digit_byte(c) {
                    assert(!is_hex_digit(t[j - lo]));
                    assert(!all_hex(t));
                    return None;
                }
                assert(t.take(j - lo + 1) =~= t.take(j - lo).push(c));
                j = j + 1;
            }
            proof {
                assert(t.take(t.len() as int) =~= t);
                lemma_hex_value_grows(t, i - lo + 1, t.len() as int);
                assert(hex_value(t) > usize::MAX);
            }
            return None;
        }
        acc = acc * 16 + d;
        i = i + 1;
    }
    assert(t.take(i - lo) =~= t);
    Some(acc)
}

/// Parses a byte token: exactly two hex digits once trimmed and stripped of an
/// optional `0x`/`0X` prefix.
pub fn parse_hex_u8_token(s: &[u8]) -> (r: Option<u8>)
    ensures
        r == hex_byte_of(s@),
{
    let (lo, hi) = trim_hex(s);
    let ghost t = s@.subrange(lo as int, hi as int);
    if hi - lo != 2 {
        return None;
    }
    let a = s[lo];
    let b = s[lo + 1];
    if !hex_digit_byte(a) {
        assert(!is_hex_digit(t[0]));
        return None;
    }
    if !hex_digit_byte(b) {
        assert(!is_hex_digit(t[1]));
        return None;
    }
    let hi_d = digit_val(a);
    let lo_d = digit_val(b);
    proof {
        lemma_hex_value_step(t, 0);
        lemma_hex_value_step(t, 1);
        assert(t.take(0) =~= Seq::<u8>::empty());
        assert(t.take(2) =~= t);
    }
    Some(hi_d * 16 + lo_d)
}

/// The lowercase ASCII hex digit of a nibble.
pub fn hex_digit(n: u8) -> (r: u8)
    requires
        n < 16,
    ensures
        r == digit_char(n as nat),
{
    if n < 10 {
        0x30 + n
    } else {
        0x61 + (n - 10)
    }
}

/// Appends the lowest `n` hex digits of `v` to `out`, most significant first.
pub fn push_hex_digits(out: &mut Vec<u8>, v: u32, n: u32)
    ensures
        final(out)@ == old(out)@ + hex_digits(v as nat, n as nat),
    decreases n,
{
    if n > 0 {
        push_hex_digits(out, v / 16, n - 1);
        out.push(hex_digit((v % 16) as u8));
    }
}

} // verus!
