use vstd::prelude::*;
use vstd::slice::slice_subrange;

verus! {

/// A half-open range `start..end` of byte offsets into a text.
#[derive(Clone, Copy, Debug, PartialEq, Eq, Structural)]
pub struct Span {
    pub start: usize,
    pub end: usize,
}

/// Space, tab, line feed, vertical tab, form feed and carriage return separate words.
pub open spec fn is_space(b: u8) -> bool {
    b == 32 || (9 <= b && b <= 13)
}

/// The ten decimal digits.
pub open spec fn is_digit(b: u8) -> bool {
    48 <= b && b <= 57
}

/// How many bytes from offset `i` on come before the next byte `b` or the end of `s`.
pub open spec fn until(s: Seq<u8>, b: u8, i: int) -> nat
    decreases s.len() - i,
{
    if 0 <= i < s.len() && s[i] != b {
        1 + until(s, b, i + 1)
    } else {
        0
    }
}

/// How many bytes from offset `i` on come before the next line feed or the end of `s`.
pub open spec fn line_len(s: Seq<u8>, i: int) -> nat {
    until(s, 10, i)
}

/// Counting up to a byte stops at the end of the text at the latest.
pub proof fn lemma_until_bound(s: Seq<u8>, b: u8, i: int)
    ensures
        i <= s.len() ==> i + until(s, b, i) <= s.len(),
        i >= s.len() ==> until(s, b, i) == 0,
        0 <= i && i + until(s, b, i) < s.len() ==> s[i + until(s, b, i)] == b,
        forall|k: int| i <= k < i + until(s, b, i) ==> s[k] != b,
    decreases s.len() - i,
{
    if 0 <= i < s.len() && s[i] != b {
        lemma_until_bound(s, b, i + 1);
    }
}

/// How many bytes from offset `i` on, and before `hi`, are not spaces.
pub open spec fn word_len(s: Seq<u8>, i: int, hi: int) -> nat
    decreases hi - i,
{
    if 0 <= i < hi && i < s.len() && !is_space(s[i]) {
        1 + word_len(s, i + 1, hi)
    } else {
        0
    }
}

/// The words of `s[lo..hi]`: its maximal runs of bytes that are not spaces, each as the pair
/// of its first offset and the offset just after its last byte.
pub open spec fn words(s: Seq<u8>, lo: int, hi: int) -> Seq<(int, int)>
    decreases hi - lo,
    via words_terminates
{
    if lo < 0 || lo >= hi || lo >= s.len() {
        Seq::empty()
    } else if is_space(s[lo]) {
        words(s, lo + 1, hi)
    } else {
        seq![(lo, lo + word_len(s, lo, hi))] + words(s, lo + word_len(s, lo, hi), hi)
    }
}

#[via_fn]
proof fn words_terminates(s: Seq<u8>, lo: int, hi: int) {
    lemma_word_len_bound(s, lo, hi);
}

/// A word that starts before `hi` ends at `hi` or earlier.
pub proof fn lemma_word_len_bound(s: Seq<u8>, i: int, hi: int)
    ensures
        i < hi ==> i + word_len(s, i, hi) <= hi,
        i >= hi ==> word_len(s, i, hi) == 0,
    decreases hi - i,
{
    if 0 <= i < hi && i < s.len() && !is_space(s[i]) {
        lemma_word_len_bound(s, i + 1, hi);
    }
}

/// The spans of `v` as pairs of mathematical integers.
pub open spec fn span_pairs(v: Seq<Span>) -> Seq<(int, int)> {
    Seq::new(v.len(), |k: int| (v[k].start as int, v[k].end as int))
}

/// Whether a byte separates words.
pub fn is_space_byte(b: u8) -> (r: bool)
    ensures
        r == is_space(b),
{
    b == 32 || (9 <= b && b <= 13)
}

/// Finds the next byte `b` at offset `start` or later; the length of `s` where there is none.
pub fn find_byte(s: &[u8], b: u8, start: usize) -> (end: usize)
    requires
        start <= s.len(),
    ensures
        end == start + until(s@, b, start as int),
        start <= end <= s.len(),
        end < s.len() ==> s@[end as int] == b,
        forall|k: int| start <= k < end ==> s@[k] != b,
{
    proof {
        lemma_until_bound(s@, b, start as int);
    }
    let mut i: usize = start;
    while i < s.len() && s[i] != b
        invariant
            start <= i <= s.len(),
            start + until(s@, b, start as int) == i + until(s@, b, i as int),
        decreases s.len() - i,
    {
        i += 1;
    }
    i
}

/// Finds where the line that starts at `start` ends.
pub fn line_end(s: &[u8], start: usize) -> (end: usize)
    requires
        start <= s.len(),
    ensures
        end == start + line_len(s@, start as int),
        end <= s.len(),
{
    find_byte(s, 10, start)
}

/// Finds where the word that starts at `start` ends.
pub fn word_end(s: &[u8], start: usize, hi: usize) -> (end: usize)
    requires
        start <= hi <= s.len(),
    ensures
        end == start + word_len(s@, start as int, hi as int),
        end <= hi,
{
    let mut i: usize = start;
    while i < hi && !is_space_byte(s[i])
        invariant
            start <= i <= hi <= s.len(),
            start + word_len(s@, start as int, hi as int) == i + word_len(s@, i as int, hi as int),
        decreases hi - i,
    {
        i += 1;
    }
    i
}

/// Replaces what `out` holds by the words of `s[lo..hi]`.
pub fn split_words(s: &[u8], lo: usize, hi: usize, out: &mut Vec<Span>)
    requires
        lo <= hi <= s.len(),
    ensures
        span_pairs(final(out)@) == words(s@, lo as int, hi as int),
        forall|k: int|
            0 <= k < final(out)@.len() ==> lo <= (#[trigger] final(out)@[k]).start
                < final(out)@[k].end <= hi,
{
    out.clear();
    let mut i: usize = lo;
    while i < hi
        invariant
            lo <= i <= hi <= s.len(),
            span_pairs(out@) + words(s@, i as int, hi as int) == words(s@, lo as int, hi as int),
            forall|k: int|
                0 <= k < out@.len() ==> lo <= (#[trigger] out@[k]).start < out@[k].end <= hi,
        decreases hi - i,
    {
        if is_space_byte(s[i]) {
            i += 1;
        } else {
            let end = word_end(s, i, hi);
            let ghost before = span_pairs(out@);
            out.push(Span { start: i, end });
            proof {
                let word = seq![(i as int, end as int)];
                let rest = words(s@, end as int, hi as int);
                assert(span_pairs(out@) == before + word);
                assert(words(s@, i as int, hi as int) == word + rest);
                assert(before + (word + rest) == (before + word) + rest);
            }
            i = end;
        }
    }
    proof {
        assert(span_pairs(out@) + Seq::<(int, int)>::empty() == span_pairs(out@));
    }
}

/// Whether every byte of `d` is a decimal digit.
pub open spec fn all_digits(d: Seq<u8>) -> bool {
    forall|k: int| 0 <= k < d.len() ==> is_digit(#[trigger] d[k])
}

/// The number that the decimal digits `d` write.
pub open spec fn digits_value(d: Seq<u8>) -> nat
    decreases d.len(),
{
    if d.len() == 0 {
        0
    } else {
        digits_value(d.drop_last()) * 10 + (d.last() - 48) as nat
    }
}

/// Whether `t` begins with `+` or `-`.
pub open spec fn has_sign(t: Seq<u8>) -> bool {
    t.len() > 0 && (t[0] == 43 || t[0] == 45)
}

/// What follows the sign of `t`, or all of `t` where it has none.
pub open spec fn unsigned_part(t: Seq<u8>) -> Seq<u8> {
    if has_sign(t) {
        t.subrange(1, t.len() as int)
    } else {
        t
    }
}

/// The value of `t` read as an optional sign and one or more decimal digits, if `t` has that
/// form and the value fits in 32 bits with sign.
pub open spec fn integer_value(t: Seq<u8>) -> Option<int> {
    let d = unsigned_part(t);
    if d.len() == 0 || !all_digits(d) {
        None
    } else {
        let v = if t[0] == 45 {
            -(digits_value(d) as int)
        } else {
            digits_value(d) as int
        };
        if -0x8000_0000 <= v <= 0x7fff_ffff {
            Some(v)
        } else {
            None
        }
    }
}

/// Whether a byte is a decimal digit.
pub fn is_digit_byte(b: u8) -> (r: bool)
    ensures
        r == is_digit(b),
{
    48 <= b && b <= 57
}

/// Reads a word as a 32-bit integer in decimal notation.
pub fn parse_integer(t: &[u8]) -> (r: Option<i32>)
    ensures
        match r {
            Some(v) => integer_value(t@) == Some(v as int),
            None => integer_value(t@).is_none(),
        },
{
    let n = t.len();
    let signed = n > 0 && (t[0] == 43 || t[0] == 45);
    let start: usize = if signed { 1 } else { 0 };
    let ghost d = unsigned_part(t@);
    if start == n {
        return None;
    }
    proof {
        assert(t@.subrange(0, n as int) == t@);
    }
    let mut acc: i64 = 0;
    let mut i: usize = start;
    while i < n
        invariant
            start <= i <= n,
            n == t@.len(),
            d == t@.subrange(start as int, n as int),
            d == unsigned_part(t@),
            all_digits(d.take(i - start)),
            acc == if digits_value(d.take(i - start)) > 0x8000_0000 {
                0x8000_0001
            } else {
                digits_value(d.take(i - start)) as int
            },
        decreases n - i,
    {
        let b = t[i];
        if !is_digit_byte(b) {
            proof {
                assert(d[i - start] == b);
            }
            return None;
        }
        proof {
            let next = d.take(i - start + 1);
            assert(next.drop_last() == d.take(i - start));
            assert(next.last() == b);
            assert forall|k: int| 0 <= k < next.len() implies is_digit(#[trigger] next[k]) by {
                if k < i - start {
                    assert(d.take(i - start)[k] == next[k]);
                }
            }
        }
        acc = acc * 10 + (b - 48) as i64;
        if acc > 0x8000_0000 {
            acc = 0x8000_0001;
        }
        i += 1;
    }
    proof {
        assert(d.take(n - start) == d);
    }
    if n > 0 && t[0] == 45 {
        if acc <= 0x8000_0000 {
            Some((-acc) as i32)
        } else {
            None
        }
    } else {
        if acc <= 0x7fff_ffff {
            Some(acc as i32)
        } else {
            None
        }
    }
}

/// How many decimal digits stand in `t` from offset `i` on, without a break.
pub open spec fn digit_run(t: Seq<u8>, i: int) -> nat
    decreases t.len() - i,
{
    if 0 <= i < t.len() && is_digit(t[i]) {
        1 + digit_run(t, i + 1)
    } else {
        0
    }
}

/// The lower-case form of an ASCII letter; any other byte unchanged.
pub open spec fn lower(b: u8) -> u8 {
    if 65 <= b && b <= 90 {
        (b + 32) as u8
    } else {
        b
    }
}

/// Whether `t` is the lower-case word `w`, written in any mix of cases.
pub open spec fn same_word(t: Seq<u8>, w: Seq<u8>) -> bool {
    t.len() == w.len() && forall|k: int| 0 <= k < t.len() ==> lower(#[trigger] t[k]) == w[k]
}

/// The bytes of `inf`.
pub open spec fn word_inf() -> Seq<u8> {
    seq![105u8, 110u8, 102u8]
}

/// The bytes of `infinity`.
pub open spec fn word_infinity() -> Seq<u8> {
    seq![105u8, 110u8, 102u8, 105u8, 110u8, 105u8, 116u8, 121u8]
}

/// The bytes of `nan`.
pub open spec fn word_nan() -> Seq<u8> {
    seq![110u8, 97u8, 110u8]
}

/// An exponent: `e` or `E`, an optional sign, one or more digits.
pub open spec fn is_exponent(t: Seq<u8>) -> bool {
    t.len() >= 2 && lower(t[0]) == 101 && {
        let d = unsigned_part(t.subrange(1, t.len() as int));
        d.len() > 0 && all_digits(d)
    }
}

/// A decimal number without sign: digits with at most one point among them, before, after or
/// between them, at least one digit in all, then possibly an exponent.
pub open spec fn is_decimal(t: Seq<u8>) -> bool {
    let whole = digit_run(t, 0) as int;
    let point = whole < t.len() && t[whole] == 46;
    let fraction = if point {
        digit_run(t, whole + 1) as int
    } else {
        0
    };
    let mantissa = if point {
        whole + 1 + fraction
    } else {
        whole
    };
    whole + fraction > 0 && (mantissa == t.len() || is_exponent(
        t.subrange(mantissa, t.len() as int),
    ))
}

/// Whether `t` writes a number: an optional sign, then a decimal number, `inf`, `infinity`
/// or `nan`, the three words in any mix of cases.
pub open spec fn is_number(t: Seq<u8>) -> bool {
    let u = unsigned_part(t);
    is_decimal(u) || same_word(u, word_inf()) || same_word(u, word_infinity()) || same_word(
        u,
        word_nan(),
    )
}

/// The lower-case form of an ASCII letter; any other byte unchanged.
pub fn lower_byte(b: u8) -> (r: u8)
    ensures
        r == lower(b),
{
    if 65 <= b && b <= 90 {
        b + 32
    } else {
        b
    }
}

/// Counts the digits that stand in `t` from offset `from` on, without a break.
pub fn count_digits(t: &[u8], from: usize) -> (n: usize)
    requires
        from <= t.len(),
    ensures
        n == digit_run(t@, from as int),
        from + n <= t.len(),
{
    let mut i: usize = from;
    while i < t.len() && is_digit_byte(t[i])
        invariant
            from <= i <= t.len(),
            from + digit_run(t@, from as int) == i + digit_run(t@, i as int),
        decreases t.len() - i,
    {
        i += 1;
    }
    i - from
}

/// Whether `t` consists of digits alone.
pub fn all_digit_bytes(t: &[u8]) -> (r: bool)
    ensures
        r == all_digits(t@),
{
    let mut i: usize = 0;
    while i < t.len()
        invariant
            i <= t.len(),
            forall|k: int| 0 <= k < i ==> is_digit(#[trigger] t@[k]),
        decreases t.len() - i,
    {
        if !is_digit_byte(t[i]) {
            return false;
        }
        i += 1;
    }
    true
}

/// Drops the sign that `t` begins with, if it has one.
pub fn skip_sign(t: &[u8]) -> (r: &[u8])
    ensures
        r@ == unsigned_part(t@),
{
    if t.len() > 0 && (t[0] == 43 || t[0] == 45) {
        slice_subrange(t, 1, t.len())
    } else {
        t
    }
}

/// Whether `t` is an exponent.
pub fn is_exponent_word(t: &[u8]) -> (r: bool)
    ensures
        r == is_exponent(t@),
{
    if t.len() >= 2 && lower_byte(t[0]) == 101 {
        let d = skip_sign(slice_subrange(t, 1, t.len()));
        d.len() > 0 && all_digit_bytes(d)
    } else {
        false
    }
}

/// Whether `t` is a decimal number without sign.
pub fn is_decimal_word(t: &[u8]) -> (r: bool)
    ensures
        r == is_decimal(t@),
{
    let n = t.len();
    let whole = count_digits(t, 0);
    let point = whole < n && t[whole] == 46;
    let fraction = if point {
        count_digits(t, whole + 1)
    } else {
        0
    };
    let mantissa = if point {
        whole + 1 + fraction
    } else {
        whole
    };
    if whole == 0 && fraction == 0 {
        false
    } else if mantissa == n {
        true
    } else {
        is_exponent_word(slice_subrange(t, mantissa, n))
    }
}

/// Whether `t` is `inf`, `infinity` or `nan` in any mix of cases.
pub fn is_special_word(t: &[u8]) -> (r: bool)
    ensures
        r == (same_word(t@, word_inf()) || same_word(t@, word_infinity()) || same_word(
            t@,
            word_nan(),
        )),
{
    let n = t.len();
    if n == 3 {
        let a = lower_byte(t[0]);
        let b = lower_byte(t[1]);
        let c = lower_byte(t[2]);
        (a == 105 && b == 110 && c == 102) || (a == 110 && b == 97 && c == 110)
    } else if n == 8 {
        lower_byte(t[0]) == 105 && lower_byte(t[1]) == 110 && lower_byte(t[2]) == 102
            && lower_byte(t[3]) == 105 && lower_byte(t[4]) == 110 && lower_byte(t[5]) == 105
            && lower_byte(t[6]) == 116 && lower_byte(t[7]) == 121
    } else {
        false
    }
}

/// Whether a word writes a number.
pub fn is_number_word(t: &[u8]) -> (r: bool)
    ensures
        r == is_number(t@),
{
    let u = skip_sign(t);
    is_decimal_word(u) || is_special_word(u)
}

} // verus!
