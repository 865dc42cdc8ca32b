use crate::text::{
    all_digits, digit_run, is_decimal, is_digit, is_exponent, is_space, lower, word_len, words,
};
use vstd::prelude::*;

verus! {

/// Whether `t` is a decimal number with `whole` digits before the point, a point if
/// `point` says so, and `fraction` digits after it: the digits, then nothing or an
/// exponent.
pub open spec fn written_as_decimal(t: Seq<u8>, whole: int, point: bool, fraction: int) -> bool {
    let mantissa = if point {
        whole + 1 + fraction
    } else {
        whole
    };
    &&& 0 <= whole
    &&& 0 <= fraction
    &&& whole + fraction >= 1
    &&& mantissa <= t.len()
    &&& all_digits(t.subrange(0, whole))
    &&& if point {
        t[whole] == 46 && all_digits(t.subrange(whole + 1, mantissa))
    } else {
        fraction == 0
    }
    &&& (mantissa == t.len() || is_exponent(t.subrange(mantissa, t.len() as int)))
}

/// The digits counted from offset `i` on are digits, and what follows them is none.
pub proof fn lemma_digit_run(t: Seq<u8>, i: int)
    requires
        0 <= i <= t.len(),
    ensures
        i + digit_run(t, i) <= t.len(),
        all_digits(t.subrange(i, i + digit_run(t, i))),
        i + digit_run(t, i) < t.len() ==> !is_digit(t[i + digit_run(t, i)]),
    decreases t.len() - i,
{
    if i < t.len() && is_digit(t[i]) {
        lemma_digit_run(t, i + 1);
        let run = t.subrange(i, i + digit_run(t, i));
        let rest = t.subrange(i + 1, i + 1 + digit_run(t, i + 1));
        assert forall|k: int| 0 <= k < run.len() implies is_digit(#[trigger] run[k]) by {
            if k > 0 {
                assert(run[k] == rest[k - 1]);
            }
        }
    }
}

/// Digits that end where the text ends, or where a byte stands that is no digit, are the
/// digits counted from their first.
pub proof fn lemma_digit_run_unique(t: Seq<u8>, i: int, k: int)
    requires
        0 <= i,
        0 <= k,
        i + k <= t.len(),
        all_digits(t.subrange(i, i + k)),
        i + k == t.len() || !is_digit(t[i + k]),
    ensures
        digit_run(t, i) == k,
    decreases k,
{
    if k > 0 {
        let run = t.subrange(i, i + k);
        assert(run[0] == t[i]);
        let rest = t.subrange(i + 1, i + k);
        assert forall|j: int| 0 <= j < rest.len() implies is_digit(#[trigger] rest[j]) by {
            assert(rest[j] == run[j + 1]);
        }
        lemma_digit_run_unique(t, i + 1, k - 1);
    }
}

/// A decimal number is a text that can be written as one, and in one way only.
pub proof fn lemma_decimal_grammar(t: Seq<u8>)
    ensures
        is_decimal(t) <==> exists|whole: int, point: bool, fraction: int|
            written_as_decimal(t, whole, point, fraction),
{
    if is_decimal(t) {
        let whole = digit_run(t, 0) as int;
        lemma_digit_run(t, 0);
        let point = whole < t.len() && t[whole] == 46;
        if point {
            lemma_digit_run(t, whole + 1);
        }
        let fraction = if point {
            digit_run(t, whole + 1) as int
        } else {
            0
        };
        assert(written_as_decimal(t, whole, point, fraction));
    }
    if exists|whole: int, point: bool, fraction: int|
        written_as_decimal(t, whole, point, fraction) {
        let (whole, point, fraction) = choose|whole: int, point: bool, fraction: int|
            written_as_decimal(t, whole, point, fraction);
        lemma_decimal_unique(t, whole, point, fraction);
    }
}

/// However a decimal number is written, its digits before and after the point are the
/// ones that are counted from its beginning and from behind its point.
pub proof fn lemma_decimal_unique(t: Seq<u8>, whole: int, point: bool, fraction: int)
    requires
        written_as_decimal(t, whole, point, fraction),
    ensures
        is_decimal(t),
        whole == digit_run(t, 0),
        point == (whole < t.len() && t[whole] == 46),
        point ==> fraction == digit_run(t, whole + 1),
{
    let mantissa = if point {
        whole + 1 + fraction
    } else {
        whole
    };
    if mantissa < t.len() {
        let rest = t.subrange(mantissa, t.len() as int);
        assert(rest[0] == t[mantissa]);
        assert(lower(t[mantissa]) == 101);
        assert(!is_digit(t[mantissa]));
        assert(t[mantissa] != 46);
    }
    lemma_digit_run_unique(t, 0, whole);
    if point {
        lemma_digit_run_unique(t, whole + 1, fraction);
    }
}

/// Whether `lo..hi` is a word of `s` between `from` and `to`: bytes that are not spaces,
/// one at least, with a space or a bound on either side.
pub open spec fn is_word(s: Seq<u8>, from: int, to: int, lo: int, hi: int) -> bool {
    &&& from <= lo < hi <= to
    &&& forall|i: int| lo <= i < hi ==> !is_space(#[trigger] s[i])
    &&& (lo == from || is_space(s[lo - 1]))
    &&& (hi == to || is_space(s[hi]))
}

/// What the words of a text are: each of them is a word, they follow one another, and no
/// byte outside them is anything but a space.
pub proof fn lemma_words(s: Seq<u8>, lo: int, hi: int)
    requires
        0 <= lo <= hi <= s.len(),
    ensures
        forall|k: int|
            0 <= k < words(s, lo, hi).len() ==> is_word(
                s,
                lo,
                hi,
                (#[trigger] words(s, lo, hi)[k]).0,
                words(s, lo, hi)[k].1,
            ),
        forall|k: int|
            0 < k < words(s, lo, hi).len() ==> words(s, lo, hi)[k - 1].1 < (#[trigger] words(
                s,
                lo,
                hi,
            )[k]).0,
        forall|i: int|
            lo <= i < hi && !is_space(#[trigger] s[i]) ==> exists|k: int|
                0 <= k < words(s, lo, hi).len() && (#[trigger] words(s, lo, hi)[k]).0 <= i < words(
                    s,
                    lo,
                    hi,
                )[k].1,
{
    lemma_words_from(s, lo, lo, hi);
}

/// The non-space bytes counted from `i` are none of them spaces, and a space or the bound
/// follows them.
pub proof fn lemma_word_len(s: Seq<u8>, i: int, hi: int)
    requires
        0 <= i <= hi <= s.len(),
    ensures
        i + word_len(s, i, hi) <= hi,
        forall|j: int| i <= j < i + word_len(s, i, hi) ==> !is_space(#[trigger] s[j]),
        i + word_len(s, i, hi) == hi || is_space(s[i + word_len(s, i, hi)]),
    decreases hi - i,
{
    if i < hi && !is_space(s[i]) {
        lemma_word_len(s, i + 1, hi);
    }
}

/// What the words from offset `at` on are, in a text that begins at `from`, where `at`
/// begins the text or follows a space.
pub proof fn lemma_words_from(s: Seq<u8>, from: int, at: int, hi: int)
    requires
        0 <= from <= at <= hi <= s.len(),
        at == from || is_space(s[at - 1]),
    ensures
        forall|k: int|
            0 <= k < words(s, at, hi).len() ==> at <= (#[trigger] words(s, at, hi)[k]).0 && is_word(
                s,
                from,
                hi,
                words(s, at, hi)[k].0,
                words(s, at, hi)[k].1,
            ),
        forall|k: int|
            0 < k < words(s, at, hi).len() ==> words(s, at, hi)[k - 1].1 < (#[trigger] words(
                s,
                at,
                hi,
            )[k]).0,
        forall|i: int|
            at <= i < hi && !is_space(#[trigger] s[i]) ==> exists|k: int|
                0 <= k < words(s, at, hi).len() && (#[trigger] words(s, at, hi)[k]).0 <= i < words(
                    s,
                    at,
                    hi,
                )[k].1,
    decreases hi - at,
{
    let w = words(s, at, hi);
    if at >= hi {
        assert(w.len() == 0);
    } else if is_space(s[at]) {
        lemma_words_from(s, from, at + 1, hi);
        assert(w == words(s, at + 1, hi));
    } else {
        lemma_word_len(s, at, hi);
        let end = at + word_len(s, at, hi);
        let rest = words(s, end, hi);
        assert(w == seq![(at, end)] + rest);
        assert(w[0] == (at, end));
        assert(is_word(s, from, hi, at, end));
        if end < hi {
            lemma_words_from(s, from, end + 1, hi);
            assert(rest == words(s, end + 1, hi));
        } else {
            assert(rest.len() == 0);
        }
        assert forall|k: int| 0 <= k < w.len() implies at <= (#[trigger] w[k]).0 && is_word(
            s,
            from,
            hi,
            w[k].0,
            w[k].1,
        ) by {
            if k > 0 {
                assert(w[k] == rest[k - 1]);
            }
        }
        assert forall|k: int| 0 < k < w.len() implies w[k - 1].1 < (#[trigger] w[k]).0 by {
            assert(w[k] == rest[k - 1]);
            if k > 1 {
                assert(w[k - 1] == rest[k - 2]);
            }
        }
        assert forall|i: int| at <= i < hi && !is_space(#[trigger] s[i]) implies exists|k: int|
            0 <= k < w.len() && (#[trigger] w[k]).0 <= i < w[k].1 by {
            if i < end {
                assert(w[0].0 <= i < w[0].1);
            } else {
                let k = choose|k: int|
                    0 <= k < rest.len() && (#[trigger] rest[k]).0 <= i < rest[k].1;
                assert(w[k + 1] == rest[k]);
            }
        }
    }
}

} // verus!
