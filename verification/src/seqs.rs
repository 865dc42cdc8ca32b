use vstd::prelude::*;

verus! {

/// The members of `s`, each once, in the order in which they first occur.
pub open spec fn distinct<A>(s: Seq<A>) -> Seq<A>
    decreases s.len(),
{
    if s.len() == 0 {
        Seq::empty()
    } else {
        let d = distinct(s.drop_last());
        if d.contains(s.last()) {
            d
        } else {
            d.push(s.last())
        }
    }
}

/// `distinct(s)` holds what `s` holds, and nothing twice.
pub proof fn lemma_distinct<A>(s: Seq<A>)
    ensures
        distinct(s).no_duplicates(),
        forall|a: A| distinct(s).contains(a) <==> s.contains(a),
        distinct(s).len() <= s.len(),
    decreases s.len(),
{
    if s.len() > 0 {
        let head = s.drop_last();
        lemma_distinct(head);
        let d = distinct(head);
        assert forall|a: A| distinct(s).contains(a) <==> s.contains(a) by {
            if s.contains(a) {
                let i = choose|i: int| 0 <= i < s.len() && s[i] == a;
                if i < s.len() - 1 {
                    assert(head[i] == a);
                    assert(head.contains(a));
                    assert(d.contains(a));
                    let j = choose|j: int| 0 <= j < d.len() && d[j] == a;
                    assert(distinct(s)[j] == a);
                } else {
                    assert(a == s.last());
                    if !d.contains(a) {
                        assert(d.push(a)[d.len() as int] == a);
                    }
                }
            }
            if distinct(s).contains(a) {
                let j = choose|j: int| 0 <= j < distinct(s).len() && distinct(s)[j] == a;
                if j < d.len() {
                    assert(d[j] == a);
                    assert(d.contains(a));
                    assert(head.contains(a));
                    let i = choose|i: int| 0 <= i < head.len() && head[i] == a;
                    assert(s[i] == a);
                } else {
                    assert(a == s.last());
                    assert(s[s.len() - 1] == a);
                }
            }
        }
    }
}

/// What one more member does to `distinct`.
pub proof fn lemma_distinct_push<A>(s: Seq<A>, a: A)
    ensures
        distinct(s.push(a)) == if distinct(s).contains(a) {
            distinct(s)
        } else {
            distinct(s).push(a)
        },
{
    assert(s.push(a).drop_last() == s);
}

/// In a sequence without repetition each member is found where it stands.
pub proof fn lemma_index_of_unique<A>(s: Seq<A>, i: int)
    requires
        s.no_duplicates(),
        0 <= i < s.len(),
    ensures
        s.index_of(s[i]) == i,
{
    let j = s.index_of(s[i]);
    assert(0 <= j < s.len() && s[j] == s[i]);
}

/// `distinct(s)` has as many members as `s` has different ones.
pub proof fn lemma_distinct_len<A>(s: Seq<A>)
    ensures
        distinct(s).len() == s.to_set().len(),
{
    lemma_distinct(s);
    distinct(s).unique_seq_to_set();
    assert(distinct(s).to_set() =~= s.to_set());
}

/// How often `a` occurs in `s`.
pub open spec fn occurrences<A>(s: Seq<A>, a: A) -> nat
    decreases s.len(),
{
    if s.len() == 0 {
        0
    } else {
        occurrences(s.drop_last(), a) + if s.last() == a {
            1nat
        } else {
            0nat
        }
    }
}

/// How often the members of `d` occur in `s`, all together.
pub open spec fn occurrences_of_all<A>(s: Seq<A>, d: Seq<A>) -> nat
    decreases d.len(),
{
    if d.len() == 0 {
        0
    } else {
        occurrences_of_all(s, d.drop_last()) + occurrences(s, d.last())
    }
}

/// What does not occur in a sequence occurs there no times; what stands in a sequence
/// without repetition occurs there once.
pub proof fn lemma_occurrences_unique<A>(d: Seq<A>, a: A)
    requires
        d.no_duplicates(),
    ensures
        occurrences(d, a) == if d.contains(a) {
            1nat
        } else {
            0nat
        },
    decreases d.len(),
{
    if d.len() > 0 {
        let head = d.drop_last();
        lemma_occurrences_unique(head, a);
        if d.last() == a {
            if head.contains(a) {
                let j = choose|j: int| 0 <= j < head.len() && head[j] == a;
                assert(d[j] == d[d.len() - 1]);
            }
            assert(d[d.len() - 1] == a);
        } else {
            if d.contains(a) {
                let j = choose|j: int| 0 <= j < d.len() && d[j] == a;
                assert(head[j] == a);
            }
            if head.contains(a) {
                let j = choose|j: int| 0 <= j < head.len() && head[j] == a;
                assert(d[j] == a);
            }
        }
    }
}

/// One more member of `s` is one more occurrence of each time that it stands in `d`.
pub proof fn lemma_occurrences_of_all_push<A>(s: Seq<A>, a: A, d: Seq<A>)
    ensures
        occurrences_of_all(s.push(a), d) == occurrences_of_all(s, d) + occurrences(d, a),
    decreases d.len(),
{
    if d.len() > 0 {
        lemma_occurrences_of_all_push(s, a, d.drop_last());
        assert(s.push(a).drop_last() == s);
    }
}

/// The members of a sequence without repetition that holds all that `s` holds occur in
/// `s` as often as `s` is long.
pub proof fn lemma_occurrences_of_all_len<A>(s: Seq<A>, d: Seq<A>)
    requires
        d.no_duplicates(),
        forall|i: int| 0 <= i < s.len() ==> d.contains(#[trigger] s[i]),
    ensures
        occurrences_of_all(s, d) == s.len(),
    decreases s.len(),
{
    if s.len() == 0 {
        lemma_occurrences_of_none(s, d);
    } else {
        let head = s.drop_last();
        assert forall|i: int| 0 <= i < head.len() implies d.contains(#[trigger] head[i]) by {
            assert(head[i] == s[i]);
        }
        lemma_occurrences_of_all_len(head, d);
        lemma_occurrences_of_all_push(head, s.last(), d);
        assert(head.push(s.last()) == s);
        assert(d.contains(s[s.len() - 1]));
        lemma_occurrences_unique(d, s.last());
    }
}

/// Nothing occurs in a sequence without members.
pub proof fn lemma_occurrences_of_none<A>(s: Seq<A>, d: Seq<A>)
    requires
        s.len() == 0,
    ensures
        occurrences_of_all(s, d) == 0,
    decreases d.len(),
{
    if d.len() > 0 {
        lemma_occurrences_of_none(s, d.drop_last());
    }
}

/// Where each member of `d` occurs `k` times in `s`, all together they occur `k` times as
/// often as `d` is long.
pub proof fn lemma_occurrences_of_all_equal<A>(s: Seq<A>, d: Seq<A>, k: nat)
    requires
        forall|j: int| 0 <= j < d.len() ==> occurrences(s, #[trigger] d[j]) == k,
    ensures
        occurrences_of_all(s, d) == k * d.len(),
    decreases d.len(),
{
    if d.len() > 0 {
        let head = d.drop_last();
        assert forall|j: int| 0 <= j < head.len() implies occurrences(s, #[trigger] head[j])
            == k by {
            assert(head[j] == d[j]);
        }
        lemma_occurrences_of_all_equal(s, head, k);
        assert(occurrences(s, d[d.len() - 1]) == k);
        assert(k * d.len() == k * head.len() + k) by (nonlinear_arith)
            requires
                d.len() == head.len() + 1,
        ;
    }
}

/// A sequence in which everything occurs `k` times is `k` times as long as it has
/// different members.
pub proof fn lemma_equal_occurrences_len<A>(s: Seq<A>, k: nat)
    requires
        forall|i: int| 0 <= i < s.len() ==> occurrences(s, #[trigger] s[i]) == k,
    ensures
        s.len() == k * distinct(s).len(),
{
    let d = distinct(s);
    lemma_distinct(s);
    assert forall|i: int| 0 <= i < s.len() implies d.contains(#[trigger] s[i]) by {
        assert(s.contains(s[i]));
    }
    lemma_occurrences_of_all_len(s, d);
    assert forall|j: int| 0 <= j < d.len() implies occurrences(s, #[trigger] d[j]) == k by {
        assert(d.contains(d[j]));
        assert(s.contains(d[j]));
        let i = choose|i: int| 0 <= i < s.len() && s[i] == d[j];
        assert(occurrences(s, s[i]) == k);
    }
    lemma_occurrences_of_all_equal(s, d, k);
}

} // verus!
