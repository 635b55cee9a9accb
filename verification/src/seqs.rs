//! Facts about sequences, their filters and their duplicates, on which the
//! filters and the proxy rest.

use vstd::prelude::*;

verus! {

/// A sequence without duplicates stays so when an element it lacks is added.
pub proof fn lemma_fresh_keeps_distinct<A>(s: Seq<A>, fresh: A)
    requires
        s.no_duplicates(),
        !s.contains(fresh),
    ensures
        s.push(fresh).no_duplicates(),
{
    let t = s.push(fresh);
    assert forall|i: int, j: int| 0 <= i < t.len() && 0 <= j < t.len() && i != j implies t[i]
        != t[j] by {
        if i < s.len() && j < s.len() {
        } else if i < s.len() {
            assert(s.contains(s[i]));
        } else {
            assert(s.contains(s[j]));
        }
    }
}

/// Two tests of which each element meets exactly one split a sequence in two.
pub proof fn lemma_filter_splits<A>(s: Seq<A>, p: spec_fn(A) -> bool, q: spec_fn(A) -> bool)
    requires
        forall|a: A| #[trigger] p(a) != q(a),
    ensures
        s.filter(p).len() + s.filter(q).len() == s.len(),
    decreases s.len(),
{
    reveal(Seq::filter);
    if s.len() > 0 {
        lemma_filter_splits(s.drop_last(), p, q);
    }
}

/// Two tests that agree on the elements of a sequence filter it alike.
pub proof fn lemma_filter_agrees<A>(s: Seq<A>, p: spec_fn(A) -> bool, q: spec_fn(A) -> bool)
    requires
        forall|i: int| 0 <= i < s.len() ==> p(#[trigger] s[i]) == q(s[i]),
    ensures
        s.filter(p) == s.filter(q),
    decreases s.len(),
{
    reveal(Seq::filter);
    if s.len() > 0 {
        lemma_filter_agrees(s.drop_last(), p, q);
    }
}

/// A filtered sequence holds the elements of the sequence that meet the test.
pub proof fn lemma_filter_member<A>(s: Seq<A>, p: spec_fn(A) -> bool, a: A)
    ensures
        s.filter(p).contains(a) <==> s.contains(a) && p(a),
    decreases s.len(),
{
    reveal(Seq::filter);
    if s.len() > 0 {
        let rest = s.drop_last();
        lemma_filter_member(rest, p, a);
        let kept = rest.filter(p);
        if s.contains(a) && p(a) {
            let i = choose|i: int| 0 <= i < s.len() && s[i] == a;
            if i < rest.len() {
                assert(rest[i] == a);
                let j = choose|j: int| 0 <= j < kept.len() && kept[j] == a;
                assert(s.filter(p)[j] == a);
            } else {
                assert(s.filter(p).last() == a);
            }
        }
        if s.filter(p).contains(a) {
            let j = choose|j: int| 0 <= j < s.filter(p).len() && s.filter(p)[j] == a;
            if j < kept.len() {
                assert(kept[j] == a);
                let i = choose|i: int| 0 <= i < rest.len() && rest[i] == a;
                assert(s[i] == a);
            } else {
                assert(s[s.len() - 1] == a);
            }
        }
    }
}

/// Filtering a sequence without duplicates leaves none.
pub proof fn lemma_filter_distinct<A>(s: Seq<A>, p: spec_fn(A) -> bool)
    requires
        s.no_duplicates(),
    ensures
        s.filter(p).no_duplicates(),
    decreases s.len(),
{
    reveal(Seq::filter);
    if s.len() > 0 {
        let rest = s.drop_last();
        lemma_filter_distinct(rest, p);
        if p(s.last()) {
            lemma_filter_member(rest, p, s.last());
            if rest.contains(s.last()) {
                let i = choose|i: int| 0 <= i < rest.len() && rest[i] == s.last();
                assert(s[i] == s[s.len() - 1]);
            }
            lemma_fresh_keeps_distinct(rest.filter(p), s.last());
        }
    }
}

/// Filtering keeps the order of a sequence without duplicates: of two
/// elements that are left, the one that comes first came first before.
pub proof fn lemma_filter_keeps_order<A>(s: Seq<A>, p: spec_fn(A) -> bool, i: int, j: int)
    requires
        s.no_duplicates(),
        0 <= i < j < s.filter(p).len(),
    ensures
        s.contains(s.filter(p)[i]),
        s.contains(s.filter(p)[j]),
        s.index_of(s.filter(p)[i]) < s.index_of(s.filter(p)[j]),
    decreases s.len(),
{
    reveal(Seq::filter);
    let kept = s.filter(p);
    assert(kept.contains(kept[i]));
    assert(kept.contains(kept[j]));
    lemma_filter_member(s, p, kept[i]);
    lemma_filter_member(s, p, kept[j]);
    let rest = s.drop_last();
    if j < rest.filter(p).len() {
        lemma_filter_keeps_order(rest, p, i, j);
        let before_i = rest.index_of(kept[i]);
        let before_j = rest.index_of(kept[j]);
        assert(s[before_i] == kept[i]);
        assert(s[before_j] == kept[j]);
    } else {
        assert(kept[j] == s.last());
        assert(rest.filter(p).contains(kept[i])) by {
            assert(rest.filter(p)[i] == kept[i]);
        }
        lemma_filter_member(rest, p, kept[i]);
        let before_i = rest.index_of(kept[i]);
        assert(s[before_i] == kept[i]);
        assert(s[s.len() - 1] == kept[j]);
    }
}

/// Filtering by one test and then by another is filtering by both.
pub proof fn lemma_filter_twice<A>(s: Seq<A>, p: spec_fn(A) -> bool, q: spec_fn(A) -> bool)
    ensures
        s.filter(p).filter(q) == s.filter(|a: A| p(a) && q(a)),
    decreases s.len(),
{
    reveal(Seq::filter);
    if s.len() > 0 {
        lemma_filter_twice(s.drop_last(), p, q);
        if p(s.last()) {
            s.drop_last().filter(p).lemma_filter_push(s.last(), q);
        }
    }
}

/// A test that every element meets filters nothing out.
pub proof fn lemma_filter_all<A>(s: Seq<A>)
    ensures
        s.filter(|a: A| true) == s,
    decreases s.len(),
{
    reveal(Seq::filter);
    if s.len() > 0 {
        lemma_filter_all(s.drop_last());
        assert(s.drop_last().push(s.last()) =~= s);
    }
}

} // verus!
