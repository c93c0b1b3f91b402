//! Shared little lemmas about sequences: how `take`, `filter` and
//! `map_values` behave when a sequence grows by one element.  The
//! registry, the supervisor and the updater all walk vectors while
//! maintaining invariants phrased over `take`, and these are the steps
//! such loops need.

use vstd::prelude::*;

verus! {

/// The character sequences of a sequence of strings.
pub open spec fn strs_view(v: Seq<String>) -> Seq<Seq<char>> {
    v.map_values(|s: String| s@)
}

/// Taking one more element appends exactly that element.
pub proof fn lemma_take_succ<A>(s: Seq<A>, i: int)
    requires
        0 <= i < s.len(),
    ensures
        s.take(i + 1) == s.take(i).push(s[i]),
{
    assert(s.take(i + 1) =~= s.take(i).push(s[i]));
}

/// Filtering a sequence extended by one element keeps the filtered
/// prefix and appends the new element exactly when it satisfies the
/// predicate.
pub proof fn lemma_filter_push<A>(s: Seq<A>, pred: spec_fn(A) -> bool, x: A)
    ensures
        pred(x) ==> s.push(x).filter(pred) == s.filter(pred).push(x),
        !pred(x) ==> s.push(x).filter(pred) == s.filter(pred),
{
    reveal_with_fuel(Seq::filter, 2);
    assert(s.push(x).drop_last() =~= s);
    assert(s.push(x).last() == x);
    if pred(x) {
        assert(s.push(x).filter(pred) =~= s.filter(pred).push(x));
    } else {
        assert(s.push(x).filter(pred) =~= s.filter(pred));
    }
}

/// Mapping over a sequence extended by one element appends the image
/// of that element.
pub proof fn lemma_map_values_push<A, B>(s: Seq<A>, f: spec_fn(A) -> B, x: A)
    ensures
        s.push(x).map_values(f) == s.map_values(f).push(f(x)),
{
    assert(s.push(x).map_values(f) =~= s.map_values(f).push(f(x)));
}

/// Membership in a sequence extended by one element.
pub proof fn lemma_contains_push<A>(s: Seq<A>, x: A, y: A)
    ensures
        s.push(x).contains(y) <==> (s.contains(y) || x == y),
{
    if s.contains(y) {
        let w = choose|w: int| 0 <= w < s.len() && s[w] == y;
        assert(s.push(x)[w] == y);
    }
    if x == y {
        assert(s.push(x)[s.len() as int] == y);
    }
    if s.push(x).contains(y) {
        let w = choose|w: int| 0 <= w < s.push(x).len() && s.push(x)[w] == y;
        if w < s.len() {
            assert(s[w] == y);
        }
    }
}

/// Membership in one more taken element.
pub proof fn lemma_contains_take_succ<A>(s: Seq<A>, i: int, y: A)
    requires
        0 <= i < s.len(),
    ensures
        s.take(i + 1).contains(y) <==> (s.take(i).contains(y) || s[i] == y),
{
    lemma_take_succ(s, i);
    lemma_contains_push(s.take(i), s[i], y);
}

/// Filtering first by `p` and then by a predicate `q` that no element
/// satisfying `p` can satisfy leaves nothing.
pub proof fn lemma_filter_excluded<A>(s: Seq<A>, p: spec_fn(A) -> bool, q: spec_fn(A) -> bool)
    requires
        forall|x: A| #[trigger] p(x) ==> !q(x),
    ensures
        s.filter(p).filter(q) == Seq::<A>::empty(),
    decreases s.len(),
{
    reveal_with_fuel(Seq::filter, 2);
    if s.len() == 0 {
        assert(s.filter(p) =~= Seq::<A>::empty());
        assert(Seq::<A>::empty().filter(q) =~= Seq::<A>::empty());
    } else {
        lemma_filter_excluded(s.drop_last(), p, q);
        let x = s.last();
        if p(x) {
            assert(s.filter(p) =~= s.drop_last().filter(p).push(x));
            lemma_filter_push(s.drop_last().filter(p), q, x);
        } else {
            assert(s.filter(p) =~= s.drop_last().filter(p));
        }
    }
}

/// Every element of a filtered sequence stems from the original one.
pub proof fn lemma_filter_membership<A>(s: Seq<A>, pred: spec_fn(A) -> bool, i: int)
    requires
        0 <= i < s.filter(pred).len(),
    ensures
        exists|j: int| 0 <= j < s.len() && s.filter(pred)[i] == #[trigger] s[j],
    decreases s.len(),
{
    reveal_with_fuel(Seq::filter, 2);
    if s.len() > 0 {
        let fl = s.drop_last().filter(pred);
        if i < fl.len() {
            lemma_filter_membership(s.drop_last(), pred, i);
            let j = choose|j: int|
                0 <= j < s.drop_last().len() && s.drop_last().filter(pred)[i] == s.drop_last()[j];
            assert(s.filter(pred)[i] == s[j]);
        } else {
            assert(s.filter(pred)[i] == s[s.len() - 1]);
        }
    }
}

/// Filtering preserves pairwise distinctness of any projection of the
/// elements.
pub proof fn lemma_filter_distinct_by<A, B>(s: Seq<A>, pred: spec_fn(A) -> bool, f: spec_fn(A) -> B)
    requires
        forall|i: int, j: int| 0 <= i < j < s.len() ==> f(#[trigger] s[i]) != f(#[trigger] s[j]),
    ensures
        forall|i: int, j: int|
            0 <= i < j < s.filter(pred).len() ==> f(#[trigger] s.filter(pred)[i]) != f(
                #[trigger] s.filter(pred)[j],
            ),
    decreases s.len(),
{
    reveal_with_fuel(Seq::filter, 2);
    if s.len() > 0 {
        let dl = s.drop_last();
        assert(forall|i: int, j: int|
            0 <= i < j < dl.len() ==> f(#[trigger] dl[i]) != f(#[trigger] dl[j])) by {
            assert(forall|i: int| 0 <= i < dl.len() ==> #[trigger] dl[i] == s[i]);
        }
        lemma_filter_distinct_by(dl, pred, f);
        if pred(s.last()) {
            assert(s.filter(pred) =~= dl.filter(pred).push(s.last()));
            assert forall|i: int| 0 <= i < dl.filter(pred).len() implies f(
                #[trigger] dl.filter(pred)[i],
            ) != f(s.last()) by {
                lemma_filter_membership(dl, pred, i);
                let j = choose|j: int| 0 <= j < dl.len() && dl.filter(pred)[i] == dl[j];
                assert(f(s[j]) != f(s[s.len() - 1]));
            }
        } else {
            assert(s.filter(pred) =~= dl.filter(pred));
        }
    }
}

/// Every element of a filtered sequence satisfies the predicate, and
/// the filtered sequence is never longer than the original.
pub proof fn lemma_filter_sound<A>(s: Seq<A>, pred: spec_fn(A) -> bool)
    ensures
        forall|i: int|
            0 <= i < s.filter(pred).len() ==> pred(#[trigger] s.filter(pred)[i]),
        s.filter(pred).len() <= s.len(),
    decreases s.len(),
{
    reveal_with_fuel(Seq::filter, 2);
    if s.len() > 0 {
        lemma_filter_sound(s.drop_last(), pred);
    }
}

} // verus!
