//! Small general facts about filtered sequences that the store models
//! share.

use vstd::prelude::*;

verus! {

/// One step of a selection sort or top-k extraction: moving `rem[p]` — a
/// minimum of `rem` by `key` — to the end of `out` keeps the combined
/// multiset; and when everything in `out` already keys at or below
/// everything in `rem`, the grown `out` is still sorted by `key` and still
/// at or below the shrunk `rem`.
pub proof fn lemma_select_min_step<A>(out: Seq<A>, rem: Seq<A>, p: int, key: spec_fn(A) -> int)
    requires
        0 <= p < rem.len(),
        forall|u: int| 0 <= u < rem.len() ==> key(rem[p]) <= key(#[trigger] rem[u]),
        forall|a: int, b: int|
            0 <= a <= b < out.len() ==> key(#[trigger] out[a]) <= key(#[trigger] out[b]),
        forall|a: int, u: int|
            0 <= a < out.len() && 0 <= u < rem.len() ==> key(#[trigger] out[a]) <= key(
                #[trigger] rem[u],
            ),
    ensures
        out.push(rem[p]).to_multiset().add(rem.remove(p).to_multiset()) == out.to_multiset().add(
            rem.to_multiset(),
        ),
        forall|a: int, b: int|
            0 <= a <= b < out.push(rem[p]).len() ==> key(#[trigger] out.push(rem[p])[a]) <= key(
                #[trigger] out.push(rem[p])[b],
            ),
        forall|a: int, u: int|
            0 <= a < out.push(rem[p]).len() && 0 <= u < rem.remove(p).len() ==> key(
                #[trigger] out.push(rem[p])[a],
            ) <= key(#[trigger] rem.remove(p)[u]),
{
    broadcast use vstd::seq_lib::group_to_multiset_ensures;

    rem.remove_ensures(p);
    assert(out.push(rem[p]).to_multiset().add(rem.remove(p).to_multiset()) =~= out.to_multiset()
        .add(rem.to_multiset())) by {
        assert(out.push(rem[p]).to_multiset() =~= out.to_multiset().insert(rem[p]));
        assert(rem.remove(p).to_multiset() =~= rem.to_multiset().remove(rem[p]));
        assert(rem.to_multiset().count(rem[p]) >= 1) by {
            assert(rem.contains(rem[p]));
        }
    }
    assert forall|a: int, b: int|
        0 <= a <= b < out.push(rem[p]).len() implies key(#[trigger] out.push(rem[p])[a]) <= key(
        #[trigger] out.push(rem[p])[b],
    ) by {
        if b < out.len() {
            assert(out.push(rem[p])[a] == out[a]);
            assert(out.push(rem[p])[b] == out[b]);
        } else if a < out.len() {
            assert(out.push(rem[p])[a] == out[a]);
            assert(out.push(rem[p])[b] == rem[p]);
            assert(key(out[a]) <= key(rem[p]));
        }
    }
    assert forall|a: int, u: int|
        0 <= a < out.push(rem[p]).len() && 0 <= u < rem.remove(p).len() implies key(
        #[trigger] out.push(rem[p])[a],
    ) <= key(#[trigger] rem.remove(p)[u]) by {
        let w = if u < p {
            u
        } else {
            u + 1
        };
        assert(rem.remove(p)[u] == rem[w]);
        if a < out.len() {
            assert(out.push(rem[p])[a] == out[a]);
            assert(key(out[a]) <= key(rem[w]));
        } else {
            assert(out.push(rem[p])[a] == rem[p]);
            assert(key(rem[p]) <= key(rem[w]));
        }
    }
}

/// Filtering a sequence extended by one element keeps the element exactly
/// when the predicate holds of it.
pub proof fn lemma_filter_push<A>(s: Seq<A>, pred: spec_fn(A) -> bool, x: A)
    ensures
        s.push(x).filter(pred) == if pred(x) {
            s.filter(pred).push(x)
        } else {
            s.filter(pred)
        },
{
    reveal(Seq::filter);
    assert(s.push(x).drop_last() =~= s);
    assert(s.push(x).last() == x);
}

/// Filtering twice with one predicate is filtering once.
pub proof fn lemma_filter_idempotent<A>(s: Seq<A>, pred: spec_fn(A) -> bool)
    ensures
        s.filter(pred).filter(pred) == s.filter(pred),
    decreases s.len(),
{
    reveal(Seq::filter);
    if s.len() == 0 {
        assert(s.filter(pred) =~= Seq::<A>::empty());
    } else {
        let dl = s.drop_last();
        lemma_filter_idempotent(dl, pred);
        lemma_filter_push(dl, pred, s.last());
        assert(dl.push(s.last()) =~= s);
        if pred(s.last()) {
            lemma_filter_push(dl.filter(pred), pred, s.last());
        }
    }
}

/// A filter that accepts every element returns the sequence unchanged.
pub proof fn lemma_filter_all_true<A>(s: Seq<A>, pred: spec_fn(A) -> bool)
    requires
        forall|i: int| 0 <= i < s.len() ==> pred(#[trigger] s[i]),
    ensures
        s.filter(pred) == s,
    decreases s.len(),
{
    reveal(Seq::filter);
    if s.len() == 0 {
        assert(s.filter(pred) =~= s);
    } else {
        let dl = s.drop_last();
        lemma_filter_all_true(dl, pred);
        lemma_filter_push(dl, pred, s.last());
        assert(dl.push(s.last()) =~= s);
        assert(dl.push(s.last()) == s);
        assert(s.filter(pred) =~= s);
    }
}

/// A filter that rejects every element returns the empty sequence.
pub proof fn lemma_filter_all_false<A>(s: Seq<A>, pred: spec_fn(A) -> bool)
    requires
        forall|i: int| 0 <= i < s.len() ==> !pred(#[trigger] s[i]),
    ensures
        s.filter(pred) == Seq::<A>::empty(),
    decreases s.len(),
{
    reveal(Seq::filter);
    if s.len() == 0 {
        assert(s.filter(pred) =~= Seq::<A>::empty());
    } else {
        let dl = s.drop_last();
        lemma_filter_all_false(dl, pred);
        lemma_filter_push(dl, pred, s.last());
        assert(dl.push(s.last()) =~= s);
        assert(dl.push(s.last()) == s);
    }
}

/// Filtering with a narrower predicate after a wider one is the same as
/// filtering with the narrower one alone.
pub proof fn lemma_filter_narrower<A>(s: Seq<A>, wide: spec_fn(A) -> bool, narrow: spec_fn(A) -> bool)
    requires
        forall|x: A| #[trigger] narrow(x) ==> wide(x),
    ensures
        s.filter(wide).filter(narrow) == s.filter(narrow),
    decreases s.len(),
{
    reveal(Seq::filter);
    if s.len() == 0 {
        assert(s.filter(wide) =~= Seq::<A>::empty());
        assert(s.filter(wide).filter(narrow) =~= Seq::<A>::empty());
        assert(s.filter(narrow) =~= Seq::<A>::empty());
    } else {
        let dl = s.drop_last();
        let last = s.last();
        lemma_filter_narrower(dl, wide, narrow);
        lemma_filter_push(dl, wide, last);
        lemma_filter_push(dl, narrow, last);
        assert(dl.push(last) =~= s);
        assert(dl.push(last) == s);
        if wide(last) {
            lemma_filter_push(dl.filter(wide), narrow, last);
        }
    }
}

} // verus!
