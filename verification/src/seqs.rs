//! Facts about filtering and mapping sequences that the indices rest on.

use vstd::prelude::*;

verus! {

/// One item where `keep` holds, none where it does not.
pub open spec fn singleton_if<A>(keep: bool, x: A) -> Seq<A> {
    if keep {
        seq![x]
    } else {
        Seq::empty()
    }
}

/// Filtering keeps a listing whose items all pass.
pub proof fn lemma_filter_all<A>(s: Seq<A>, pred: spec_fn(A) -> bool)
    requires
        forall|i: int| 0 <= i < s.len() ==> pred(#[trigger] s[i]),
    ensures
        s.filter(pred) == s,
    decreases s.len(),
{
    reveal(Seq::filter);
    if s.len() > 0 {
        assert forall|i: int| 0 <= i < s.drop_last().len() implies pred(
            #[trigger] s.drop_last()[i],
        ) by {
            assert(pred(s[i]));
        }
        lemma_filter_all(s.drop_last(), pred);
        assert(pred(s[s.len() - 1]));
        assert(s.drop_last().push(s.last()) =~= s);
    }
}

/// Filtering empties a listing none of whose items passes.
pub proof fn lemma_filter_none<A>(s: Seq<A>, pred: spec_fn(A) -> bool)
    requires
        forall|i: int| 0 <= i < s.len() ==> !pred(#[trigger] s[i]),
    ensures
        s.filter(pred) == Seq::<A>::empty(),
    decreases s.len(),
{
    reveal(Seq::filter);
    if s.len() > 0 {
        assert forall|i: int| 0 <= i < s.drop_last().len() implies !pred(
            #[trigger] s.drop_last()[i],
        ) by {
            assert(!pred(s[i]));
        }
        lemma_filter_none(s.drop_last(), pred);
        assert(!pred(s[s.len() - 1]));
    } else {
        assert(s.filter(pred) =~= Seq::<A>::empty());
    }
}

/// Filtering a single item.
pub proof fn lemma_filter_one<A>(x: A, pred: spec_fn(A) -> bool)
    ensures
        seq![x].filter(pred) == singleton_if(pred(x), x),
{
    let s = seq![x];
    if pred(x) {
        assert(pred(s[0]));
        lemma_filter_all(s, pred);
    } else {
        assert(!pred(s[0]));
        lemma_filter_none(s, pred);
    }
}

/// In a listing where the items that pass are exactly those from `lo` up to
/// `hi`, filtering yields that stretch.
pub proof fn lemma_filter_stretch<A>(s: Seq<A>, pred: spec_fn(A) -> bool, lo: int, hi: int)
    requires
        0 <= lo <= hi <= s.len(),
        forall|i: int| 0 <= i < s.len() ==> (pred(#[trigger] s[i]) <==> lo <= i < hi),
    ensures
        s.filter(pred) == s.subrange(lo, hi),
{
    let a = s.subrange(0, lo);
    let b = s.subrange(lo, hi);
    let c = s.subrange(hi, s.len() as int);
    assert(s =~= (a + b) + c);
    assert forall|i: int| 0 <= i < a.len() implies !pred(#[trigger] a[i]) by {
        assert(a[i] == s[i]);
    }
    assert forall|i: int| 0 <= i < b.len() implies pred(#[trigger] b[i]) by {
        assert(b[i] == s[lo + i]);
    }
    assert forall|i: int| 0 <= i < c.len() implies !pred(#[trigger] c[i]) by {
        assert(c[i] == s[hi + i]);
    }
    lemma_filter_none(a, pred);
    lemma_filter_all(b, pred);
    lemma_filter_none(c, pred);
    Seq::filter_distributes_over_add(a + b, c, pred);
    Seq::filter_distributes_over_add(a, b, pred);
    assert((a.filter(pred) + b.filter(pred)) + c.filter(pred) =~= b);
}

/// Filtering a listing with `x` at position `i`: what passes before `i`, `x`
/// if it passes, and what passes after `i`.
pub proof fn lemma_filter_around<A>(s: Seq<A>, i: int, x: A, pred: spec_fn(A) -> bool)
    requires
        0 <= i < s.len(),
    ensures
        s.update(i, x).filter(pred) == s.take(i).filter(pred) + singleton_if(pred(x), x) + s.skip(
            i + 1,
        ).filter(pred),
{
    let a = s.take(i);
    let c = s.skip(i + 1);
    assert(s.update(i, x) =~= (a + seq![x]) + c);
    Seq::filter_distributes_over_add(a + seq![x], c, pred);
    Seq::filter_distributes_over_add(a, seq![x], pred);
    lemma_filter_one(x, pred);
}

/// Filtering a listing, split at position `i`.
pub proof fn lemma_filter_split<A>(s: Seq<A>, i: int, pred: spec_fn(A) -> bool)
    requires
        0 <= i < s.len(),
    ensures
        s.filter(pred) == s.take(i).filter(pred) + singleton_if(pred(s[i]), s[i]) + s.skip(
            i + 1,
        ).filter(pred),
{
    assert(s.update(i, s[i]) =~= s);
    lemma_filter_around(s, i, s[i], pred);
}

/// Every item of a filtered listing is an item of the listing that passes.
pub proof fn lemma_filter_member<A>(s: Seq<A>, pred: spec_fn(A) -> bool, k: int)
    requires
        0 <= k < s.filter(pred).len(),
    ensures
        pred(s.filter(pred)[k]),
        s.contains(s.filter(pred)[k]),
{
    s.lemma_filter_pred(pred, k);
    let x = s.filter(pred)[k];
    assert(s.filter(pred).contains(x));
    s.lemma_filter_contains_rev(pred, x);
}

/// Filtering keeps a relation that holds between every item and every later one.
pub proof fn lemma_filter_keeps_order<A>(
    s: Seq<A>,
    pred: spec_fn(A) -> bool,
    before: spec_fn(A, A) -> bool,
)
    requires
        forall|i: int, j: int| 0 <= i < j < s.len() ==> before(#[trigger] s[i], #[trigger] s[j]),
    ensures
        forall|i: int, j: int|
            0 <= i < j < s.filter(pred).len() ==> before(
                #[trigger] s.filter(pred)[i],
                #[trigger] s.filter(pred)[j],
            ),
    decreases s.len(),
{
    reveal(Seq::filter);
    if s.len() > 0 {
        let s0 = s.drop_last();
        let f0 = s0.filter(pred);
        let f = s.filter(pred);
        assert forall|i: int, j: int| 0 <= i < j < s0.len() implies before(
            #[trigger] s0[i],
            #[trigger] s0[j],
        ) by {
            assert(before(s[i], s[j]));
        }
        lemma_filter_keeps_order(s0, pred, before);
        assert forall|i: int, j: int| 0 <= i < j < f.len() implies before(
            #[trigger] f[i],
            #[trigger] f[j],
        ) by {
            if j < f0.len() {
                assert(before(f0[i], f0[j]));
            } else {
                assert(f[j] == s.last());
                assert(f[i] == f0[i]);
                lemma_filter_member(s0, pred, i);
                let k = choose|k: int| 0 <= k < s0.len() && s0[k] == f0[i];
                assert(before(s[k], s[s.len() - 1]));
            }
        }
    }
}

/// Mapping goes through joining.
pub proof fn lemma_map_add<A, B>(a: Seq<A>, b: Seq<A>, f: spec_fn(A) -> B)
    ensures
        (a + b).map_values(f) == a.map_values(f) + b.map_values(f),
{
    assert((a + b).map_values(f) =~= a.map_values(f) + b.map_values(f));
}

} // verus!
