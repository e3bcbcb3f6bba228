use vstd::prelude::*;

verus! {

/// Filtering a sequence extended by one element keeps the filtered prefix and
/// appends the element exactly when it satisfies the predicate.
pub proof fn lemma_filter_push<A>(s: Seq<A>, e: A, pred: spec_fn(A) -> bool)
    ensures
        pred(e) ==> s.push(e).filter(pred) == s.filter(pred).push(e),
        !pred(e) ==> s.push(e).filter(pred) == s.filter(pred),
{
    assert(s.push(e) =~= s + seq![e]);
    Seq::<A>::filter_distributes_over_add(s, seq![e], pred);
    reveal_with_fuel(Seq::filter, 2);
    assert(seq![e].drop_last() =~= Seq::<A>::empty());
    if pred(e) {
        assert(s.filter(pred) + seq![e].filter(pred) =~= s.filter(pred).push(e));
    } else {
        assert(s.filter(pred) + seq![e].filter(pred) =~= s.filter(pred));
    }
}

/// Mapping a sequence extended by one element appends the image of that
/// element.
pub proof fn lemma_map_push<A, B>(s: Seq<A>, e: A, f: spec_fn(A) -> B)
    ensures
        s.push(e).map_values(f) == s.map_values(f).push(f(e)),
{
    assert(s.push(e).map_values(f) =~= s.map_values(f).push(f(e)));
}

/// Every element of a filtered sequence is an element of the original.
pub proof fn lemma_filter_members<A>(s: Seq<A>, pred: spec_fn(A) -> bool)
    ensures
        forall|k: int|
            0 <= k < s.filter(pred).len() ==> s.contains(#[trigger] s.filter(pred)[k]),
    decreases s.len(),
{
    reveal_with_fuel(Seq::filter, 2);
    if s.len() == 0 {
        assert(s.filter(pred) =~= Seq::<A>::empty());
    } else {
        let pre = s.drop_last();
        lemma_filter_members(pre, pred);
        lemma_filter_push(pre, s.last(), pred);
        assert(pre.push(s.last()) =~= s);
        assert forall|k: int|
            0 <= k < s.filter(pred).len() implies s.contains(#[trigger] s.filter(pred)[k]) by {
            if k < pre.filter(pred).len() {
                assert(s.filter(pred)[k] == pre.filter(pred)[k]);
                assert(pre.contains(pre.filter(pred)[k]));
                let j = choose|j: int| 0 <= j < pre.len() && pre[j] == pre.filter(pred)[k];
                assert(s[j] == pre.filter(pred)[k]);
            } else {
                assert(s.filter(pred)[k] == s.last());
                assert(s[s.len() - 1] == s.last());
            }
        }
    }
}

} // verus!
