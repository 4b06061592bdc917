//! Shared facts about sequence filtering used by the state transitions.

use vstd::prelude::*;

verus! {

/// Everything a filter keeps comes from the source and satisfies the
/// predicate.
pub proof fn lemma_filter_sub<A>(s: Seq<A>, p: spec_fn(A) -> bool)
    ensures
        forall|x: A| #[trigger] s.filter(p).contains(x) ==> s.contains(x) && p(x),
    decreases s.len(),
{
    reveal(Seq::filter);
    if s.len() > 0 {
        let ds = s.drop_last();
        lemma_filter_sub(ds, p);
        assert forall|x: A| #[trigger] s.filter(p).contains(x) implies s.contains(x) && p(x) by {
            if ds.filter(p).contains(x) {
                let i = choose|i: int| 0 <= i < ds.len() && ds[i] == x;
                assert(s[i] == x);
            } else {
                assert(p(s.last()) && x == s.last());
                assert(s[s.len() - 1] == x);
            }
        }
    }
}

/// Filtering a duplicate-free sequence leaves it duplicate-free.
pub proof fn lemma_filter_distinct<A>(s: Seq<A>, p: spec_fn(A) -> bool)
    requires
        s.no_duplicates(),
    ensures
        s.filter(p).no_duplicates(),
    decreases s.len(),
{
    reveal(Seq::filter);
    if s.len() > 0 {
        let ds = s.drop_last();
        assert(ds.no_duplicates());
        lemma_filter_distinct(ds, p);
        lemma_filter_sub(ds, p);
        if p(s.last()) {
            assert(!ds.contains(s.last())) by {
                if ds.contains(s.last()) {
                    let i = choose|i: int| 0 <= i < ds.len() && ds[i] == s.last();
                    assert(s[i] == s[s.len() - 1]);
                }
            }
            assert(!ds.filter(p).contains(s.last()));
            assert(s.filter(p) == ds.filter(p).push(s.last()));
            assert(s.filter(p).no_duplicates());
        }
    }
}

/// One scanning step: filtering a prefix extended by one element.
pub proof fn lemma_filter_take_step<A>(s: Seq<A>, p: spec_fn(A) -> bool, i: int)
    requires
        0 <= i < s.len(),
    ensures
        s.take(i + 1).filter(p) == if p(s[i]) {
            s.take(i).filter(p).push(s[i])
        } else {
            s.take(i).filter(p)
        },
{
    reveal(Seq::filter);
    assert(s.take(i + 1).drop_last() =~= s.take(i));
    assert(s.take(i + 1).last() == s[i]);
}

/// Filtering the full take is filtering the sequence itself.
pub proof fn lemma_filter_take_all<A>(s: Seq<A>, p: spec_fn(A) -> bool)
    ensures
        s.take(s.len() as int).filter(p) == s.filter(p),
{
    assert(s.take(s.len() as int) =~= s);
}

} // verus!
