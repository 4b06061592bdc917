//! Splitting sequences at marker elements, and the facts connecting
//! the recursive definitions to scanning by index.

use vstd::prelude::*;

verus! {

/// Everything before the first occurrence of `x` (the whole sequence
/// when absent).
pub open spec fn up_to_first<T>(s: Seq<T>, x: T) -> Seq<T>
    decreases s.len(),
{
    if s.len() == 0 {
        s
    } else if s[0] == x {
        Seq::empty()
    } else {
        seq![s[0]] + up_to_first(s.drop_first(), x)
    }
}

/// Everything after the first occurrence of `x`, when one exists.
pub open spec fn after_first<T>(s: Seq<T>, x: T) -> Option<Seq<T>>
    decreases s.len(),
{
    if s.len() == 0 {
        None
    } else if s[0] == x {
        Some(s.drop_first())
    } else {
        after_first(s.drop_first(), x)
    }
}

/// Everything after the last occurrence of `x` (the whole sequence
/// when absent).
pub open spec fn after_last<T>(s: Seq<T>, x: T) -> Seq<T>
    decreases s.len(),
{
    if s.len() == 0 {
        s
    } else if s.last() == x {
        Seq::empty()
    } else {
        after_last(s.drop_last(), x).push(s.last())
    }
}

/// A scan that stops at index `i` — the first occurrence of `x`, or
/// the end — has found the prefix.
pub proof fn lemma_up_to_first_at<T>(s: Seq<T>, x: T, i: int)
    requires
        0 <= i <= s.len(),
        forall|k: int| 0 <= k < i ==> s[k] != x,
        i == s.len() || s[i] == x,
    ensures
        up_to_first(s, x) == s.take(i),
    decreases i,
{
    if i == 0 {
        assert(s.take(0) =~= Seq::<T>::empty());
        if s.len() != 0 {
            assert(s[0] == x);
        } else {
            assert(up_to_first(s, x) == s);
            assert(s =~= s.take(0));
        }
    } else {
        assert(s[0] != x);
        let t = s.drop_first();
        assert(forall|k: int| 0 <= k < i - 1 ==> t[k] == s[k + 1] && #[trigger] t[k] != x);
        if i - 1 < t.len() {
            assert(t[i - 1] == s[i]);
        }
        lemma_up_to_first_at(t, x, i - 1);
        assert(seq![s[0]] + t.take(i - 1) =~= s.take(i));
    }
}

/// A scan that finds the first occurrence of `x` at index `i` has
/// found the suffix after it.
pub proof fn lemma_after_first_at<T>(s: Seq<T>, x: T, i: int)
    requires
        0 <= i < s.len(),
        forall|k: int| 0 <= k < i ==> s[k] != x,
        s[i] == x,
    ensures
        after_first(s, x) == Some(s.skip(i + 1)),
    decreases i,
{
    if i == 0 {
        assert(after_first(s, x) == Some(s.drop_first()));
        assert(s.drop_first() =~= s.skip(1));
    } else {
        assert(s[0] != x);
        let t = s.drop_first();
        assert(forall|k: int| 0 <= k < i - 1 ==> t[k] == s[k + 1] && #[trigger] t[k] != x);
        assert(t[i - 1] == s[i]);
        lemma_after_first_at(t, x, i - 1);
        assert(t.skip(i) =~= s.skip(i + 1));
    }
}

/// A scan that never meets `x` shows there is no suffix.
pub proof fn lemma_after_first_none<T>(s: Seq<T>, x: T)
    requires
        forall|k: int| 0 <= k < s.len() ==> s[k] != x,
    ensures
        after_first(s, x) is None,
    decreases s.len(),
{
    if s.len() > 0 {
        let t = s.drop_first();
        assert(forall|k: int| 0 <= k < t.len() ==> t[k] == s[k + 1] && #[trigger] t[k] != x);
        lemma_after_first_none(t, x);
    }
}

/// A scan that remembers the position just after the last occurrence
/// of `x` has found the suffix.
pub proof fn lemma_after_last_at<T>(s: Seq<T>, x: T, p: int)
    requires
        0 <= p <= s.len(),
        p == 0 || s[p - 1] == x,
        forall|k: int| p <= k < s.len() ==> s[k] != x,
    ensures
        after_last(s, x) == s.skip(p),
    decreases s.len(),
{
    if s.len() == 0 {
        assert(s.skip(0) =~= s);
    } else if s.last() == x {
        assert(p == s.len());
        assert(s.skip(p) =~= Seq::<T>::empty());
    } else {
        assert(p < s.len());
        let t = s.drop_last();
        assert(forall|k: int| p <= k < t.len() ==> t[k] == s[k] && #[trigger] t[k] != x);
        if p > 0 {
            assert(t[p - 1] == s[p - 1]);
        }
        lemma_after_last_at(t, x, p);
        assert(t.skip(p).push(s.last()) =~= s.skip(p));
    }
}

} // verus!
