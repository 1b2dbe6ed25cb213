//! Generic facts about sequences.
use vstd::prelude::*;

verus! {

/// The first place of `x` in `s`, if any.
pub open spec fn first_index<A>(s: Seq<A>, x: A) -> Option<int>
    decreases s.len(),
{
    if s.len() == 0 {
        None
    } else if s[0] == x {
        Some(0)
    } else {
        match first_index(s.drop_first(), x) {
            Some(k) => Some(k + 1),
            None => None,
        }
    }
}

/// `k` is the first place of `x` in `s` when `s[k]` is `x` and no earlier
/// element is.
pub proof fn lemma_first_index_found<A>(s: Seq<A>, x: A, k: int)
    requires
        0 <= k < s.len(),
        s[k] == x,
        forall|i: int| 0 <= i < k ==> s[i] != x,
    ensures
        first_index(s, x) == Some(k),
    decreases k,
{
    if k > 0 {
        lemma_first_index_found(s.drop_first(), x, k - 1);
    }
}

/// An element that does not occur has no first place.
pub proof fn lemma_first_index_absent<A>(s: Seq<A>, x: A)
    requires
        forall|i: int| 0 <= i < s.len() ==> s[i] != x,
    ensures
        first_index(s, x) is None,
    decreases s.len(),
{
    if s.len() > 0 {
        lemma_first_index_absent(s.drop_first(), x);
    }
}

/// An element that occurs has a first place, which holds it.
pub proof fn lemma_first_index_of_contained<A>(s: Seq<A>, x: A)
    requires
        s.contains(x),
    ensures
        first_index(s, x) is Some,
        0 <= first_index(s, x)->0 < s.len(),
        s[first_index(s, x)->0] == x,
    decreases s.len(),
{
    if s[0] != x {
        let k = choose|k: int| 0 <= k < s.len() && s[k] == x;
        assert(s.drop_first()[k - 1] == x);
        lemma_first_index_of_contained(s.drop_first(), x);
    }
}

} // verus!
