//! Facts about fixed-capacity slot tables: first matching slot and occupied-slot counts.
use vstd::prelude::*;

verus! {

/// Index of the first element of `s` satisfying `p`, or -1 when none does.
pub open spec fn first_index<T>(s: Seq<T>, p: spec_fn(T) -> bool) -> int
    decreases s.len(),
{
    if s.len() == 0 {
        -1
    } else {
        let r = first_index(s.drop_last(), p);
        if r >= 0 {
            r
        } else if p(s.last()) {
            s.len() - 1
        } else {
            -1
        }
    }
}

/// Number of occupied (`Some`) slots.
pub open spec fn count_some<T>(s: Seq<Option<T>>) -> nat
    decreases s.len(),
{
    if s.len() == 0 {
        0
    } else {
        count_some(s.drop_last()) + if s.last() is Some { 1nat } else { 0nat }
    }
}

/// `first_index` is the least index satisfying `p`, and -1 exactly when no index does.
pub proof fn lemma_first_index<T>(s: Seq<T>, p: spec_fn(T) -> bool)
    ensures
        -1 <= first_index(s, p) < s.len(),
        first_index(s, p) >= 0 ==> p(s[first_index(s, p)]),
        forall|j: int| 0 <= j < first_index(s, p) ==> !p(#[trigger] s[j]),
        first_index(s, p) == -1 ==> forall|j: int| 0 <= j < s.len() ==> !p(#[trigger] s[j]),
    decreases s.len(),
{
    if s.len() > 0 {
        lemma_first_index(s.drop_last(), p);
        let r = first_index(s.drop_last(), p);
        if r < 0 {
            assert forall|j: int| 0 <= j < s.len() - 1 implies !p(#[trigger] s[j]) by {
                assert(s[j] == s.drop_last()[j]);
            }
        } else {
            assert forall|j: int| 0 <= j < r implies !p(#[trigger] s[j]) by {
                assert(s[j] == s.drop_last()[j]);
            }
            assert(s[r] == s.drop_last()[r]);
        }
    }
}

/// An index is the first match exactly when it matches and nothing before it does.
pub proof fn lemma_first_index_is<T>(s: Seq<T>, p: spec_fn(T) -> bool, k: int)
    requires
        0 <= k < s.len(),
        p(s[k]),
        forall|j: int| 0 <= j < k ==> !p(#[trigger] s[j]),
    ensures
        first_index(s, p) == k,
{
    lemma_first_index(s, p);
}

/// With no match at all, `first_index` is -1.
pub proof fn lemma_first_index_none<T>(s: Seq<T>, p: spec_fn(T) -> bool)
    requires
        forall|j: int| 0 <= j < s.len() ==> !p(#[trigger] s[j]),
    ensures
        first_index(s, p) == -1,
{
    lemma_first_index(s, p);
    if first_index(s, p) >= 0 {
        assert(p(s[first_index(s, p)]));
    }
}

/// Emptying an occupied slot lowers the count by one; filling an empty slot raises it by one;
/// replacing an occupied slot by another occupied value keeps it.
pub proof fn lemma_count_some_update<T>(s: Seq<Option<T>>, i: int, v: Option<T>)
    requires
        0 <= i < s.len(),
    ensures
        count_some(s.update(i, v)) + (if s[i] is Some { 1int } else { 0int }) == count_some(s) + (
        if v is Some { 1int } else { 0int }),
    decreases s.len(),
{
    let t = s.update(i, v);
    if i == s.len() - 1 {
        assert(t.drop_last() =~= s.drop_last());
    } else {
        lemma_count_some_update(s.drop_last(), i, v);
        assert(t.drop_last() =~= s.drop_last().update(i, v));
    }
}

/// The count never exceeds the number of slots, and reaches it exactly when every slot is
/// occupied.
pub proof fn lemma_count_some_bound<T>(s: Seq<Option<T>>)
    ensures
        count_some(s) <= s.len(),
        (forall|j: int| 0 <= j < s.len() ==> (#[trigger] s[j]) is Some) ==> count_some(s) == s.len(),
        count_some(s) == s.len() ==> forall|j: int| 0 <= j < s.len() ==> (#[trigger] s[j]) is Some,
        (forall|j: int| 0 <= j < s.len() ==> (#[trigger] s[j]) is None) ==> count_some(s) == 0,
    decreases s.len(),
{
    if s.len() > 0 {
        lemma_count_some_bound(s.drop_last());
        assert forall|j: int| 0 <= j < s.len() - 1 implies s.drop_last()[j] == #[trigger] s[j] by {}
        if forall|j: int| 0 <= j < s.len() ==> (#[trigger] s[j]) is Some {
            assert forall|j: int| 0 <= j < s.len() - 1 implies (#[trigger] s.drop_last()[j]) is Some by {
                assert(s.drop_last()[j] == s[j]);
            }
        }
    }
}

} // verus!
