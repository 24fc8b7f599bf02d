//! Index lists: membership, and the ascending enumeration of the indices
//! of a set.

use vstd::prelude::*;

verus! {

/// The indices below `bound` in `set`, in ascending order.
pub open spec fn ids_in(set: Set<u32>, bound: nat) -> Seq<u32>
    decreases bound,
{
    if bound == 0 {
        Seq::empty()
    } else {
        let below = ids_in(set, (bound - 1) as nat);
        if bound - 1 <= u32::MAX && set.contains((bound - 1) as u32) {
            below.push((bound - 1) as u32)
        } else {
            below
        }
    }
}

/// All the indices in `set`, in ascending order.
pub open spec fn all_ids_in(set: Set<u32>) -> Seq<u32> {
    ids_in(set, 0x1_0000_0000)
}

/// An index is enumerated exactly when it is below the bound and is in the set.
pub proof fn lemma_ids_in_contains(set: Set<u32>, bound: nat, k: u32)
    ensures
        ids_in(set, bound).contains(k) <==> (k < bound && set.contains(k)),
    decreases bound,
{
    if bound > 0 {
        let below = ids_in(set, (bound - 1) as nat);
        lemma_ids_in_contains(set, (bound - 1) as nat, k);
        if bound - 1 <= u32::MAX && set.contains((bound - 1) as u32) {
            lemma_push_contains(below, (bound - 1) as u32);
        }
    }
}

/// The enumeration is strictly ascending and stays below its bound.
pub proof fn lemma_ids_in_ascending(set: Set<u32>, bound: nat)
    ensures
        forall|i: int, j: int|
            0 <= i < j < ids_in(set, bound).len() ==> #[trigger] ids_in(set, bound)[i]
                < #[trigger] ids_in(set, bound)[j],
        forall|i: int|
            0 <= i < ids_in(set, bound).len() ==> (#[trigger] ids_in(set, bound)[i]) < bound,
    decreases bound,
{
    let s = ids_in(set, bound);
    if bound > 0 {
        let below = ids_in(set, (bound - 1) as nat);
        lemma_ids_in_ascending(set, (bound - 1) as nat);
        assert forall|i: int| 0 <= i < s.len() implies (#[trigger] s[i]) < bound by {
            if i < below.len() {
                assert(s[i] == below[i]);
            }
        }
        assert forall|i: int, j: int| 0 <= i < j < s.len() implies #[trigger] s[i] < #[trigger] s[j] by {
            assert(s[i] == below[i]);
            if j < below.len() {
                assert(s[j] == below[j]);
            }
        }
    }
}

/// Nothing is enumerated between two bounds that hold no index of the set.
pub proof fn lemma_ids_in_gap(set: Set<u32>, lo: nat, hi: nat)
    requires
        lo <= hi,
        forall|k: u32| lo <= k < hi ==> !set.contains(k),
    ensures
        ids_in(set, hi) == ids_in(set, lo),
    decreases hi - lo,
{
    if lo < hi {
        lemma_ids_in_gap(set, lo, (hi - 1) as nat);
    }
}

/// The least bound above the first `i` indices of an ascending list.
pub open spec fn bound_before(ids: Seq<u32>, i: int) -> nat {
    if i <= 0 {
        0
    } else {
        (ids[i - 1] + 1) as nat
    }
}

/// An ascending list that holds every index of the set.
pub open spec fn lists_all(ids: Seq<u32>, set: Set<u32>) -> bool {
    &&& forall|i: int, j: int| 0 <= i < j < ids.len() ==> ids[i] < ids[j]
    &&& forall|k: u32| set.contains(k) ==> ids.contains(k)
}

/// Walking an ascending list that holds every index of the set, the
/// enumeration grows by the index at hand where it is in the set, and by
/// nothing else.
pub proof fn lemma_ids_in_next(set: Set<u32>, ids: Seq<u32>, i: int)
    requires
        lists_all(ids, set),
        0 <= i < ids.len(),
    ensures
        bound_before(ids, i) <= ids[i] < bound_before(ids, i + 1),
        ids_in(set, bound_before(ids, i + 1)) == if set.contains(ids[i]) {
            ids_in(set, bound_before(ids, i)).push(ids[i])
        } else {
            ids_in(set, bound_before(ids, i))
        },
{
    let lo = bound_before(ids, i);
    let hi = ids[i] as nat;
    assert forall|k: u32| lo <= k < hi implies !set.contains(k) by {
        if set.contains(k) {
            let j = choose|j: int| 0 <= j < ids.len() && ids[j] == k;
            if j < i {
                if j < i - 1 {
                    assert(ids[j] < ids[i - 1]);
                }
            } else if j > i {
                assert(ids[i] < ids[j]);
            }
        }
    }
    lemma_ids_in_gap(set, lo, hi);
    assert(bound_before(ids, i + 1) == hi + 1);
}

/// Past the end of such a list nothing more is enumerated.
pub proof fn lemma_ids_in_rest(set: Set<u32>, ids: Seq<u32>)
    requires
        lists_all(ids, set),
    ensures
        all_ids_in(set) == ids_in(set, bound_before(ids, ids.len() as int)),
{
    let lo = bound_before(ids, ids.len() as int);
    assert forall|k: u32| lo <= k < 0x1_0000_0000 implies !set.contains(k) by {
        if set.contains(k) {
            let j = choose|j: int| 0 <= j < ids.len() && ids[j] == k;
            if j < ids.len() - 1 {
                assert(ids[j] < ids[ids.len() - 1]);
            }
        }
    }
    lemma_ids_in_gap(set, lo, 0x1_0000_0000);
}

/// Membership in a list with one more element.
pub proof fn lemma_push_contains(s: Seq<u32>, y: u32)
    ensures
        forall|x: u32| #[trigger] s.push(y).contains(x) <==> (s.contains(x) || x == y),
{
    assert forall|x: u32| s.push(y).contains(x) <==> (s.contains(x) || x == y) by {
        if s.push(y).contains(x) {
            let i = choose|i: int| 0 <= i < s.push(y).len() && s.push(y)[i] == x;
            if i < s.len() {
                assert(s[i] == x);
            }
        }
        if s.contains(x) {
            let i = choose|i: int| 0 <= i < s.len() && s[i] == x;
            assert(s.push(y)[i] == x);
        }
        if x == y {
            assert(s.push(y)[s.len() as int] == x);
        }
    }
}

/// Whether `x` occurs in `v`.
pub fn contains_id(v: &Vec<u32>, x: u32) -> (found: bool)
    ensures
        found == v@.contains(x),
{
    let mut i: usize = 0;
    while i < v.len()
        invariant
            i <= v.len(),
            forall|j: int| 0 <= j < i ==> v@[j] != x,
        decreases v.len() - i,
    {
        if v[i] == x {
            return true;
        }
        i += 1;
    }
    false
}

} // verus!
