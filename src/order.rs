//! Ordering lists of rates, busiest first.
use vstd::prelude::*;

verus! {

/// `s` runs from the largest value to the smallest.
pub open spec fn sorted_desc(s: Seq<i64>) -> bool {
    forall|a: int, b: int| 0 <= a < b < s.len() ==> s[a] >= s[b]
}

/// Sorts `v` in place, largest first, keeping its values.
pub fn sort_desc(v: &mut Vec<i64>)
    ensures
        final(v)@.len() == old(v)@.len(),
        final(v)@.to_multiset() == old(v)@.to_multiset(),
        sorted_desc(final(v)@),
{
    broadcast use vstd::seq_lib::group_to_multiset_ensures, vstd::multiset::group_multiset_axioms;

    let n = v.len();
    if n == 0 {
        return ;
    }
    let ghost start = v@;
    let mut i: usize = 1;
    while i < n
        invariant
            1 <= i <= n,
            n == v@.len(),
            v@.to_multiset() == start.to_multiset(),
            forall|a: int, b: int| 0 <= a < b < i ==> v@[a] >= v@[b],
        decreases n - i,
    {
        let mut j: usize = i;
        while j > 0 && v[j - 1] < v[j]
            invariant
                0 <= j <= i < n,
                n == v@.len(),
                v@.to_multiset() == start.to_multiset(),
                forall|a: int, b: int|
                    0 <= a < b <= i && a != j && b != j ==> v@[a] >= v@[b],
                forall|k: int| j < k <= i ==> v@[j as int] >= v@[k],
            decreases j,
        {
            let hi = v[j];
            let lo = v[j - 1];
            let ghost s0 = v@;
            v.set(j - 1, hi);
            let ghost s1 = v@;
            v.set(j, lo);
            proof {
                let m = s0.to_multiset();
                assert(s1 == s0.update(j - 1, hi));
                assert(v@ == s1.update(j as int, lo));
                vstd::seq_lib::to_multiset_update(s0, j - 1, hi);
                vstd::seq_lib::to_multiset_update(s1, j as int, lo);
                assert(s1.to_multiset() == m.insert(hi).remove(lo));
                assert(v@.to_multiset() == s1.to_multiset().insert(lo).remove(hi));
                assert(s0[j - 1] == lo);
                assert(s0.contains(lo));
                vstd::seq_lib::to_multiset_contains(s0, lo);
                assert(m.count(lo) > 0);
                assert(m.insert(hi).remove(lo).insert(lo).remove(hi) =~= m);
            }
            j = j - 1;
        }
        i = i + 1;
    }
}

} // verus!
