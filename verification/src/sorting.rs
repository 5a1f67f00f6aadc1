//! Sorting.
use vstd::prelude::*;
use crate::fst_map::bytes_lt;

verus! {

/// The order of pairs: by the first component, then by the second.
pub open spec fn pair_le(a: (u64, u64), b: (u64, u64)) -> bool {
    a.0 < b.0 || (a.0 == b.0 && a.1 <= b.1)
}

pub open spec fn pairs_sorted(s: Seq<(u64, u64)>) -> bool {
    forall|i: int, j: int| 0 <= i <= j < s.len() ==> pair_le(#[trigger] s[i], #[trigger] s[j])
}

/// `slice::sort_unstable` on pairs of integers, which compare by their
/// components from left to right: the same pairs, in ascending order.
#[verifier::external_body]
pub(crate) fn sort_pairs(v: &mut Vec<(u64, u64)>)
    ensures
        pairs_sorted(final(v)@),
        final(v)@.to_multiset() == old(v)@.to_multiset(),
{
    v.sort_unstable();
}

/// `slice::sort_unstable` on pairs of a byte string and a number, which compare
/// by their components from left to right, byte strings lexicographically: the
/// same pairs, with no key before a lesser one, and pairs with the same key in
/// the order of their numbers.
#[verifier::external_body]
pub(crate) fn sort_keys(v: &mut Vec<(Vec<u8>, u64)>)
    ensures
        forall|i: int, j: int|
            0 <= i < j < final(v)@.len() ==> !bytes_lt(
                (#[trigger] final(v)@[j]).0@,
                (#[trigger] final(v)@[i]).0@,
            ) && (final(v)@[i].0@ == final(v)@[j].0@ ==> final(v)@[i].1 <= final(v)@[j].1),
        final(v)@.to_multiset() == old(v)@.to_multiset(),
{
    v.sort_unstable();
}

/// The key of each entry with its position, in ascending order.
pub open spec fn keyed(keys: Seq<u64>, r: Seq<u64>) -> bool {
    &&& r.len() == keys.len()
    &&& forall|i: int| 0 <= i < r.len() ==> (#[trigger] r[i]) < keys.len()
    &&& forall|i: int, j: int|
        0 <= i < j < r.len() ==> pair_lt((keys[#[trigger] r[i] as int], r[i]), (keys[#[trigger] r[j] as int], r[j]))
    &&& forall|k: int| 0 <= k < keys.len() ==> #[trigger] r.contains(k as u64)
}

pub open spec fn pair_lt(a: (u64, u64), b: (u64, u64)) -> bool {
    a.0 < b.0 || (a.0 == b.0 && a.1 < b.1)
}

/// The positions of `keys` in the order of the keys; equal keys keep their
/// order.
pub fn sort_positions(keys: &[u64]) -> (r: Vec<u64>)
    ensures
        keyed(keys@, r@),
{
    let n: usize = keys.len();
    let mut pairs: Vec<(u64, u64)> = Vec::new();
    for i in 0..n
        invariant
            n == keys@.len(),
            pairs@.len() == i,
            forall|j: int| 0 <= j < i ==> #[trigger] pairs@[j] == (keys@[j], j as u64),
    {
        pairs.push((keys[i], i as u64));
    }
    let ghost given = pairs@;
    sort_pairs(&mut pairs);
    proof {
        lemma_same_members(given, pairs@);
        lemma_no_repeats(keys@, given, pairs@);
    }
    let mut out: Vec<u64> = Vec::new();
    for i in 0..n
        invariant
            n == pairs@.len(),
            out@.len() == i,
            forall|j: int| 0 <= j < i ==> #[trigger] out@[j] == pairs@[j].1,
    {
        out.push(pairs[i].1);
    }
    proof {
        assert forall|i: int| 0 <= i < out@.len() implies (#[trigger] out@[i]) < keys@.len() && pairs@[i]
            == (keys@[out@[i] as int], out@[i]) by {
            assert(given.contains(pairs@[i]));
            let a = choose|a: int| 0 <= a < given.len() && given[a] == pairs@[i];
            assert(given[a] == (keys@[a], a as u64));
        }
        assert forall|i: int, j: int| 0 <= i < j < out@.len() implies pair_lt(
            (keys@[#[trigger] out@[i] as int], out@[i]),
            (keys@[#[trigger] out@[j] as int], out@[j]),
        ) by {
            assert(pair_le(pairs@[i], pairs@[j]));
            assert(pairs@[i] != pairs@[j]);
        }
        assert forall|k: int| 0 <= k < keys@.len() implies #[trigger] out@.contains(k as u64) by {
            assert(given[k] == (keys@[k], k as u64));
            assert(pairs@.contains(given[k]));
            let b = choose|b: int| 0 <= b < pairs@.len() && pairs@[b] == given[k];
            assert(out@[b] == k as u64);
        }
    }
    out
}

proof fn lemma_same_members(a: Seq<(u64, u64)>, b: Seq<(u64, u64)>)
    requires
        a.to_multiset() == b.to_multiset(),
    ensures
        a.len() == b.len(),
        forall|i: int| 0 <= i < b.len() ==> a.contains(#[trigger] b[i]),
        forall|i: int| 0 <= i < a.len() ==> b.contains(#[trigger] a[i]),
{
    vstd::seq_lib::to_multiset_len(a);
    vstd::seq_lib::to_multiset_len(b);
    assert forall|i: int| 0 <= i < b.len() implies a.contains(#[trigger] b[i]) by {
        vstd::seq_lib::to_multiset_contains(b, b[i]);
        vstd::seq_lib::to_multiset_contains(a, b[i]);
    }
    assert forall|i: int| 0 <= i < a.len() implies b.contains(#[trigger] a[i]) by {
        vstd::seq_lib::to_multiset_contains(a, a[i]);
        vstd::seq_lib::to_multiset_contains(b, a[i]);
    }
}

proof fn lemma_no_repeats(keys: Seq<u64>, given: Seq<(u64, u64)>, sorted: Seq<(u64, u64)>)
    requires
        given.len() == keys.len(),
        keys.len() <= u64::MAX,
        forall|j: int| 0 <= j < given.len() ==> #[trigger] given[j] == (keys[j], j as u64),
        given.to_multiset() == sorted.to_multiset(),
    ensures
        forall|i: int, j: int| 0 <= i < j < sorted.len() ==> sorted[i] != sorted[j],
{
    assert(given.no_duplicates()) by {
        assert forall|i: int, j: int| 0 <= i < j < given.len() implies given[i] != given[j] by {
            assert(given[i].1 != given[j].1);
        }
    }
    given.lemma_multiset_has_no_duplicates();
    assert(sorted.to_multiset() == given.to_multiset());
    sorted.lemma_multiset_has_no_duplicates_conv();
}

} // verus!
