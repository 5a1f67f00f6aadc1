//! The order of floating-point numbers, on their bit patterns.
//!
//! Distances and areas are computed outside of this library and reach it as
//! IEEE-754 bit patterns. All it does with them is compare.
use vstd::prelude::*;

verus! {

/// Where the number with the bit pattern `bits` (binary64) stands among all
/// numbers. A NaN stands nowhere, and the two zeros stand at the same place.
pub open spec fn rank64(bits: u64) -> Option<int> {
    let mag = (bits % 0x8000_0000_0000_0000) as int;
    if mag > 0x7ff0_0000_0000_0000 {
        None
    } else if bits >= 0x8000_0000_0000_0000 {
        Some(-mag)
    } else {
        Some(mag)
    }
}

/// Where the number with the bit pattern `bits` (binary32) stands among all
/// numbers.
pub open spec fn rank32(bits: u32) -> Option<int> {
    let mag = (bits % 0x8000_0000) as int;
    if mag > 0x7f80_0000 {
        None
    } else if bits >= 0x8000_0000 {
        Some(-mag)
    } else {
        Some(mag)
    }
}

/// `a < b`. No comparison with a NaN holds.
pub open spec fn lt64(a: u64, b: u64) -> bool {
    rank64(a) is Some && rank64(b) is Some && rank64(a)->0 < rank64(b)->0
}

/// `a < b`. No comparison with a NaN holds.
pub open spec fn lt32(a: u32, b: u32) -> bool {
    rank32(a) is Some && rank32(b) is Some && rank32(a)->0 < rank32(b)->0
}

/// `a <= b`. No comparison with a NaN holds.
pub open spec fn le64(a: u64, b: u64) -> bool {
    rank64(a) is Some && rank64(b) is Some && rank64(a)->0 <= rank64(b)->0
}

/// `a <= b`. No comparison with a NaN holds.
pub open spec fn le32(a: u32, b: u32) -> bool {
    rank32(a) is Some && rank32(b) is Some && rank32(a)->0 <= rank32(b)->0
}

/// Whether the number is neither infinite nor a NaN.
pub open spec fn finite32(bits: u32) -> bool {
    bits % 0x8000_0000 < 0x7f80_0000
}

pub fn is_finite32(bits: u32) -> (r: bool)
    ensures
        r == finite32(bits),
{
    bits % 0x8000_0000 < 0x7f80_0000
}

fn place64(bits: u64) -> (r: Option<i64>)
    ensures
        match r {
            Some(k) => rank64(bits) == Some(k as int),
            None => rank64(bits) is None,
        },
{
    let mag: i64 = (bits % 0x8000_0000_0000_0000) as i64;
    if mag > 0x7ff0_0000_0000_0000 {
        None
    } else if bits >= 0x8000_0000_0000_0000 {
        Some(-mag)
    } else {
        Some(mag)
    }
}

fn place32(bits: u32) -> (r: Option<i64>)
    ensures
        match r {
            Some(k) => rank32(bits) == Some(k as int),
            None => rank32(bits) is None,
        },
{
    let mag: i64 = (bits % 0x8000_0000) as i64;
    if mag > 0x7f80_0000 {
        None
    } else if bits >= 0x8000_0000 {
        Some(-mag)
    } else {
        Some(mag)
    }
}

pub fn less64(a: u64, b: u64) -> (r: bool)
    ensures
        r == lt64(a, b),
{
    match (place64(a), place64(b)) {
        (Some(x), Some(y)) => x < y,
        _ => false,
    }
}

pub fn at_most64(a: u64, b: u64) -> (r: bool)
    ensures
        r == le64(a, b),
{
    match (place64(a), place64(b)) {
        (Some(x), Some(y)) => x <= y,
        _ => false,
    }
}

pub fn less32(a: u32, b: u32) -> (r: bool)
    ensures
        r == lt32(a, b),
{
    match (place32(a), place32(b)) {
        (Some(x), Some(y)) => x < y,
        _ => false,
    }
}

pub fn at_most32(a: u32, b: u32) -> (r: bool)
    ensures
        r == le32(a, b),
{
    match (place32(a), place32(b)) {
        (Some(x), Some(y)) => x <= y,
        _ => false,
    }
}

// --- Nearest candidates ---
/// A record met in a scan, with the bit pattern of its distance.
#[derive(Clone, Copy)]
pub struct Candidate {
    pub id: u32,
    pub dist: u64,
}

/// The position that a scan over the marked candidates settles on: the first
/// of them, and then each that is closer than the one before.
pub open spec fn nearest(cands: Seq<Candidate>, marks: Seq<bool>) -> Option<int>
    decreases cands.len(),
{
    if cands.len() == 0 {
        None
    } else {
        let n = cands.len() - 1;
        match nearest(cands.drop_last(), marks) {
            None => if marks[n] {
                Some(n)
            } else {
                None
            },
            Some(b) => if marks[n] && lt64(cands[n].dist, cands[b].dist) {
                Some(n)
            } else {
                Some(b)
            },
        }
    }
}

/// Where all distances are numbers, the scan settles on a marked candidate
/// that no marked candidate is closer than, and on the first of several such.
pub proof fn law_nearest_is_minimal(cands: Seq<Candidate>, marks: Seq<bool>)
    requires
        marks.len() >= cands.len(),
        forall|i: int| 0 <= i < cands.len() ==> rank64(#[trigger] cands[i].dist) is Some,
    ensures
        match nearest(cands, marks) {
            Some(b) => {
                &&& 0 <= b < cands.len()
                &&& marks[b]
                &&& forall|i: int|
                    #![trigger cands[i]]
                    0 <= i < cands.len() && marks[i] ==> rank64(cands[b].dist)->0 <= rank64(
                        cands[i].dist,
                    )->0
                &&& forall|i: int|
                    #![trigger cands[i]]
                    0 <= i < b && marks[i] ==> rank64(cands[b].dist)->0 < rank64(cands[i].dist)->0
            },
            None => forall|i: int| 0 <= i < cands.len() ==> !marks[i],
        },
    decreases cands.len(),
{
    if cands.len() > 0 {
        let front = cands.drop_last();
        let n = cands.len() - 1;
        assert(forall|i: int| 0 <= i < n ==> front[i] == cands[i]);
        assert forall|i: int| 0 <= i < front.len() implies rank64(#[trigger] front[i].dist) is Some by {
            assert(cands[i] == front[i]);
        }
        law_nearest_is_minimal(front, marks);
        assert(rank64(cands[n].dist) is Some);
        if let Some(b) = nearest(front, marks) {
            assert(front[b] == cands[b]);
            assert forall|i: int| #![trigger cands[i]] 0 <= i < n && marks[i] implies rank64(
                cands[b].dist,
            )->0 <= rank64(cands[i].dist)->0 by {
                assert(front[i] == cands[i]);
            }
            assert forall|i: int| #![trigger cands[i]] 0 <= i < b && marks[i] implies rank64(
                cands[b].dist,
            )->0 < rank64(cands[i].dist)->0 by {
                assert(front[i] == cands[i]);
            }
        }
    }
}

pub proof fn lemma_nearest_bounds(cands: Seq<Candidate>, marks: Seq<bool>)
    ensures
        nearest(cands, marks) matches Some(b) ==> 0 <= b < cands.len() && marks[b],
    decreases cands.len(),
{
    if cands.len() > 0 {
        lemma_nearest_bounds(cands.drop_last(), marks);
    }
}

/// Scans the marked candidates for the nearest.
pub fn pick_nearest(cands: &[Candidate], marks: &[bool]) -> (r: Option<usize>)
    requires
        marks@.len() == cands@.len(),
    ensures
        match r {
            Some(b) => nearest(cands@, marks@) == Some(b as int) && b < cands@.len() && marks@[b as int],
            None => nearest(cands@, marks@) is None,
        },
{
    let mut best: Option<usize> = None;
    for i in 0..cands.len()
        invariant
            marks@.len() == cands@.len(),
            match best {
                Some(b) => nearest(cands@.take(i as int), marks@) == Some(b as int) && b < i
                    && marks@[b as int],
                None => nearest(cands@.take(i as int), marks@) is None,
            },
    {
        assert(cands@.take(i + 1).drop_last() =~= cands@.take(i as int));
        if marks[i] {
            match best {
                None => {
                    best = Some(i);
                },
                Some(b) => {
                    if less64(cands[i].dist, cands[b].dist) {
                        best = Some(i);
                    }
                },
            }
        }
    }
    assert(cands@.take(cands@.len() as int) =~= cands@);
    best
}

// --- The order ---
/// Patterns without a sign are ordered as they are counted, from zero to
/// infinity; with a sign the other way round, and below them; a pattern beyond
/// infinity is before and behind nothing.
pub proof fn law_patterns_are_in_order(a: u64, b: u64, n: u64)
    requires
        a <= 0x7ff0_0000_0000_0000,
        b <= 0x7ff0_0000_0000_0000,
        0x7ff0_0000_0000_0000 < n < 0x8000_0000_0000_0000,
    ensures
        lt64(a, b) <==> a < b,
        le64(a, b) <==> a <= b,
        ({
            let below = (a + 0x8000_0000_0000_0000) as u64;
            let under = (b + 0x8000_0000_0000_0000) as u64;
            &&& lt64(below, under) <==> b < a
            &&& lt64(below, b) <==> a > 0 || b > 0
            &&& !lt64(b, below)
        }),
        !lt64(n, a) && !lt64(a, n) && !le64(n, a) && !le64(a, n),
{
}

/// The same of the shorter patterns.
pub proof fn law_short_patterns_are_in_order(a: u32, b: u32, n: u32)
    requires
        a <= 0x7f80_0000,
        b <= 0x7f80_0000,
        0x7f80_0000 < n < 0x8000_0000,
    ensures
        lt32(a, b) <==> a < b,
        le32(a, b) <==> a <= b,
        ({
            let below = (a + 0x8000_0000) as u32;
            let under = (b + 0x8000_0000) as u32;
            &&& lt32(below, under) <==> b < a
            &&& lt32(below, b) <==> a > 0 || b > 0
            &&& !lt32(b, below)
        }),
        !lt32(n, a) && !lt32(a, n) && !le32(n, a) && !le32(a, n),
        finite32(a) <==> a < 0x7f80_0000,
        !finite32(n),
{
}

} // verus!
