//! How a search runs once it is set up: an exact name first where that may
//! answer it, then the forward index, in one country after the other.
use vstd::prelude::*;
use crate::autocomplete::{Hit, HitText};
use crate::forward_search::{is_ranking, rerank};
use crate::ieee::{at_most64, le64, rank64};
use crate::openaddresses::{code_text, normalise_code};
use crate::requests::{kind_matches, parse_country_code_bytes, upper_code, SearchSetup};
use crate::sorting::sort_positions;
use crate::suggest::Autocomplete;
use crate::text::{lower_seq, opt_str_view};

verus! {

broadcast use vstd::seq::group_seq_axioms;

/// Where an exact name is looked up first.
#[derive(Clone, Copy, Debug)]
pub enum ExactScope {
    Nowhere,
    Everywhere,
    /// In lower case.
    Country([u8; 2]),
}

/// Where an exact name is looked up first: nowhere where it may not answer the
/// search, or where the one country is no country code.
pub open spec fn is_exact_scope(setup: SearchSetup, r: ExactScope) -> bool {
    if !setup.fast_path {
        r is Nowhere
    } else if setup.countries@.len() == 0 {
        r is Everywhere
    } else {
        match (upper_code(setup.countries@[0]@), r) {
            (Some(code), ExactScope::Country(cc)) => code_text(cc) == lower_seq(code),
            (Some(_), _) => false,
            (None, _) => r is Nowhere,
        }
    }
}

/// Decides where an exact name is looked up first.
pub fn exact_scope(setup: &SearchSetup) -> (r: ExactScope)
    ensures
        is_exact_scope(*setup, r),
{
    if !setup.fast_path {
        ExactScope::Nowhere
    } else if setup.countries.len() == 0 {
        ExactScope::Everywhere
    } else {
        match parse_country_code_bytes(setup.countries[0].as_str()) {
            Some(code) => {
                let cc = normalise_code(&code);
                assert(cc@[0] == crate::openaddresses::lower_code(code)@[0] && cc@[1]
                    == crate::openaddresses::lower_code(code)@[1]);
                assert(code_text(cc) =~= lower_seq(code_text(code)));
                ExactScope::Country(cc)
            },
            None => ExactScope::Nowhere,
        }
    }
}

/// Whether `found` is an exact match in a scope: that of the country, or the
/// most prominent one anywhere.
pub open spec fn is_exact_in(
    names: Autocomplete<'_>,
    scope: ExactScope,
    q: Seq<char>,
    found: Option<HitText>,
) -> bool {
    match scope {
        ExactScope::Nowhere => found is None,
        ExactScope::Country(cc) => found == names.exact_answer(cc, q),
        ExactScope::Everywhere => match found {
            Some(hit) => {
                &&& exists|cc: [u8; 2]|
                    names.covers(cc@) && #[trigger] names.exact_answer(cc, q) == Some(hit)
                &&& forall|cc: [u8; 2]|
                    names.covers(cc@) ==> (#[trigger] names.exact_answer(cc, q) matches Some(h)
                        ==> hit.rank <= h.rank)
            },
            None => forall|cc: [u8; 2]|
                names.covers(cc@) ==> #[trigger] names.exact_answer(cc, q) is None,
        },
    }
}

/// Whether `r` answers a search with an exact name.
pub open spec fn is_quick_answer(
    names: Autocomplete<'_>,
    setup: SearchSetup,
    q: Seq<char>,
    r: Option<Hit>,
) -> bool {
    exists|scope: ExactScope, found: Option<HitText>| #[trigger]
        is_exact_in(names, scope, q, found) && is_exact_scope(setup, scope) && match r {
            Some(hit) => found == Some(hit@) && (setup.kind is None || setup.kind == Some(
                hit.kind as u64,
            )),
            None => found matches Some(h) ==> setup.kind is Some && setup.kind != Some(
                h.kind as u64,
            ),
        }
}

/// Answers a search with an exact name, where one has the kind that is asked
/// for. Otherwise the forward index has to answer.
pub fn quick_answer(names: &Autocomplete<'_>, setup: &SearchSetup, q: &str) -> (r: Option<Hit>)
    requires
        names.wf(),
    ensures
        is_quick_answer(*names, *setup, q@, r),
{
    let scope = exact_scope(setup);
    let found = match scope {
        ExactScope::Nowhere => None,
        ExactScope::Country(cc) => names.exact_in(&cc, q),
        ExactScope::Everywhere => match names.exact_match_any(q) {
            Some((_, hit)) => Some(hit),
            None => None,
        },
    };
    let ghost text = crate::autocomplete::opt_hit_view(found);
    assert(is_exact_in(*names, scope, q@, text));
    match found {
        Some(hit) => {
            if kind_matches(setup.kind, hit.kind) {
                Some(hit)
            } else {
                None
            }
        },
        None => None,
    }
}

/// The countries that the forward index is asked for: each of those that are
/// named, or none in particular.
pub open spec fn asked_countries(setup: SearchSetup) -> Seq<Option<Seq<char>>> {
    if setup.countries@.len() == 0 {
        seq![None]
    } else {
        Seq::new(setup.countries@.len(), |i: int| Some(setup.countries@[i]@))
    }
}

/// Lists the countries that the forward index is asked for.
pub fn search_countries<'a>(setup: &'a SearchSetup) -> (r: Vec<Option<&'a str>>)
    ensures
        r@.len() == asked_countries(*setup).len(),
        forall|i: int|
            0 <= i < r@.len() ==> opt_str_view(#[trigger] r@[i]) == asked_countries(*setup)[i],
{
    let mut out: Vec<Option<&'a str>> = Vec::new();
    if setup.countries.len() == 0 {
        out.push(None);
        return out;
    }
    for i in 0..setup.countries.len()
        invariant
            out@.len() == i,
            setup.countries@.len() > 0,
            forall|j: int|
                0 <= j < i ==> opt_str_view(#[trigger] out@[j]) == asked_countries(*setup)[j],
    {
        out.push(Some(setup.countries[i].as_str()));
    }
    out
}

/// Whether `order` lists the results of a search: those of a single country as
/// they came, and those of several by their scores, as many as were asked for.
pub open spec fn is_answer_order(
    setup: SearchSetup,
    scores: Seq<u32>,
    order: Seq<u64>,
) -> bool {
    if setup.countries@.len() > 1 {
        is_ranking(scores, setup.limit as nat, order)
    } else {
        order == Seq::new(scores.len(), |i: int| i as u64)
    }
}

/// Puts the results of the searches in all countries, one list behind the
/// other, into the order of the answer. `scores` holds the score of each.
pub fn answer_order(setup: &SearchSetup, scores: &[u32]) -> (r: Vec<u64>)
    ensures
        is_answer_order(*setup, scores@, r@),
{
    if setup.countries.len() > 1 {
        return rerank(scores, setup.limit);
    }
    let mut out: Vec<u64> = Vec::new();
    for i in 0..scores.len()
        invariant
            out@ =~= Seq::new(i as nat, |j: int| j as u64),
    {
        out.push(i as u64);
    }
    out
}

// --- What is near ---
/// Where a distance (a binary64 bit pattern) stands when distances are listed
/// from the least up. What is no number comes last.
pub open spec fn dist_place(bits: u64) -> int {
    match rank64(bits) {
        Some(r) => 0x7ff0_0000_0000_0000 + r,
        None => 0xffff_ffff_ffff_ffff,
    }
}

/// Whether the distance at `a` is listed before the one at `b`: the lesser one,
/// or the first of two equal ones.
pub open spec fn nearer(dists: Seq<u64>, a: int, b: int) -> bool {
    dist_place(dists[a]) < dist_place(dists[b]) || (dist_place(dists[a]) == dist_place(dists[b])
        && a < b)
}

/// Whether `order` lists what is near: nothing beyond the radius, the nearest
/// first, and all there is, as far as `limit` allows.
pub open spec fn is_near_list(dists: Seq<u64>, radius: u64, limit: nat, order: Seq<u64>) -> bool {
    &&& order.len() <= limit
    &&& forall|i: int|
        0 <= i < order.len() ==> (#[trigger] order[i]) < dists.len() && le64(
            dists[order[i] as int],
            radius,
        )
    &&& forall|i: int, j: int|
        0 <= i < j < order.len() ==> nearer(
            dists,
            #[trigger] order[i] as int,
            #[trigger] order[j] as int,
        )
    &&& forall|k: int|
        #![trigger dists[k]]
        0 <= k < dists.len() && le64(dists[k], radius) && !order.contains(k as u64) ==> {
            &&& order.len() == limit
            &&& forall|i: int| 0 <= i < order.len() ==> nearer(dists, #[trigger] order[i] as int, k)
        }
}

fn place_of(bits: u64) -> (r: u64)
    ensures
        r == dist_place(bits),
{
    let mag: u64 = bits % 0x8000_0000_0000_0000;
    if mag > 0x7ff0_0000_0000_0000 {
        0xffff_ffff_ffff_ffff
    } else if bits >= 0x8000_0000_0000_0000 {
        0x7ff0_0000_0000_0000 - mag
    } else {
        0x7ff0_0000_0000_0000 + mag
    }
}

/// Lists the positions of the results that are no farther than the radius, the
/// nearest first.
pub fn within_radius(dists: &[u64], radius: u64, limit: usize) -> (r: Vec<u64>)
    ensures
        is_near_list(dists@, radius, limit as nat, r@),
{
    let mut places: Vec<u64> = Vec::new();
    for i in 0..dists.len()
        invariant
            places@.len() == i,
            forall|j: int| 0 <= j < i ==> #[trigger] places@[j] == dist_place(dists@[j]),
    {
        places.push(place_of(dists[i]));
    }
    let order = sort_positions(places.as_slice());
    proof {
        assert forall|i: int, j: int| 0 <= i < j < order@.len() implies nearer(
            dists@,
            #[trigger] order@[i] as int,
            #[trigger] order@[j] as int,
        ) by {
            assert(places@[order@[i] as int] == dist_place(dists@[order@[i] as int]));
            assert(places@[order@[j] as int] == dist_place(dists@[order@[j] as int]));
        }
    }
    let mut out: Vec<u64> = Vec::new();
    let mut n: usize = 0;
    while n < order.len() && n < limit && at_most64(dists[order[n] as usize], radius)
        invariant
            n <= order@.len(),
            n <= limit,
            order@.len() == dists@.len(),
            forall|i: int| 0 <= i < order@.len() ==> (#[trigger] order@[i]) < dists@.len(),
            forall|i: int| 0 <= i < n ==> le64(dists@[(#[trigger] order@[i]) as int], radius),
            out@ == order@.take(n as int),
        decreases order@.len() - n,
    {
        out.push(order[n]);
        assert(out@ =~= order@.take(n + 1));
        n = n + 1;
    }
    proof {
        assert forall|i: int| 0 <= i < out@.len() implies (#[trigger] out@[i]) < dists@.len()
            && le64(dists@[out@[i] as int], radius) by {
            assert(out@[i] == order@[i]);
        }
        assert forall|i: int, j: int| 0 <= i < j < out@.len() implies nearer(
            dists@,
            #[trigger] out@[i] as int,
            #[trigger] out@[j] as int,
        ) by {
            assert(out@[i] == order@[i] && out@[j] == order@[j]);
        }
        assert forall|k: int|
            #![trigger dists@[k]]
            0 <= k < dists@.len() && le64(dists@[k], radius) && !out@.contains(k as u64) implies {
            &&& out@.len() == limit
            &&& forall|i: int|
                0 <= i < out@.len() ==> nearer(dists@, #[trigger] out@[i] as int, k)
        } by {
            assert(order@.contains(k as u64));
            let j = choose|j: int| 0 <= j < order@.len() && order@[j] == k as u64;
            if j < n {
                assert(out@[j] == k as u64);
            }
            if n < limit {
                assert(!le64(dists@[order@[n as int] as int], radius));
                if j > n {
                    assert(nearer(dists@, order@[n as int] as int, order@[j] as int));
                }
            }
            assert forall|i: int| 0 <= i < out@.len() implies nearer(
                dists@,
                #[trigger] out@[i] as int,
                k,
            ) by {
                assert(out@[i] == order@[i]);
                assert(nearer(dists@, order@[i] as int, order@[j] as int));
            }
        }
    }
    out
}

} // verus!
