//! What a search for a house number promises.
use vstd::prelude::*;
use crate::address_points::{
    contains_ignoring_case, AddressMatch, AddressPointIndex, AddressQuery, AddressText,
};
use crate::address_build::AddressRow;
use crate::housenumber::hn_matches;
use crate::ieee::{law_nearest_is_minimal, rank64, Candidate};
use crate::index::{AddrMatchText, AddrPointMatch, Index};
use crate::openaddresses::{
    found_shard, law_no_country_is_passed_over, nearest_in, OpenAddresses, Shard,
};
use crate::records::addr_point_of;
use crate::text::{eq_ignore_case, trim_seq};

verus! {

broadcast use vstd::seq::group_seq_axioms;

/// Whether a point is an address that is asked for: its house number matches,
/// and its street has the hint in it, where there is one.
pub open spec fn answers_to(index: AddressPointIndex<'_>, id: int, q: AddressQuery) -> bool {
    let a = index.address(index.point(id));
    &&& 0 <= id < index.point_count()
    &&& hn_matches(trim_seq(q.housenumber), a.housenumber)
    &&& q.street matches Some(s) ==> trim_seq(s).len() == 0 || contains_ignoring_case(
        a.street,
        trim_seq(s),
    )
}

/// Whether a unit is asked for.
pub open spec fn asks_for_unit(q: AddressQuery) -> bool {
    q.unit matches Some(u) && trim_seq(u).len() > 0
}

/// Whether a point has the unit that is asked for.
pub open spec fn has_unit(index: AddressPointIndex<'_>, id: int, q: AddressQuery) -> bool {
    &&& index.point(id).unit_id != 0
    &&& eq_ignore_case(index.address(index.point(id)).unit, trim_seq(q.unit->0))
}

/// Whether distances are not negative, and numbers.
pub open spec fn are_distances(near: Seq<Candidate>) -> bool {
    forall|i: int| 0 <= i < near.len() ==> (#[trigger] near[i]).dist <= 0x7ff0_0000_0000_0000
}

proof fn lemma_nearest(near: Seq<Candidate>, marks: Seq<bool>)
    requires
        are_distances(near),
        marks.len() == near.len(),
    ensures
        match crate::ieee::nearest(near, marks) {
            Some(b) => {
                &&& 0 <= b < near.len()
                &&& marks[b]
                &&& forall|i: int|
                    0 <= i < near.len() && marks[i] ==> near[b].dist <= (#[trigger] near[i]).dist
            },
            None => forall|i: int| 0 <= i < near.len() ==> !#[trigger] marks[i],
        },
{
    assert forall|i: int| 0 <= i < near.len() implies rank64(#[trigger] near[i].dist) == Some(
        near[i].dist as int,
    ) by {
        assert(near[i].dist <= 0x7ff0_0000_0000_0000);
    }
    law_nearest_is_minimal(near, marks);
    if let Some(b) = crate::ieee::nearest(near, marks) {
        assert forall|i: int| 0 <= i < near.len() && marks[i] implies near[b].dist <= (
        #[trigger] near[i]).dist by {
            assert(rank64(near[b].dist)->0 <= rank64(near[i].dist)->0);
        }
    }
}

/// A search finds the nearest address that is asked for, and misses none. Where
/// a unit is asked for, only an address of that unit will do, or else one of a
/// whole building. Without a house number there is nothing to find.
pub proof fn law_search_finds_the_nearest_address(
    index: AddressPointIndex<'_>,
    q: AddressQuery,
    near: Seq<Candidate>,
)
    requires
        are_distances(near),
    ensures
        trim_seq(q.housenumber).len() == 0 ==> index.search_result(q, near) is None,
        trim_seq(q.housenumber).len() > 0 ==> match index.search_result(q, near) {
            Some(a) => exists|b: int|
                {
                    &&& 0 <= b < near.len()
                    &&& answers_to(index, (#[trigger] near[b]).id as int, q)
                    &&& a == index.address(index.point(near[b].id as int))
                    &&& asks_for_unit(q) ==> has_unit(index, near[b].id as int, q) || (
                    index.point(near[b].id as int).unit_id == 0 && forall|i: int|
                        0 <= i < near.len() && answers_to(
                            index,
                            (#[trigger] near[i]).id as int,
                            q,
                        ) ==> !has_unit(index, near[i].id as int, q))
                    &&& forall|i: int|
                        0 <= i < near.len() && answers_to(
                            index,
                            (#[trigger] near[i]).id as int,
                            q,
                        ) && (asks_for_unit(q) ==> has_unit(index, near[i].id as int, q) == has_unit(
                            index,
                            near[b].id as int,
                            q,
                        ) && (index.point(near[i].id as int).unit_id == 0) == (index.point(
                            near[b].id as int,
                        ).unit_id == 0)) ==> near[b].dist <= near[i].dist
                },
            None => forall|i: int|
                0 <= i < near.len() && answers_to(index, (#[trigger] near[i]).id as int, q) ==> asks_for_unit(
                    q,
                ) && !has_unit(index, near[i].id as int, q) && index.point(
                    near[i].id as int,
                ).unit_id != 0,
        },
{
    let exact = index.unit_marks(near, q);
    let building = index.building_marks(near, q);
    lemma_nearest(near, exact);
    lemma_nearest(near, building);
    assert forall|i: int| 0 <= i < near.len() implies {
        &&& #[trigger] exact[i] == (answers_to(index, near[i].id as int, q) && (asks_for_unit(q)
            ==> has_unit(index, near[i].id as int, q)))
        &&& building[i] == (answers_to(index, near[i].id as int, q) && asks_for_unit(q)
            && index.point(near[i].id as int).unit_id == 0)
    } by {}
    if trim_seq(q.housenumber).len() > 0 {
        match crate::ieee::nearest(near, exact) {
            Some(b) => {
                assert(exact[b]);
                assert(index.found_at(q, near) == Some(b));
                assert forall|i: int|
                    0 <= i < near.len() && answers_to(index, (#[trigger] near[i]).id as int, q) && (
                    asks_for_unit(q) ==> has_unit(index, near[i].id as int, q) == has_unit(
                        index,
                        near[b].id as int,
                        q,
                    ) && (index.point(near[i].id as int).unit_id == 0) == (index.point(
                        near[b].id as int,
                    ).unit_id == 0)) implies near[b].dist <= near[i].dist by {
                    assert(exact[i]);
                }
            },
            None => {
                match crate::ieee::nearest(near, building) {
                    Some(b) => {
                        assert(building[b]);
                        assert(!exact[b]);
                        assert forall|i: int|
                            0 <= i < near.len() && answers_to(
                                index,
                                (#[trigger] near[i]).id as int,
                                q,
                            ) implies !has_unit(index, near[i].id as int, q) by {
                            assert(!exact[i]);
                        }
                        assert forall|i: int|
                            0 <= i < near.len() && answers_to(
                                index,
                                (#[trigger] near[i]).id as int,
                                q,
                            ) && (asks_for_unit(q) ==> has_unit(index, near[i].id as int, q)
                                == has_unit(index, near[b].id as int, q) && (index.point(
                                near[i].id as int,
                            ).unit_id == 0) == (index.point(near[b].id as int).unit_id == 0)) implies near[b].dist
                            <= near[i].dist by {
                            assert(!exact[i]);
                            assert(building[i]);
                        }
                    },
                    None => {
                        assert forall|i: int|
                            0 <= i < near.len() && answers_to(
                                index,
                                (#[trigger] near[i]).id as int,
                                q,
                            ) implies asks_for_unit(q) && !has_unit(index, near[i].id as int, q)
                            && index.point(near[i].id as int).unit_id != 0 by {
                            assert(!exact[i] && !building[i]);
                        }
                    },
                }
            },
        }
    }
}

/// The nearest address of a dataset is one of the points of the scan, and none
/// of them is nearer.
pub proof fn law_nearest_address_is_nearest(index: AddressPointIndex<'_>, near: Seq<Candidate>)
    requires
        are_distances(near),
    ensures
        match nearest_in(index, near) {
            Some(a) => exists|b: int|
                {
                    &&& 0 <= b < near.len()
                    &&& (#[trigger] near[b]).id < index.point_count()
                    &&& a == index.address(index.point(near[b].id as int))
                    &&& forall|i: int|
                        0 <= i < near.len() && (#[trigger] near[i]).id < index.point_count()
                            ==> near[b].dist <= near[i].dist
                },
            None => forall|i: int|
                0 <= i < near.len() ==> (#[trigger] near[i]).id >= index.point_count(),
        },
{
    let marks = index.known_marks(near);
    lemma_nearest(near, marks);
    match crate::ieee::nearest(near, marks) {
        Some(b) => {
            assert(marks[b]);
            assert forall|i: int|
                0 <= i < near.len() && (#[trigger] near[i]).id < index.point_count() implies near[b].dist
                <= near[i].dist by {
                assert(marks[i]);
            }
        },
        None => {
            assert forall|i: int| 0 <= i < near.len() implies (#[trigger] near[i]).id
                >= index.point_count() by {
                assert(!marks[i]);
            }
        },
    }
}

/// The texts of a point are those at the places that the record names, each in
/// its own field.
pub proof fn law_address_is_field_by_field(index: AddressPointIndex<'_>, id: int)
    ensures
        ({
            let p = index.point(id);
            let a = index.address(p);
            &&& a.lat == p.lat
            &&& a.lng == p.lng
            &&& a.housenumber == index.text(p.housenumber_id)
            &&& a.street == index.text(p.street_id)
            &&& a.locality == index.text(p.locality_id)
            &&& a.postcode == index.text(p.postcode_id)
            &&& p.unit_id == 0 ==> a.unit.len() == 0
            &&& p.unit_id != 0 ==> a.unit == index.text(p.unit_id)
        }),
{
}

/// What is said of the texts of addresses is said of their fields.
pub proof fn law_texts_are_those_of_the_fields(
    m: AddressMatch<'_>,
    row: AddressRow<'_>,
    found: AddrPointMatch<'_>,
)
    ensures
        m@.lat == m.lat && m@.lng == m.lng && m@.housenumber == m.housenumber@ && m@.street
            == m.street@ && m@.locality == m.locality@ && m@.postcode == m.postcode@ && m@.unit
            == m.unit@,
        row@.lat == row.lat && row@.lng == row.lng && row@.housenumber == row.housenumber@
            && row@.street == row.street@ && row@.locality == row.locality@ && row@.postcode
            == row.postcode@,
        found@.lat == found.lat && found@.lng == found.lng && found@.housenumber
            == found.housenumber@ && found@.street == found.street@ && found@.unit == found.unit@
            && found@.floor == found.floor@ && found@.parent_place == found.parent_place@
            && found@.flags == found.flags,
{
}

// --- Over the datasets ---
/// Whether a country hint is Australia.
pub open spec fn is_australian(cc: [u8; 2]) -> bool {
    cc@ == seq![65u8, 85u8] || cc@ == seq![97u8, 117u8] || cc@ == seq![65u8, 117u8] || cc@
        == seq![97u8, 85u8]
}

/// Whether a house number was found in a dataset: it has the place, the number
/// and the street of the address there, and no unit, floor or parent place.
pub open spec fn is_from(found: Option<AddrMatchText>, a: AddressText) -> bool {
    &&& found matches Some(m)
    &&& m.lat == a.lat
    &&& m.lng == a.lng
    &&& m.housenumber == a.housenumber
    &&& m.street == a.street
    &&& m.unit.len() == 0
    &&& m.floor.len() == 0
    &&& m.parent_place.len() == 0
    &&& m.flags == 0
}

/// Where a house number is looked for. With a hint of another country, the
/// national dataset of Australia makes no difference. Without one, or for
/// Australia, what it finds is the answer. Else the answer is what the open
/// dataset of the hinted country finds, and no other open dataset makes a
/// difference; else it comes from the index itself.
pub proof fn law_hint_decides_where_to_look(
    index: Index<'_>,
    number: Seq<char>,
    street: Option<Seq<char>>,
    country: Option<[u8; 2]>,
    gnaf: Seq<Candidate>,
    other_gnaf: Seq<Candidate>,
    open: Seq<Vec<Candidate>>,
    near: Seq<Candidate>,
)
    ensures
        ({
            let q = AddressQuery { housenumber: number, street, unit: None };
            let found = index.located(number, street, country, gnaf, open, near);
            let foreign = country matches Some(cc) && !is_australian(cc);
            &&& foreign ==> found == index.located(number, street, country, other_gnaf, open, near)
            &&& !foreign && index.gnaf is Some && (index.gnaf->0).inner.search_result(
                q,
                gnaf,
            ) is Some ==> is_from(found, (index.gnaf->0).inner.search_result(q, gnaf)->0)
            &&& foreign && index.open_addresses is Some ==> forall|i: int|
                (index.open_addresses->0).wf() && #[trigger] (index.open_addresses->0).is_shard(
                    i,
                    country->0,
                ) && (index.open_addresses->0).shards@[i].index.search_result(q, open[i]@) is Some
                    ==> is_from(
                    found,
                    (index.open_addresses->0).shards@[i].index.search_result(q, open[i]@)->0,
                )
            &&& index.gnaf is None && index.open_addresses is None ==> found == index.own_addr(
                number,
                street,
                near,
            )
        }),
{
    if let Some(cc) = country {
        assert(is_australian(cc) <==> (cc[0] == 65 || cc[0] == 97) && (cc[1] == 85 || cc[1] == 117))
            by {
            assert(cc@ =~= seq![cc[0], cc[1]]);
        }
        let foreign = !is_australian(cc);
        if foreign && index.open_addresses is Some {
            let all = index.open_addresses->0;
            let q = AddressQuery { housenumber: number, street, unit: None };
            assert forall|i: int|
                all.wf() && #[trigger] all.is_shard(i, cc) && all.shards@[i].index.search_result(
                    q,
                    open[i]@,
                ) is Some implies is_from(
                index.located(number, street, country, gnaf, open, near),
                all.shards@[i].index.search_result(q, open[i]@)->0,
            ) by {
                all.lemma_one_shard(i, cc);
            }
        }
    }
}

/// A house number of the index itself is that of an address point of the scan:
/// its number is the one asked for, in any case, its street has the hint in it,
/// and no other such point is nearer. Keyed by a place, it has that place as its
/// parent and no street.
pub proof fn law_own_address_is_the_nearest(
    index: Index<'_>,
    number: Seq<char>,
    street: Option<Seq<char>>,
    near: Seq<Candidate>,
)
    requires
        are_distances(near),
        trim_seq(number).len() > 0,
    ensures
        match index.own_addr(number, street, near) {
            Some(m) => exists|b: int|
                {
                    &&& 0 <= b < near.len()
                    &&& addr_point_of(index.addr_points@, (#[trigger] near[b]).id as int) matches Some(
                        p,
                    )
                    &&& m.lat == p.lat
                    &&& m.lng == p.lng
                    &&& m.flags == p.flags
                    &&& m.housenumber == index.text(p.housenumber_id)
                    &&& eq_ignore_case(m.housenumber, trim_seq(number))
                    &&& p.flags % 2 == 0 ==> m.street == index.text(p.street_or_place_id)
                    &&& p.flags % 2 == 1 ==> m.street.len() == 0 && m.parent_place == index.text(
                        p.street_or_place_id,
                    )
                    &&& p.flags % 2 == 0 && p.parent_place_id != 0 ==> m.parent_place == index.text(
                        p.parent_place_id,
                    )
                    &&& p.unit_id != 0 ==> m.unit == index.text(p.unit_id)
                    &&& p.unit_id == 0 ==> m.unit.len() == 0
                    &&& p.floor_id != 0 ==> m.floor == index.text(p.floor_id)
                    &&& p.floor_id == 0 ==> m.floor.len() == 0
                    &&& forall|i: int|
                        0 <= i < near.len() && is_own(index, (#[trigger] near[i]).id, number, street)
                            ==> near[b].dist <= near[i].dist
                },
            None => forall|i: int|
                0 <= i < near.len() ==> !is_own(index, (#[trigger] near[i]).id, number, street),
        },
{
    let marks = index.addr_fit_marks(near, number, street);
    lemma_nearest(near, marks);
    assert forall|i: int| 0 <= i < near.len() implies #[trigger] marks[i] == is_own(
        index,
        near[i].id,
        number,
        street,
    ) by {}
    match crate::ieee::nearest(near, marks) {
        Some(b) => {
            assert(marks[b]);
            assert forall|i: int|
                0 <= i < near.len() && is_own(index, (#[trigger] near[i]).id, number, street) implies near[b].dist
                <= near[i].dist by {
                assert(marks[i]);
            }
        },
        None => {
            assert forall|i: int| 0 <= i < near.len() implies !is_own(
                index,
                (#[trigger] near[i]).id,
                number,
                street,
            ) by {
                assert(!marks[i]);
            }
        },
    }
}

/// Whether an address point of the index has the number and the street.
pub open spec fn is_own(index: Index<'_>, id: u32, number: Seq<char>, street: Option<Seq<char>>) -> bool {
    &&& addr_point_of(index.addr_points@, id as int) matches Some(p)
    &&& eq_ignore_case(index.text(p.housenumber_id), trim_seq(number))
    &&& street matches Some(s) ==> trim_seq(s).len() == 0 || contains_ignoring_case(
        index.text(p.street_or_place_id),
        trim_seq(s),
    )
}

proof fn lemma_nothing_found(
    shards: Seq<Shard<'_>>,
    near: Seq<Vec<Candidate>>,
    q: AddressQuery,
    n: int,
)
    requires
        forall|i: int|
            0 <= i < n ==> (#[trigger] shards[i].index.search_result(q, near[i]@)) is None,
    ensures
        found_shard(shards, near, q, n) is None,
    decreases n,
{
    if n > 0 {
        lemma_nothing_found(shards, near, q, n - 1);
        assert(shards[n - 1].index.search_result(q, near[n - 1]@) is None);
    }
}

/// Where the national dataset has nothing, an open dataset that has the address
/// answers a search without a hint; where none of the datasets has it, the index
/// itself answers.
pub proof fn law_search_falls_back(
    index: Index<'_>,
    number: Seq<char>,
    street: Option<Seq<char>>,
    country: Option<[u8; 2]>,
    gnaf: Seq<Candidate>,
    open: Seq<Vec<Candidate>>,
    near: Seq<Candidate>,
    all: &OpenAddresses<'_>,
    s: int,
)
    requires
        index.open_addresses == Some(all),
        open.len() == all.shards@.len(),
        index.gnaf matches Some(g) ==> g.inner.search_result(
            (AddressQuery { housenumber: number, street, unit: None }),
            gnaf,
        ) is None,
    ensures
        ({
            let q = AddressQuery { housenumber: number, street, unit: None };
            let found = index.located(number, street, country, gnaf, open, near);
            &&& country is None && 0 <= s < open.len() && all.shards@[s].index.search_result(
                q,
                open[s]@,
            ) is Some ==> exists|i: int|
                0 <= i < open.len() && (#[trigger] all.shards@[i].index.search_result(
                    q,
                    open[i]@,
                )) is Some && is_from(found, all.shards@[i].index.search_result(q, open[i]@)->0)
            &&& (forall|i: int|
                0 <= i < open.len() ==> (#[trigger] all.shards@[i].index.search_result(
                    q,
                    open[i]@,
                )) is None) ==> found == index.own_addr(number, street, near)
        }),
{
    let q = AddressQuery { housenumber: number, street, unit: None };
    let n = open.len() as int;
    if country is None && 0 <= s < n && all.shards@[s].index.search_result(q, open[s]@) is Some {
        law_no_country_is_passed_over(all.shards@, open, q, n, s);
        let i = found_shard(all.shards@, open, q, n)->0;
        assert(all.shards@[i].index.search_result(q, open[i]@) is Some);
    }
    if forall|i: int|
        0 <= i < n ==> (#[trigger] all.shards@[i].index.search_result(q, open[i]@)) is None {
        lemma_nothing_found(all.shards@, open, q, n);
        if let Some(cc) = country {
            if all.covers(cc) {
                let i = choose|i: int| #[trigger] all.is_shard(i, cc);
                assert(all.shards@[i].index.search_result(q, open[i]@) is None);
            }
        }
        assert(all.found_near(q, country, open) is None);
    }
}

} // verus!
