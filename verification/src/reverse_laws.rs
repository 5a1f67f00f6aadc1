//! What the scans and the records of the reverse index promise.
use vstd::prelude::*;
use crate::bytes::{
    ascending, bisect, le_digits, lemma_bisect_ascending, lemma_le_round_trip,
    lemma_pow256, lemma_record_bounds, record_count, table_keys, u16_at, u32_at, u64_at,
};
use crate::ieee::{law_nearest_is_minimal, rank64, Candidate};
use crate::index::{best_ranked, law_lowest_rank_wins, plain, Index, InterpCandidate, Ranked};
use crate::records::{
    addr_point_of, admin_polygon_of, interp_way_of, node_coord_of, place_point_of, poi_point_of,
    way_header_of, AddrPoint, AdminPolygon, InterpWay, PlacePoint, PoiPoint, WayHeader,
};
use crate::reverse::{
    geo_scan, has_segments, interp_scan, interpolated, listed, street_scan, Layer, SEEN_STREETS_CAP,
};

verus! {

broadcast use vstd::seq::group_seq_axioms;

// --- Records ---
/// Whether the four bytes at `off` are those of a number, least significant
/// first.
pub open spec fn holds32(s: Seq<u8>, off: int, n: u32) -> bool {
    s.subrange(off, off + 4) == le_digits(n as nat, 4)
}

/// Whether the two bytes at `off` are those of a number, least significant
/// first.
pub open spec fn holds16(s: Seq<u8>, off: int, n: u16) -> bool {
    s.subrange(off, off + 2) == le_digits(n as nat, 2)
}

proof fn lemma_holds32(s: Seq<u8>, off: int, n: u32)
    requires
        holds32(s, off, n),
    ensures
        u32_at(s, off) == n,
{
    lemma_pow256();
    lemma_le_round_trip(n as nat, 4);
}

proof fn lemma_holds16(s: Seq<u8>, off: int, n: u16)
    requires
        holds16(s, off, n),
    ensures
        u16_at(s, off) == n,
{
    lemma_pow256();
    lemma_le_round_trip(n as nat, 2);
}

/// Bytes that were written as an address record are read back as it.
pub proof fn law_address_record_reads_back(s: Seq<u8>, id: int, p: AddrPoint)
    requires
        0 <= id,
        32 * id + 32 <= s.len(),
        holds32(s, 32 * id, p.lat),
        holds32(s, 32 * id + 4, p.lng),
        holds32(s, 32 * id + 8, p.housenumber_id),
        holds32(s, 32 * id + 12, p.street_or_place_id),
        holds32(s, 32 * id + 16, p.unit_id),
        holds32(s, 32 * id + 20, p.floor_id),
        holds32(s, 32 * id + 24, p.parent_place_id),
        s[32 * id + 28] == p.flags,
    ensures
        addr_point_of(s, id) == Some(p),
{
    lemma_holds32(s, 32 * id, p.lat);
    lemma_holds32(s, 32 * id + 4, p.lng);
    lemma_holds32(s, 32 * id + 8, p.housenumber_id);
    lemma_holds32(s, 32 * id + 12, p.street_or_place_id);
    lemma_holds32(s, 32 * id + 16, p.unit_id);
    lemma_holds32(s, 32 * id + 20, p.floor_id);
    lemma_holds32(s, 32 * id + 24, p.parent_place_id);
}

/// Bytes that were written as a street are read back as it.
pub proof fn law_street_record_reads_back(s: Seq<u8>, id: int, w: WayHeader)
    requires
        0 <= id,
        12 * id + 12 <= s.len(),
        holds32(s, 12 * id, w.node_offset),
        s[12 * id + 4] == w.node_count,
        holds32(s, 12 * id + 8, w.name_id),
    ensures
        way_header_of(s, id) == Some(w),
{
    lemma_holds32(s, 12 * id, w.node_offset);
    lemma_holds32(s, 12 * id + 8, w.name_id);
}

/// Bytes that were written as a way with interpolated numbers are read back as
/// it.
pub proof fn law_numbered_way_reads_back(s: Seq<u8>, id: int, w: InterpWay)
    requires
        0 <= id,
        24 * id + 24 <= s.len(),
        holds32(s, 24 * id, w.node_offset),
        s[24 * id + 4] == w.node_count,
        holds32(s, 24 * id + 8, w.street_id),
        holds32(s, 24 * id + 12, w.start_number),
        holds32(s, 24 * id + 16, w.end_number),
        s[24 * id + 20] == w.interpolation,
    ensures
        interp_way_of(s, id) == Some(w),
{
    lemma_holds32(s, 24 * id, w.node_offset);
    lemma_holds32(s, 24 * id + 8, w.street_id);
    lemma_holds32(s, 24 * id + 12, w.start_number);
    lemma_holds32(s, 24 * id + 16, w.end_number);
}

/// Bytes that were written as a region are read back as it.
pub proof fn law_region_record_reads_back(s: Seq<u8>, id: int, p: AdminPolygon)
    requires
        0 <= id,
        24 * id + 24 <= s.len(),
        holds32(s, 24 * id, p.vertex_offset),
        holds16(s, 24 * id + 4, p.vertex_count),
        holds32(s, 24 * id + 8, p.name_id),
        s[24 * id + 12] == p.admin_level,
        holds32(s, 24 * id + 16, p.area),
        holds16(s, 24 * id + 20, p.country_code),
    ensures
        admin_polygon_of(s, id) == Some(p),
{
    lemma_holds32(s, 24 * id, p.vertex_offset);
    lemma_holds16(s, 24 * id + 4, p.vertex_count);
    lemma_holds32(s, 24 * id + 8, p.name_id);
    lemma_holds32(s, 24 * id + 16, p.area);
    lemma_holds16(s, 24 * id + 20, p.country_code);
}

/// Bytes that were written as a place are read back as it.
pub proof fn law_place_record_reads_back(s: Seq<u8>, id: int, p: PlacePoint)
    requires
        0 <= id,
        16 * id + 16 <= s.len(),
        holds32(s, 16 * id, p.lat),
        holds32(s, 16 * id + 4, p.lng),
        holds32(s, 16 * id + 8, p.name_id),
        s[16 * id + 12] == p.rank,
    ensures
        place_point_of(s, id) == Some(p),
{
    lemma_holds32(s, 16 * id, p.lat);
    lemma_holds32(s, 16 * id + 4, p.lng);
    lemma_holds32(s, 16 * id + 8, p.name_id);
}

/// Bytes that were written as a point of interest are read back as it.
pub proof fn law_interest_record_reads_back(s: Seq<u8>, id: int, p: PoiPoint)
    requires
        0 <= id,
        24 * id + 24 <= s.len(),
        holds32(s, 24 * id, p.lat),
        holds32(s, 24 * id + 4, p.lng),
        holds32(s, 24 * id + 8, p.name_id),
        holds32(s, 24 * id + 12, p.category_id),
        s[24 * id + 16] == p.rank,
        holds32(s, 24 * id + 20, p.parent_place_id),
    ensures
        poi_point_of(s, id) == Some(p),
{
    lemma_holds32(s, 24 * id, p.lat);
    lemma_holds32(s, 24 * id + 4, p.lng);
    lemma_holds32(s, 24 * id + 8, p.name_id);
    lemma_holds32(s, 24 * id + 12, p.category_id);
    lemma_holds32(s, 24 * id + 20, p.parent_place_id);
}

/// Bytes that were written as a node are read back as it, and a record that is
/// not there in full is not read, of whatever kind.
pub proof fn law_node_reads_back(s: Seq<u8>, id: int, lat: u32, lng: u32)
    ensures
        0 <= id && 8 * id + 8 <= s.len() && holds32(s, 8 * id, lat) && holds32(s, 8 * id + 4, lng)
            ==> (node_coord_of(s, id) matches Some(n) && n.lat == lat && n.lng == lng),
        8 * id + 8 > s.len() ==> node_coord_of(s, id) is None,
        12 * id + 12 > s.len() ==> way_header_of(s, id) is None,
        16 * id + 16 > s.len() ==> place_point_of(s, id) is None,
        24 * id + 24 > s.len() ==> interp_way_of(s, id) is None && admin_polygon_of(s, id) is None
            && poi_point_of(s, id) is None,
        32 * id + 32 > s.len() ==> addr_point_of(s, id) is None,
{
    if 0 <= id && 8 * id + 8 <= s.len() && holds32(s, 8 * id, lat) && holds32(s, 8 * id + 4, lng) {
        lemma_holds32(s, 8 * id, lat);
        lemma_holds32(s, 8 * id + 4, lng);
    }
}

// --- Cells ---
/// A scan of the cell in row `i` of the table of cells lists the streets at the
/// first offset of the row, the addresses at the second and the ways with
/// interpolated numbers at the third, of each their own entries. A cell that no
/// row has lists nothing.
pub proof fn law_cell_lists_each_layer(cells: Seq<u8>, entries: Seq<u8>, cell: u64, i: int)
    requires
        ascending(table_keys(cells, 20)),
        0 <= i,
        20 * i + 20 <= cells.len(),
    ensures
        u64_at(cells, 20 * i) == cell ==> {
            &&& geo_scan(cells, entries, Layer::Street, seq![cell]) == listed(
                entries,
                u32_at(cells, 20 * i + 8),
            )
            &&& geo_scan(cells, entries, Layer::Addr, seq![cell]) == listed(
                entries,
                u32_at(cells, 20 * i + 12),
            )
            &&& geo_scan(cells, entries, Layer::Interp, seq![cell]) == listed(
                entries,
                u32_at(cells, 20 * i + 16),
            )
        },
        (forall|j: int|
            0 <= j && 20 * j + 20 <= cells.len() ==> #[trigger] u64_at(cells, j * 20) != cell)
            ==> geo_scan(cells, entries, Layer::Street, seq![cell]).len() == 0 && geo_scan(
            cells,
            entries,
            Layer::Addr,
            seq![cell],
        ).len() == 0 && geo_scan(cells, entries, Layer::Interp, seq![cell]).len() == 0,
{
    let keys = table_keys(cells, 20);
    let n = record_count(cells, 20);
    lemma_bisect_ascending(keys, cell, 0, n);
    assert(i < n);
    assert(keys[i] == u64_at(cells, i * 20));
    assert(i * 20 == 20 * i);
    let one = seq![cell];
    assert(one.drop_last() =~= Seq::<u64>::empty());
    assert(one.last() == cell);
    assert forall|layer: Layer| #[trigger] geo_scan(cells, entries, layer, one) =~= listed(
        entries,
        crate::reverse::layer_offset(crate::reverse::geo_offsets(cells, cell), layer),
    ) by {
        assert(geo_scan(cells, entries, layer, one.drop_last()) =~= Seq::<u32>::empty());
    }
    match bisect(keys, cell, 0, n) {
        Some(k) => {
            assert(keys[k] == u64_at(cells, k * 20));
            lemma_record_bounds(cells.len() as int, 20, k);
            if u64_at(cells, 20 * i) == cell && k != i {
                assert(keys[k] == keys[i]);
                assert(false);
            }
        },
        None => {},
    }
}

/// The streets of a scan: those listed that have at least one segment in the
/// file of nodes, each once as long as the scan remembers.
pub proof fn law_scan_finds_usable_streets(ways: Seq<u8>, nodes: Seq<u8>, ids: Seq<u32>, id: u32)
    ensures
        ({
            let out = street_scan(ways, nodes, ids).out;
            &&& out.contains(id) <==> (ids.contains(id) && way_header_of(
                ways,
                id as int,
            ) is Some && has_segments(
                nodes,
                way_header_of(ways, id as int)->0.node_offset,
                way_header_of(ways, id as int)->0.node_count,
            ))
            &&& ids.len() <= SEEN_STREETS_CAP ==> out.no_duplicates()
        }),
        ids.len() <= SEEN_STREETS_CAP ==> (street_scan(ways, nodes, ids).seen.len() <= ids.len()
            && forall|x: u32| #[trigger]
            street_scan(ways, nodes, ids).out.contains(x) ==> street_scan(
                ways,
                nodes,
                ids,
            ).seen.contains(x)),
        forall|x: u32| #[trigger]
            street_scan(ways, nodes, ids).seen.contains(x) ==> (usable(ways, nodes, x)
                ==> street_scan(ways, nodes, ids).out.contains(x)) && ids.contains(x),
    decreases ids.len(),
{
    let r = street_scan(ways, nodes, ids);
    if ids.len() == 0 {
        assert(!ids.contains(id));
        assert(!r.out.contains(id));
    } else {
        let front = ids.drop_last();
        let last = ids.last();
        law_scan_finds_usable_streets(ways, nodes, front, id);
        let b = street_scan(ways, nodes, front);
        assert(ids =~= front.push(last));
        assert(ids.contains(id) <==> front.contains(id) || id == last) by {
            if front.contains(id) {
                let k = choose|k: int| 0 <= k < front.len() && front[k] == id;
                assert(ids[k] == id);
            }
            if id == last {
                assert(ids[ids.len() - 1] == id);
            }
            if ids.contains(id) && id != last {
                let k = choose|k: int| 0 <= k < ids.len() && ids[k] == id;
                assert(front[k] == id);
            }
        }
        assert forall|x: u32| front.contains(x) implies ids.contains(x) by {
            let k = choose|k: int| 0 <= k < front.len() && front[k] == x;
            assert(ids[k] == x);
        }
        assert(ids.contains(last)) by {
            assert(ids[ids.len() - 1] == last);
        }
        assert forall|s: Seq<u32>, x: u32, y: u32| #[trigger]
            s.push(x).contains(y) <==> s.contains(y) || x == y by {
            if s.contains(y) {
                let k = choose|k: int| 0 <= k < s.len() && s[k] == y;
                assert(s.push(x)[k] == y);
            }
            if x == y {
                assert(s.push(x)[s.len() as int] == y);
            }
            if s.push(x).contains(y) && x != y {
                let k = choose|k: int| 0 <= k < s.push(x).len() && s.push(x)[k] == y;
                assert(s[k] == y);
            }
        }
        if !b.seen.contains(last) && ids.len() <= SEEN_STREETS_CAP {
            assert(!b.out.contains(last));
            assert(r.out.no_duplicates()) by {
                assert forall|i: int, j: int|
                    0 <= i < r.out.len() && 0 <= j < r.out.len() && i != j implies r.out[i]
                    != r.out[j] by {
                    if i < b.out.len() && j < b.out.len() {
                        assert(b.out[i] != b.out[j]);
                    }
                }
            }
        }
    }
}

/// Whether a street is in its file and has segments.
pub open spec fn usable(ways: Seq<u8>, nodes: Seq<u8>, id: u32) -> bool {
    &&& way_header_of(ways, id as int) matches Some(w)
    &&& has_segments(nodes, w.node_offset, w.node_count)
}

/// A way has segments exactly where it has two nodes or more and all of them are
/// in the file.
pub proof fn law_segments_need_their_nodes(nodes: Seq<u8>, offset: u32, count: u8)
    ensures
        has_segments(nodes, offset, count) <==> count >= 2 && forall|k: int|
            0 <= k < count ==> #[trigger] node_coord_of(nodes, offset + k) is Some,
{
    if count >= 2 && forall|k: int|
        0 <= k < count ==> #[trigger] node_coord_of(nodes, offset + k) is Some {
        assert(node_coord_of(nodes, offset + (count - 1)) is Some);
    }
}

/// The ways of a scan along which numbers are interpolated: those listed that
/// have both a first and a last number, and segments.
pub proof fn law_scan_finds_numbered_ways(ways: Seq<u8>, nodes: Seq<u8>, ids: Seq<u32>, id: u32)
    ensures
        interp_scan(ways, nodes, ids).contains(id) <==> ids.contains(id) && interp_way_of(
            ways,
            id as int,
        ) is Some && {
            let w = interp_way_of(ways, id as int)->0;
            w.start_number != 0 && w.end_number != 0 && has_segments(
                nodes,
                w.node_offset,
                w.node_count,
            )
        },
    decreases ids.len(),
{
    let out = interp_scan(ways, nodes, ids);
    if ids.len() == 0 {
        assert(!ids.contains(id));
        assert(!out.contains(id));
    } else {
        let front = ids.drop_last();
        let last = ids.last();
        let before = interp_scan(ways, nodes, front);
        law_scan_finds_numbered_ways(ways, nodes, front, id);
        assert(ids.contains(id) <==> front.contains(id) || id == last) by {
            if front.contains(id) {
                let k = choose|k: int| 0 <= k < front.len() && front[k] == id;
                assert(ids[k] == id);
            }
            if id == last {
                assert(ids[ids.len() - 1] == id);
            }
            if ids.contains(id) && id != last {
                let k = choose|k: int| 0 <= k < ids.len() && ids[k] == id;
                assert(front[k] == id);
            }
        }
        assert(before.push(last).contains(id) <==> before.contains(id) || id == last) by {
            if before.contains(id) {
                let k = choose|k: int| 0 <= k < before.len() && before[k] == id;
                assert(before.push(last)[k] == id);
            }
            if id == last {
                assert(before.push(last)[before.len() as int] == id);
            }
            if before.push(last).contains(id) && id != last {
                let k = choose|k: int|
                    0 <= k < before.push(last).len() && before.push(last)[k] == id;
                assert(before[k] == id);
            }
        }
    }
}

// --- Numbers along a way ---
/// Along a way of odd or of even numbers, the first number stands at its begin
/// and each step adds two; along any other way the number at a position is that
/// position.
pub proof fn law_numbers_step_along_the_way(w: InterpWay, steps: u32, number: u32)
    requires
        steps < u32::MAX,
    ensures
        w.interpolation == 1 || w.interpolation == 2 ==> interpolated(w, 0, number)
            == w.start_number && interpolated(w, (steps + 1) as u32, number) == interpolated(
            w,
            steps,
            number,
        ) + 2,
        w.interpolation != 1 && w.interpolation != 2 ==> interpolated(w, steps, number) == number,
{
}

/// The way with interpolated numbers that is closer than any other gives its
/// street, and the number at the position along it.
pub proof fn law_closest_way_gives_its_number(
    index: Index<'_>,
    cands: Seq<InterpCandidate>,
    i: int,
    w: InterpWay,
)
    requires
        0 <= i < cands.len(),
        forall|j: int|
            0 <= j < cands.len() ==> (#[trigger] cands[j]).dist < 0x7fef_ffff_ffff_ffff && (j != i
                ==> cands[i].dist < cands[j].dist),
        interp_way_of(index.interp_ways@, cands[i].id as int) == Some(w),
    ensures
        index.best_interp(cands) matches Some(found) && {
            &&& found.0 == cands[i].dist
            &&& found.1 == index.text(w.street_id)
            &&& w.interpolation == 1 || w.interpolation == 2 ==> found.2 == w.start_number
                + cands[i].steps + cands[i].steps
            &&& w.interpolation != 1 && w.interpolation != 2 ==> found.2 == cands[i].nearest_number
        },
{
    let p = plain(cands);
    let marks = index.interp_marks(cands);
    assert forall|j: int| 0 <= j < p.len() implies rank64(#[trigger] p[j].dist) is Some by {
        assert(cands[j].dist < 0x7fef_ffff_ffff_ffff);
    }
    law_nearest_is_minimal(p, marks);
    assert(marks[i]);
    assert(p[i].dist == cands[i].dist);
    let b = crate::ieee::nearest(p, marks)->0;
    assert(rank64(p[b].dist)->0 <= rank64(p[i].dist)->0);
    assert(cands[b].dist == p[b].dist);
    assert(b == i);
}

// --- The most prominent ---
/// Of the candidates of a scan, the one of the lowest rank wins, and of several
/// with that rank the nearest.
pub proof fn law_nearest_of_a_rank_wins(cands: Seq<Ranked>, marks: Seq<bool>, n: int)
    requires
        0 <= n <= cands.len(),
        n <= marks.len(),
        forall|i: int| 0 <= i < n ==> rank64((#[trigger] cands[i]).dist) is Some,
    ensures
        best_ranked(cands, marks, n) matches Some(b) ==> 0 <= b < n && marks[b] && forall|i: int|
            #![trigger cands[i]]
            0 <= i < n && marks[i] ==> cands[b].rank < cands[i].rank || (cands[b].rank
                == cands[i].rank && rank64(cands[b].dist)->0 <= rank64(cands[i].dist)->0),
    decreases n,
{
    if n > 0 {
        law_nearest_of_a_rank_wins(cands, marks, n - 1);
        law_lowest_rank_wins(cands, marks, n - 1);
        assert(rank64(cands[n - 1].dist) is Some);
        if let Some(b) = best_ranked(cands, marks, n - 1) {
            assert(rank64(cands[b].dist) is Some);
        }
    }
}

/// The place of a query is the one of the lowest rank among those around, and of
/// several with that rank the nearest; there is none only where none is around.
pub proof fn law_place_is_prominent_and_near(index: Index<'_>, cands: Seq<Candidate>, i: int)
    requires
        forall|j: int| 0 <= j < cands.len() ==> (#[trigger] cands[j]).dist < 0x7fef_ffff_ffff_ffff,
        index.place_points is Some,
        0 <= i < cands.len(),
        place_point_of(index.place_points->0@, cands[i].id as int) is Some,
    ensures
        ({
            let at = |j: int| place_point_of(index.place_points->0@, cands[j].id as int)->0;
            &&& index.best_place(cands) matches Some(p)
            &&& exists|b: int|
                0 <= b < cands.len() && #[trigger] at(b) == p && (p.rank < at(i).rank || (p.rank
                    == at(i).rank && cands[b].dist <= cands[i].dist))
        }),
{
    let at = |j: int| place_point_of(index.place_points->0@, cands[j].id as int)->0;
    let ranks = index.place_ranks(cands);
    let marks = Seq::new(cands.len(), |i: int| index.place(cands[i].id) is Some);
    let n = cands.len() as int;
    assert forall|j: int| 0 <= j < n implies rank64((#[trigger] ranks[j]).dist) is Some by {
        assert(cands[j].dist < 0x7fef_ffff_ffff_ffff);
    }
    law_lowest_rank_wins(ranks, marks, n);
    law_nearest_of_a_rank_wins(ranks, marks, n);
    assert(marks[i]);
    let b = best_ranked(ranks, marks, n)->0;
    assert(marks[b]);
    assert(at(b) == index.best_place(cands)->0);
    assert(ranks[b].rank == at(b).rank);
    assert(ranks[i].rank == at(i).rank);
    assert(cands[b].dist < 0x7fef_ffff_ffff_ffff);
    assert(cands[i].dist < 0x7fef_ffff_ffff_ffff);
}

} // verus!
