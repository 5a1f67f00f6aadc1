//! What an administrative context promises: which region each of its names
//! comes from.
use vstd::prelude::*;
use crate::admin::{
    admin_country, admin_step, admin_text, after_step, code_as_text, fill_levels,
    law_levels_keep_country, AdminStep, AdminText,
};
use crate::admin_config::AdminField;
use crate::ieee::lt32;
use crate::index::Index;
use crate::records::{admin_polygon_of, AdminPolygon};

verus! {

broadcast use vstd::seq::group_seq_axioms;

/// The region that a scan settled on at a level.
pub open spec fn region_at(index: Index<'_>, best: Seq<Option<u32>>, level: int) -> AdminPolygon {
    admin_polygon_of(index.admin_polygons@, best[level]->0 as int)->0
}

/// Whether the region of a level stands for a field: the configuration maps the
/// level to the field for the country, and the region is not too large for it.
pub open spec fn stands_for(
    index: Index<'_>,
    best: Seq<Option<u32>>,
    code: Option<Seq<u8>>,
    level: int,
    field: AdminField,
) -> bool {
    &&& level != 2
    &&& best[level] is Some
    &&& index.admin_config.entry(code_as_text(code), level as u8) matches Some(e)
    &&& e.field == field
    &&& e.max_area matches Some(max) ==> !lt32(max, region_at(index, best, level).area)
}

/// Whether no region from a level on stands for a field.
pub open spec fn none_from(
    index: Index<'_>,
    best: Seq<Option<u32>>,
    code: Option<Seq<u8>>,
    from: int,
    to: int,
    field: AdminField,
) -> bool {
    forall|m: int| from <= m < to ==> !#[trigger] stands_for(index, best, code, m, field)
}

proof fn lemma_last_stays(
    index: Index<'_>,
    best: Seq<Option<u32>>,
    start: AdminText,
    level: int,
    n: int,
    field: AdminField,
)
    requires
        0 <= level < n <= 12,
        stands_for(index, best, start.country_code, level, field),
        none_from(index, best, start.country_code, level + 1, n, field),
    ensures
        ({
            let r = fill_levels(index, best, start, n);
            let name = index.text(region_at(index, best, level).name_id);
            &&& field == AdminField::State ==> r.state == Some(name) && r.state_poly_id
                == best[level]
            &&& field == AdminField::County ==> r.county == Some(name) && r.county_poly_id
                == best[level]
            &&& field == AdminField::City ==> r.city == Some(name) && r.city_poly_id == best[level]
            &&& field == AdminField::Postcode ==> r.postcode == Some(name)
        }),
    decreases n,
{
    if n > level + 1 {
        lemma_last_stays(index, best, start, level, n - 1, field);
        assert(!stands_for(index, best, start.country_code, n - 1, field));
    }
}

proof fn lemma_none_fills(
    index: Index<'_>,
    best: Seq<Option<u32>>,
    start: AdminText,
    n: int,
)
    requires
        0 <= n <= 12,
    ensures
        ({
            let r = fill_levels(index, best, start, n);
            let cc = start.country_code;
            &&& none_from(index, best, cc, 0, n, AdminField::State) ==> r.state == start.state
                && r.state_poly_id == start.state_poly_id
            &&& none_from(index, best, cc, 0, n, AdminField::County) && none_from(
                index,
                best,
                cc,
                0,
                n,
                AdminField::CountyIfEmpty,
            ) ==> r.county == start.county && r.county_poly_id == start.county_poly_id
            &&& none_from(index, best, cc, 0, n, AdminField::City) && none_from(
                index,
                best,
                cc,
                0,
                n,
                AdminField::CityIfEmpty,
            ) ==> r.city == start.city && r.city_poly_id == start.city_poly_id
            &&& none_from(index, best, cc, 0, n, AdminField::Postcode) ==> r.postcode
                == start.postcode
        }),
    decreases n,
{
    if n > 0 {
        lemma_none_fills(index, best, start, n - 1);
        let cc = start.country_code;
        assert forall|f: AdminField| none_from(index, best, cc, 0, n, f) implies none_from(
            index,
            best,
            cc,
            0,
            n - 1,
            f,
        ) && !stands_for(index, best, cc, n - 1, f) by {}
    }
}

proof fn lemma_first_gap_filler_stays(
    index: Index<'_>,
    best: Seq<Option<u32>>,
    start: AdminText,
    level: int,
    n: int,
)
    requires
        0 <= level < n <= 12,
    ensures
        ({
            let r = fill_levels(index, best, start, n);
            let cc = start.country_code;
            let name = index.text(region_at(index, best, level).name_id);
            &&& start.city is None && stands_for(index, best, cc, level, AdminField::CityIfEmpty)
                && none_from(index, best, cc, 0, level, AdminField::CityIfEmpty) && none_from(
                index,
                best,
                cc,
                0,
                n,
                AdminField::City,
            ) ==> r.city == Some(name) && r.city_poly_id == best[level]
            &&& start.county is None && stands_for(
                index,
                best,
                cc,
                level,
                AdminField::CountyIfEmpty,
            ) && none_from(index, best, cc, 0, level, AdminField::CountyIfEmpty) && none_from(
                index,
                best,
                cc,
                0,
                n,
                AdminField::County,
            ) ==> r.county == Some(name) && r.county_poly_id == best[level]
        }),
    decreases n,
{
    let cc = start.country_code;
    assert forall|f: AdminField| none_from(index, best, cc, 0, n, f) implies none_from(
        index,
        best,
        cc,
        0,
        n - 1,
        f,
    ) && !stands_for(index, best, cc, n - 1, f) by {}
    if n > level + 1 {
        lemma_first_gap_filler_stays(index, best, start, level, n - 1);
    } else {
        lemma_none_fills(index, best, start, n - 1);
    }
}

/// Of the regions that the configuration makes states, counties, cities or
/// postcodes, the one of the highest level names the state, the county, the city
/// or the postcode of a context, and the context says which region it is.
pub proof fn law_region_names_its_field(
    index: Index<'_>,
    best: Seq<Option<u32>>,
    other: Option<(Seq<u8>, Seq<char>)>,
    level: int,
    field: AdminField,
)
    requires
        0 <= level < 12,
        stands_for(
            index,
            best,
            admin_text(index, best, other).country_code,
            level,
            field,
        ),
        none_from(
            index,
            best,
            admin_text(index, best, other).country_code,
            level + 1,
            12,
            field,
        ),
    ensures
        ({
            let r = admin_text(index, best, other);
            let name = index.text(region_at(index, best, level).name_id);
            &&& field == AdminField::State ==> r.state == Some(name) && r.state_poly_id
                == best[level]
            &&& field == AdminField::County ==> r.county == Some(name) && r.county_poly_id
                == best[level]
            &&& field == AdminField::City ==> r.city == Some(name) && r.city_poly_id == best[level]
            &&& field == AdminField::Postcode ==> r.postcode == Some(name)
        }),
{
    let start = admin_country(index, best, other);
    law_levels_keep_country(index, best, start, 12);
    lemma_last_stays(index, best, start, level, 12, field);
}

/// A region that only fills a gap names the city where no region is a city, and
/// the county where no region is a county; the one of the lowest level does.
pub proof fn law_gap_filler_names_its_field(
    index: Index<'_>,
    best: Seq<Option<u32>>,
    other: Option<(Seq<u8>, Seq<char>)>,
    level: int,
)
    requires
        0 <= level < 12,
    ensures
        ({
            let r = admin_text(index, best, other);
            let cc = r.country_code;
            let name = index.text(region_at(index, best, level).name_id);
            &&& stands_for(index, best, cc, level, AdminField::CityIfEmpty) && none_from(
                index,
                best,
                cc,
                0,
                level,
                AdminField::CityIfEmpty,
            ) && none_from(index, best, cc, 0, 12, AdminField::City) ==> r.city == Some(name)
                && r.city_poly_id == best[level]
            &&& stands_for(index, best, cc, level, AdminField::CountyIfEmpty) && none_from(
                index,
                best,
                cc,
                0,
                level,
                AdminField::CountyIfEmpty,
            ) && none_from(index, best, cc, 0, 12, AdminField::County) ==> r.county == Some(name)
                && r.county_poly_id == best[level]
        }),
{
    let start = admin_country(index, best, other);
    law_levels_keep_country(index, best, start, 12);
    lemma_first_gap_filler_stays(index, best, start, level, 12);
}

/// A field that no region stands for is empty.
pub proof fn law_no_region_no_name(
    index: Index<'_>,
    best: Seq<Option<u32>>,
    other: Option<(Seq<u8>, Seq<char>)>,
)
    ensures
        ({
            let r = admin_text(index, best, other);
            let cc = r.country_code;
            &&& none_from(index, best, cc, 0, 12, AdminField::State) ==> r.state is None
                && r.state_poly_id is None
            &&& none_from(index, best, cc, 0, 12, AdminField::County) && none_from(
                index,
                best,
                cc,
                0,
                12,
                AdminField::CountyIfEmpty,
            ) ==> r.county is None && r.county_poly_id is None
            &&& none_from(index, best, cc, 0, 12, AdminField::City) && none_from(
                index,
                best,
                cc,
                0,
                12,
                AdminField::CityIfEmpty,
            ) ==> r.city is None && r.city_poly_id is None
            &&& none_from(index, best, cc, 0, 12, AdminField::Postcode) ==> r.postcode is None
        }),
{
    let start = admin_country(index, best, other);
    law_levels_keep_country(index, best, start, 12);
    lemma_none_fills(index, best, start, 12);
}

/// The country of a context is the region of the second level, whatever the
/// configuration says. Its code is that of the region; where the region has
/// none, or there is no region, the code is the one that was found by other
/// means. The name found by other means counts only without a region.
pub proof fn law_country_is_the_second_level(
    index: Index<'_>,
    best: Seq<Option<u32>>,
    other: Option<(Seq<u8>, Seq<char>)>,
)
    ensures
        ({
            let r = admin_text(index, best, other);
            &&& r.country_poly_id == best[2]
            &&& best[2] is Some ==> r.country == Some(index.text(region_at(index, best, 2).name_id))
            &&& best[2] is None ==> r.country == (match other {
                Some((_, name)) => Some(name),
                None => None,
            })
            &&& best[2] is Some && region_at(index, best, 2).country_code != 0 ==> {
                &&& r.country_code matches Some(code)
                &&& code.len() == 2
                &&& code[0] * 256 + code[1] == region_at(index, best, 2).country_code
            }
            &&& best[2] is None || region_at(index, best, 2).country_code == 0 ==> r.country_code
                == (match other {
                Some((code, _)) => Some(code),
                None => None,
            })
        }),
{
    let start = admin_country(index, best, other);
    law_levels_keep_country(index, best, start, 12);
}

// --- The scan ---
/// An entry of a cell is the number of a region, with the top bit set where the
/// whole cell lies inside the region. The first usable region of a level is
/// taken at once in the second case, and in the first it is tested, with the
/// vertices of its record. A region is not usable where there is none of that
/// number, or it has fewer than three vertices, or they are not all in the file,
/// or its level is the twelfth or beyond.
pub proof fn law_entry_names_a_region(
    polygons: Seq<u8>,
    vertices: Seq<u8>,
    best: Seq<Option<u32>>,
    id: u32,
    p: AdminPolygon,
)
    requires
        id < 0x8000_0000,
        best.len() == 12,
        admin_polygon_of(polygons, id as int) == Some(p),
        p.admin_level < 12 ==> best[p.admin_level as int] is None,
    ensures
        ({
            let inner = (id + 0x8000_0000) as u32;
            let usable = p.admin_level < 12 && p.vertex_count >= 3 && 8 * (p.vertex_offset
                + p.vertex_count) <= vertices.len();
            &&& usable ==> admin_step(polygons, vertices, best, inner) == AdminStep::Keep {
                level: p.admin_level,
                poly_id: id,
            }
            &&& usable ==> admin_step(polygons, vertices, best, id) == AdminStep::Test {
                level: p.admin_level,
                poly_id: id,
                vertex_offset: p.vertex_offset,
                vertex_count: p.vertex_count,
            }
            &&& !usable ==> admin_step(polygons, vertices, best, inner) == AdminStep::Skip
                && admin_step(polygons, vertices, best, id) == AdminStep::Skip
        }),
{
}

/// Once a scan has settled on a region of a level, only a smaller region of that
/// level is considered.
pub proof fn law_smaller_region_replaces(
    polygons: Seq<u8>,
    vertices: Seq<u8>,
    best: Seq<Option<u32>>,
    entry: u32,
    p: AdminPolygon,
    q: AdminPolygon,
)
    requires
        best.len() == 12,
        admin_polygon_of(polygons, (entry % 0x8000_0000) as int) == Some(p),
        p.admin_level < 12,
        best[p.admin_level as int] is Some,
        admin_polygon_of(polygons, best[p.admin_level as int]->0 as int) == Some(q),
        p.area <= 0x7f80_0000 && q.area <= 0x7f80_0000,
        p.vertex_count >= 3,
        8 * (p.vertex_offset + p.vertex_count) <= vertices.len(),
    ensures
        admin_step(polygons, vertices, best, entry) == AdminStep::Skip <==> q.area <= p.area,
{
}

/// A region that holds the point is what the scan settles on for its level; one
/// that does not leaves the scan as it was. No other level is touched.
pub proof fn law_outcome_sets_its_level(
    best: Seq<Option<u32>>,
    level: u8,
    id: u32,
    offset: u32,
    count: u16,
    other: int,
)
    requires
        best.len() == 12,
        level < 12,
        0 <= other < 12 && other != level,
    ensures
        ({
            let keep = AdminStep::Keep { level, poly_id: id };
            let test = AdminStep::Test {
                level,
                poly_id: id,
                vertex_offset: offset,
                vertex_count: count,
            };
            &&& after_step(best, keep, false)[level as int] == Some(id)
            &&& after_step(best, keep, true)[level as int] == Some(id)
            &&& after_step(best, test, true)[level as int] == Some(id)
            &&& after_step(best, test, false) == best
            &&& after_step(best, AdminStep::Skip, true) == best
            &&& after_step(best, keep, true)[other] == best[other]
            &&& after_step(best, test, true)[other] == best[other]
        }),
{
}

/// The country code of a region packs two letters, the first in the high byte.
/// Where the region of the second level has one it is the country of the
/// context, with the name and the number of the region; where it has none, or
/// where there is no such region, the code is that of the other find, if any.
pub proof fn law_country_code_is_unpacked(
    index: Index<'_>,
    best: Seq<Option<u32>>,
    other: Option<(Seq<u8>, Seq<char>)>,
    first: u8,
    second: u8,
)
    requires
        best.len() == 12,
    ensures
        ({
            let a = admin_text(index, best, other);
            &&& best[2] is Some && region_at(index, best, 2).country_code == first * 256 + second
                && first > 0 ==> a.country_code == Some(seq![first, second])
            &&& best[2] is Some ==> a.country == Some(
                index.text(region_at(index, best, 2).name_id),
            ) && a.country_poly_id == best[2]
            &&& best[2] is None || region_at(index, best, 2).country_code == 0 ==> match other {
                Some((code, name)) => a.country_code == Some(code),
                None => a.country_code is None,
            }
            &&& best[2] is None ==> a.country_poly_id is None && match other {
                Some((code, name)) => a.country == Some(name),
                None => a.country is None,
            }
        }),
{
    let start = admin_country(index, best, other);
    law_levels_keep_country(index, best, start, 12);
    if first * 256 + second == region_at(index, best, 2).country_code {
        assert((first * 256 + second) / 256 == first);
        assert((first * 256 + second) % 256 == second);
        assert(crate::admin::unpack(region_at(index, best, 2).country_code) =~= seq![
            first,
            second,
        ]);
    }
}

} // verus!
