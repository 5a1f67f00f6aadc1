//! The layouts that manifests state are those by which records are read.
use vstd::prelude::*;
use crate::address_points::AddressPointIndex;
use crate::bytes::{u16_at, u32_at};
use crate::i18n::I18nNames;
use crate::manifest::{
    field_texts, is_readable, is_verified, length_texts, named_lengths, reads_layouts,
    reverse_files, RecordLayout, ReverseSchema,
};
use crate::point_schema::{is_point_schema, spec_texts, FileLengths, PointSchema};
use crate::records::{
    addr_point_of, admin_polygon_of, interp_way_of, node_coord_of, place_point_of, poi_point_of,
    way_header_of,
};
use crate::reverse::geo_offsets;

verus! {

broadcast use vstd::seq::group_seq_axioms;

/// Where in a record the field with a name stands, as a layout says.
pub open spec fn stands_at(r: RecordLayout, name: Seq<char>, off: int) -> bool {
    exists|k: int|
        0 <= k < r.fields@.len() && (#[trigger] r.fields@[k]).name@ == name && off
            == r.fields@[k].offset
}

/// The fields of addresses stand where the manifest says.
pub proof fn law_addresses_are_laid_out(rs: Seq<RecordLayout>, s: Seq<u8>, id: int, off: int)
    requires
        reads_layouts(rs),
        addr_point_of(s, id) is Some,
    ensures
        rs[0].size == 32,
        stands_at(rs[0], "flags:u8"@, off) ==> s[32 * id + off] == addr_point_of(s, id)->0.flags,
        stands_at(rs[0], "floor_id:u32"@, off) ==> u32_at(s, 32 * id + off) == addr_point_of(s, id)->0.floor_id,
        stands_at(rs[0], "housenumber_id:u32"@, off) ==> u32_at(s, 32 * id + off) == addr_point_of(s, id)->0.housenumber_id,
        stands_at(rs[0], "lat:f32"@, off) ==> u32_at(s, 32 * id + off) == addr_point_of(s, id)->0.lat,
        stands_at(rs[0], "lng:f32"@, off) ==> u32_at(s, 32 * id + off) == addr_point_of(s, id)->0.lng,
        stands_at(rs[0], "parent_place_id:u32"@, off) ==> u32_at(s, 32 * id + off) == addr_point_of(s, id)->0.parent_place_id,
        stands_at(rs[0], "street_or_place_id:u32"@, off) ==> u32_at(s, 32 * id + off) == addr_point_of(s, id)->0.street_or_place_id,
        stands_at(rs[0], "unit_id:u32"@, off) ==> u32_at(s, 32 * id + off) == addr_point_of(s, id)->0.unit_id,
{
    reveal_strlit("flags:u8");
    reveal_strlit("floor_id:u32");
    reveal_strlit("housenumber_id:u32");
    reveal_strlit("lat:f32");
    reveal_strlit("lng:f32");
    reveal_strlit("parent_place_id:u32");
    reveal_strlit("street_or_place_id:u32");
    reveal_strlit("unit_id:u32");
    let fields = field_texts(rs[0].fields@);
    assert(fields.len() == rs[0].fields@.len());
    assert(fields.len() == 8);
    assert(fields[0].0 == "flags:u8"@);
    assert(fields[1].0 == "floor_id:u32"@);
    assert(fields[2].0 == "housenumber_id:u32"@);
    assert(fields[3].0 == "lat:f32"@);
    assert(fields[4].0 == "lng:f32"@);
    assert(fields[5].0 == "parent_place_id:u32"@);
    assert(fields[6].0 == "street_or_place_id:u32"@);
    assert(fields[7].0 == "unit_id:u32"@);
    assert("flags:u8"@.len() == 8 && "flags:u8"@[0] == 'f' && "flags:u8"@[1] == 'l' && "flags:u8"@[2] == 'a');
    assert("floor_id:u32"@.len() == 12 && "floor_id:u32"@[0] == 'f' && "floor_id:u32"@[1] == 'l' && "floor_id:u32"@[2] == 'o');
    assert("housenumber_id:u32"@.len() == 18 && "housenumber_id:u32"@[0] == 'h' && "housenumber_id:u32"@[1] == 'o' && "housenumber_id:u32"@[2] == 'u');
    assert("lat:f32"@.len() == 7 && "lat:f32"@[0] == 'l' && "lat:f32"@[1] == 'a' && "lat:f32"@[2] == 't');
    assert("lng:f32"@.len() == 7 && "lng:f32"@[0] == 'l' && "lng:f32"@[1] == 'n' && "lng:f32"@[2] == 'g');
    assert("parent_place_id:u32"@.len() == 19 && "parent_place_id:u32"@[0] == 'p' && "parent_place_id:u32"@[1] == 'a' && "parent_place_id:u32"@[2] == 'r');
    assert("street_or_place_id:u32"@.len() == 22 && "street_or_place_id:u32"@[0] == 's' && "street_or_place_id:u32"@[1] == 't' && "street_or_place_id:u32"@[2] == 'r');
    assert("unit_id:u32"@.len() == 11 && "unit_id:u32"@[0] == 'u' && "unit_id:u32"@[1] == 'n' && "unit_id:u32"@[2] == 'i');
    if stands_at(rs[0], "flags:u8"@, off) {
        let k = choose|k: int|
            0 <= k < rs[0].fields@.len() && (#[trigger] rs[0].fields@[k]).name@ == "flags:u8"@ && off
                == rs[0].fields@[k].offset;
        assert(fields[k] == (rs[0].fields@[k].name@, rs[0].fields@[k].offset));
        assert(k == 0 || k == 1 || k == 2 || k == 3 || k == 4 || k == 5 || k == 6 || k == 7);
    }
    if stands_at(rs[0], "floor_id:u32"@, off) {
        let k = choose|k: int|
            0 <= k < rs[0].fields@.len() && (#[trigger] rs[0].fields@[k]).name@ == "floor_id:u32"@ && off
                == rs[0].fields@[k].offset;
        assert(fields[k] == (rs[0].fields@[k].name@, rs[0].fields@[k].offset));
        assert(k == 0 || k == 1 || k == 2 || k == 3 || k == 4 || k == 5 || k == 6 || k == 7);
    }
    if stands_at(rs[0], "housenumber_id:u32"@, off) {
        let k = choose|k: int|
            0 <= k < rs[0].fields@.len() && (#[trigger] rs[0].fields@[k]).name@ == "housenumber_id:u32"@ && off
                == rs[0].fields@[k].offset;
        assert(fields[k] == (rs[0].fields@[k].name@, rs[0].fields@[k].offset));
        assert(k == 0 || k == 1 || k == 2 || k == 3 || k == 4 || k == 5 || k == 6 || k == 7);
    }
    if stands_at(rs[0], "lat:f32"@, off) {
        let k = choose|k: int|
            0 <= k < rs[0].fields@.len() && (#[trigger] rs[0].fields@[k]).name@ == "lat:f32"@ && off
                == rs[0].fields@[k].offset;
        assert(fields[k] == (rs[0].fields@[k].name@, rs[0].fields@[k].offset));
        assert(k == 0 || k == 1 || k == 2 || k == 3 || k == 4 || k == 5 || k == 6 || k == 7);
    }
    if stands_at(rs[0], "lng:f32"@, off) {
        let k = choose|k: int|
            0 <= k < rs[0].fields@.len() && (#[trigger] rs[0].fields@[k]).name@ == "lng:f32"@ && off
                == rs[0].fields@[k].offset;
        assert(fields[k] == (rs[0].fields@[k].name@, rs[0].fields@[k].offset));
        assert(k == 0 || k == 1 || k == 2 || k == 3 || k == 4 || k == 5 || k == 6 || k == 7);
    }
    if stands_at(rs[0], "parent_place_id:u32"@, off) {
        let k = choose|k: int|
            0 <= k < rs[0].fields@.len() && (#[trigger] rs[0].fields@[k]).name@ == "parent_place_id:u32"@ && off
                == rs[0].fields@[k].offset;
        assert(fields[k] == (rs[0].fields@[k].name@, rs[0].fields@[k].offset));
        assert(k == 0 || k == 1 || k == 2 || k == 3 || k == 4 || k == 5 || k == 6 || k == 7);
    }
    if stands_at(rs[0], "street_or_place_id:u32"@, off) {
        let k = choose|k: int|
            0 <= k < rs[0].fields@.len() && (#[trigger] rs[0].fields@[k]).name@ == "street_or_place_id:u32"@ && off
                == rs[0].fields@[k].offset;
        assert(fields[k] == (rs[0].fields@[k].name@, rs[0].fields@[k].offset));
        assert(k == 0 || k == 1 || k == 2 || k == 3 || k == 4 || k == 5 || k == 6 || k == 7);
    }
    if stands_at(rs[0], "unit_id:u32"@, off) {
        let k = choose|k: int|
            0 <= k < rs[0].fields@.len() && (#[trigger] rs[0].fields@[k]).name@ == "unit_id:u32"@ && off
                == rs[0].fields@[k].offset;
        assert(fields[k] == (rs[0].fields@[k].name@, rs[0].fields@[k].offset));
        assert(k == 0 || k == 1 || k == 2 || k == 3 || k == 4 || k == 5 || k == 6 || k == 7);
    }
}

/// The fields of regions stand where the manifest says.
pub proof fn law_regions_are_laid_out(rs: Seq<RecordLayout>, s: Seq<u8>, id: int, off: int)
    requires
        reads_layouts(rs),
        admin_polygon_of(s, id) is Some,
    ensures
        rs[1].size == 24,
        stands_at(rs[1], "admin_level:u8"@, off) ==> s[24 * id + off] == admin_polygon_of(s, id)->0.admin_level,
        stands_at(rs[1], "area:f32"@, off) ==> u32_at(s, 24 * id + off) == admin_polygon_of(s, id)->0.area,
        stands_at(rs[1], "country_code:u16"@, off) ==> u16_at(s, 24 * id + off) == admin_polygon_of(s, id)->0.country_code,
        stands_at(rs[1], "name_id:u32"@, off) ==> u32_at(s, 24 * id + off) == admin_polygon_of(s, id)->0.name_id,
        stands_at(rs[1], "vertex_count:u16"@, off) ==> u16_at(s, 24 * id + off) == admin_polygon_of(s, id)->0.vertex_count,
        stands_at(rs[1], "vertex_offset:u32"@, off) ==> u32_at(s, 24 * id + off) == admin_polygon_of(s, id)->0.vertex_offset,
{
    reveal_strlit("admin_level:u8");
    reveal_strlit("area:f32");
    reveal_strlit("country_code:u16");
    reveal_strlit("name_id:u32");
    reveal_strlit("vertex_count:u16");
    reveal_strlit("vertex_offset:u32");
    let fields = field_texts(rs[1].fields@);
    assert(fields.len() == rs[1].fields@.len());
    assert(fields.len() == 6);
    assert(fields[0].0 == "admin_level:u8"@);
    assert(fields[1].0 == "area:f32"@);
    assert(fields[2].0 == "country_code:u16"@);
    assert(fields[3].0 == "name_id:u32"@);
    assert(fields[4].0 == "vertex_count:u16"@);
    assert(fields[5].0 == "vertex_offset:u32"@);
    assert("admin_level:u8"@.len() == 14 && "admin_level:u8"@[0] == 'a' && "admin_level:u8"@[1] == 'd' && "admin_level:u8"@[2] == 'm');
    assert("area:f32"@.len() == 8 && "area:f32"@[0] == 'a' && "area:f32"@[1] == 'r' && "area:f32"@[2] == 'e');
    assert("country_code:u16"@.len() == 16 && "country_code:u16"@[0] == 'c' && "country_code:u16"@[1] == 'o' && "country_code:u16"@[2] == 'u');
    assert("name_id:u32"@.len() == 11 && "name_id:u32"@[0] == 'n' && "name_id:u32"@[1] == 'a' && "name_id:u32"@[2] == 'm');
    assert("vertex_count:u16"@.len() == 16 && "vertex_count:u16"@[0] == 'v' && "vertex_count:u16"@[1] == 'e' && "vertex_count:u16"@[2] == 'r');
    assert("vertex_offset:u32"@.len() == 17 && "vertex_offset:u32"@[0] == 'v' && "vertex_offset:u32"@[1] == 'e' && "vertex_offset:u32"@[2] == 'r');
    if stands_at(rs[1], "admin_level:u8"@, off) {
        let k = choose|k: int|
            0 <= k < rs[1].fields@.len() && (#[trigger] rs[1].fields@[k]).name@ == "admin_level:u8"@ && off
                == rs[1].fields@[k].offset;
        assert(fields[k] == (rs[1].fields@[k].name@, rs[1].fields@[k].offset));
        assert(k == 0 || k == 1 || k == 2 || k == 3 || k == 4 || k == 5);
    }
    if stands_at(rs[1], "area:f32"@, off) {
        let k = choose|k: int|
            0 <= k < rs[1].fields@.len() && (#[trigger] rs[1].fields@[k]).name@ == "area:f32"@ && off
                == rs[1].fields@[k].offset;
        assert(fields[k] == (rs[1].fields@[k].name@, rs[1].fields@[k].offset));
        assert(k == 0 || k == 1 || k == 2 || k == 3 || k == 4 || k == 5);
    }
    if stands_at(rs[1], "country_code:u16"@, off) {
        let k = choose|k: int|
            0 <= k < rs[1].fields@.len() && (#[trigger] rs[1].fields@[k]).name@ == "country_code:u16"@ && off
                == rs[1].fields@[k].offset;
        assert(fields[k] == (rs[1].fields@[k].name@, rs[1].fields@[k].offset));
        assert(k == 0 || k == 1 || k == 2 || k == 3 || k == 4 || k == 5);
    }
    if stands_at(rs[1], "name_id:u32"@, off) {
        let k = choose|k: int|
            0 <= k < rs[1].fields@.len() && (#[trigger] rs[1].fields@[k]).name@ == "name_id:u32"@ && off
                == rs[1].fields@[k].offset;
        assert(fields[k] == (rs[1].fields@[k].name@, rs[1].fields@[k].offset));
        assert(k == 0 || k == 1 || k == 2 || k == 3 || k == 4 || k == 5);
    }
    if stands_at(rs[1], "vertex_count:u16"@, off) {
        let k = choose|k: int|
            0 <= k < rs[1].fields@.len() && (#[trigger] rs[1].fields@[k]).name@ == "vertex_count:u16"@ && off
                == rs[1].fields@[k].offset;
        assert(fields[k] == (rs[1].fields@[k].name@, rs[1].fields@[k].offset));
        assert(k == 0 || k == 1 || k == 2 || k == 3 || k == 4 || k == 5);
    }
    if stands_at(rs[1], "vertex_offset:u32"@, off) {
        let k = choose|k: int|
            0 <= k < rs[1].fields@.len() && (#[trigger] rs[1].fields@[k]).name@ == "vertex_offset:u32"@ && off
                == rs[1].fields@[k].offset;
        assert(fields[k] == (rs[1].fields@[k].name@, rs[1].fields@[k].offset));
        assert(k == 0 || k == 1 || k == 2 || k == 3 || k == 4 || k == 5);
    }
}

/// The fields of ways with interpolated numbers stand where the manifest says.
pub proof fn law_numbered_ways_are_laid_out(rs: Seq<RecordLayout>, s: Seq<u8>, id: int, off: int)
    requires
        reads_layouts(rs),
        interp_way_of(s, id) is Some,
    ensures
        rs[5].size == 24,
        stands_at(rs[5], "end_number:u32"@, off) ==> u32_at(s, 24 * id + off) == interp_way_of(s, id)->0.end_number,
        stands_at(rs[5], "interpolation:u8"@, off) ==> s[24 * id + off] == interp_way_of(s, id)->0.interpolation,
        stands_at(rs[5], "node_count:u8"@, off) ==> s[24 * id + off] == interp_way_of(s, id)->0.node_count,
        stands_at(rs[5], "node_offset:u32"@, off) ==> u32_at(s, 24 * id + off) == interp_way_of(s, id)->0.node_offset,
        stands_at(rs[5], "start_number:u32"@, off) ==> u32_at(s, 24 * id + off) == interp_way_of(s, id)->0.start_number,
        stands_at(rs[5], "street_id:u32"@, off) ==> u32_at(s, 24 * id + off) == interp_way_of(s, id)->0.street_id,
{
    reveal_strlit("end_number:u32");
    reveal_strlit("interpolation:u8");
    reveal_strlit("node_count:u8");
    reveal_strlit("node_offset:u32");
    reveal_strlit("start_number:u32");
    reveal_strlit("street_id:u32");
    let fields = field_texts(rs[5].fields@);
    assert(fields.len() == rs[5].fields@.len());
    assert(fields.len() == 6);
    assert(fields[0].0 == "end_number:u32"@);
    assert(fields[1].0 == "interpolation:u8"@);
    assert(fields[2].0 == "node_count:u8"@);
    assert(fields[3].0 == "node_offset:u32"@);
    assert(fields[4].0 == "start_number:u32"@);
    assert(fields[5].0 == "street_id:u32"@);
    assert("end_number:u32"@.len() == 14 && "end_number:u32"@[0] == 'e' && "end_number:u32"@[1] == 'n' && "end_number:u32"@[2] == 'd');
    assert("interpolation:u8"@.len() == 16 && "interpolation:u8"@[0] == 'i' && "interpolation:u8"@[1] == 'n' && "interpolation:u8"@[2] == 't');
    assert("node_count:u8"@.len() == 13 && "node_count:u8"@[0] == 'n' && "node_count:u8"@[1] == 'o' && "node_count:u8"@[2] == 'd');
    assert("node_offset:u32"@.len() == 15 && "node_offset:u32"@[0] == 'n' && "node_offset:u32"@[1] == 'o' && "node_offset:u32"@[2] == 'd');
    assert("start_number:u32"@.len() == 16 && "start_number:u32"@[0] == 's' && "start_number:u32"@[1] == 't' && "start_number:u32"@[2] == 'a');
    assert("street_id:u32"@.len() == 13 && "street_id:u32"@[0] == 's' && "street_id:u32"@[1] == 't' && "street_id:u32"@[2] == 'r');
    if stands_at(rs[5], "end_number:u32"@, off) {
        let k = choose|k: int|
            0 <= k < rs[5].fields@.len() && (#[trigger] rs[5].fields@[k]).name@ == "end_number:u32"@ && off
                == rs[5].fields@[k].offset;
        assert(fields[k] == (rs[5].fields@[k].name@, rs[5].fields@[k].offset));
        assert(k == 0 || k == 1 || k == 2 || k == 3 || k == 4 || k == 5);
    }
    if stands_at(rs[5], "interpolation:u8"@, off) {
        let k = choose|k: int|
            0 <= k < rs[5].fields@.len() && (#[trigger] rs[5].fields@[k]).name@ == "interpolation:u8"@ && off
                == rs[5].fields@[k].offset;
        assert(fields[k] == (rs[5].fields@[k].name@, rs[5].fields@[k].offset));
        assert(k == 0 || k == 1 || k == 2 || k == 3 || k == 4 || k == 5);
    }
    if stands_at(rs[5], "node_count:u8"@, off) {
        let k = choose|k: int|
            0 <= k < rs[5].fields@.len() && (#[trigger] rs[5].fields@[k]).name@ == "node_count:u8"@ && off
                == rs[5].fields@[k].offset;
        assert(fields[k] == (rs[5].fields@[k].name@, rs[5].fields@[k].offset));
        assert(k == 0 || k == 1 || k == 2 || k == 3 || k == 4 || k == 5);
    }
    if stands_at(rs[5], "node_offset:u32"@, off) {
        let k = choose|k: int|
            0 <= k < rs[5].fields@.len() && (#[trigger] rs[5].fields@[k]).name@ == "node_offset:u32"@ && off
                == rs[5].fields@[k].offset;
        assert(fields[k] == (rs[5].fields@[k].name@, rs[5].fields@[k].offset));
        assert(k == 0 || k == 1 || k == 2 || k == 3 || k == 4 || k == 5);
    }
    if stands_at(rs[5], "start_number:u32"@, off) {
        let k = choose|k: int|
            0 <= k < rs[5].fields@.len() && (#[trigger] rs[5].fields@[k]).name@ == "start_number:u32"@ && off
                == rs[5].fields@[k].offset;
        assert(fields[k] == (rs[5].fields@[k].name@, rs[5].fields@[k].offset));
        assert(k == 0 || k == 1 || k == 2 || k == 3 || k == 4 || k == 5);
    }
    if stands_at(rs[5], "street_id:u32"@, off) {
        let k = choose|k: int|
            0 <= k < rs[5].fields@.len() && (#[trigger] rs[5].fields@[k]).name@ == "street_id:u32"@ && off
                == rs[5].fields@[k].offset;
        assert(fields[k] == (rs[5].fields@[k].name@, rs[5].fields@[k].offset));
        assert(k == 0 || k == 1 || k == 2 || k == 3 || k == 4 || k == 5);
    }
}

/// The fields of nodes stand where the manifest says.
pub proof fn law_nodes_are_laid_out(rs: Seq<RecordLayout>, s: Seq<u8>, id: int, off: int)
    requires
        reads_layouts(rs),
        node_coord_of(s, id) is Some,
    ensures
        rs[6].size == 8,
        stands_at(rs[6], "lat:f32"@, off) ==> u32_at(s, 8 * id + off) == node_coord_of(s, id)->0.lat,
        stands_at(rs[6], "lng:f32"@, off) ==> u32_at(s, 8 * id + off) == node_coord_of(s, id)->0.lng,
{
    reveal_strlit("lat:f32");
    reveal_strlit("lng:f32");
    let fields = field_texts(rs[6].fields@);
    assert(fields.len() == rs[6].fields@.len());
    assert(fields.len() == 2);
    assert(fields[0].0 == "lat:f32"@);
    assert(fields[1].0 == "lng:f32"@);
    assert("lat:f32"@.len() == 7 && "lat:f32"@[0] == 'l' && "lat:f32"@[1] == 'a' && "lat:f32"@[2] == 't');
    assert("lng:f32"@.len() == 7 && "lng:f32"@[0] == 'l' && "lng:f32"@[1] == 'n' && "lng:f32"@[2] == 'g');
    if stands_at(rs[6], "lat:f32"@, off) {
        let k = choose|k: int|
            0 <= k < rs[6].fields@.len() && (#[trigger] rs[6].fields@[k]).name@ == "lat:f32"@ && off
                == rs[6].fields@[k].offset;
        assert(fields[k] == (rs[6].fields@[k].name@, rs[6].fields@[k].offset));
        assert(k == 0 || k == 1);
    }
    if stands_at(rs[6], "lng:f32"@, off) {
        let k = choose|k: int|
            0 <= k < rs[6].fields@.len() && (#[trigger] rs[6].fields@[k]).name@ == "lng:f32"@ && off
                == rs[6].fields@[k].offset;
        assert(fields[k] == (rs[6].fields@[k].name@, rs[6].fields@[k].offset));
        assert(k == 0 || k == 1);
    }
}

/// The fields of places stand where the manifest says.
pub proof fn law_places_are_laid_out(rs: Seq<RecordLayout>, s: Seq<u8>, id: int, off: int)
    requires
        reads_layouts(rs),
        place_point_of(s, id) is Some,
    ensures
        rs[7].size == 16,
        stands_at(rs[7], "lat:f32"@, off) ==> u32_at(s, 16 * id + off) == place_point_of(s, id)->0.lat,
        stands_at(rs[7], "lng:f32"@, off) ==> u32_at(s, 16 * id + off) == place_point_of(s, id)->0.lng,
        stands_at(rs[7], "name_id:u32"@, off) ==> u32_at(s, 16 * id + off) == place_point_of(s, id)->0.name_id,
        stands_at(rs[7], "rank:u8"@, off) ==> s[16 * id + off] == place_point_of(s, id)->0.rank,
{
    reveal_strlit("lat:f32");
    reveal_strlit("lng:f32");
    reveal_strlit("name_id:u32");
    reveal_strlit("rank:u8");
    let fields = field_texts(rs[7].fields@);
    assert(fields.len() == rs[7].fields@.len());
    assert(fields.len() == 4);
    assert(fields[0].0 == "lat:f32"@);
    assert(fields[1].0 == "lng:f32"@);
    assert(fields[2].0 == "name_id:u32"@);
    assert(fields[3].0 == "rank:u8"@);
    assert("lat:f32"@.len() == 7 && "lat:f32"@[0] == 'l' && "lat:f32"@[1] == 'a' && "lat:f32"@[2] == 't');
    assert("lng:f32"@.len() == 7 && "lng:f32"@[0] == 'l' && "lng:f32"@[1] == 'n' && "lng:f32"@[2] == 'g');
    assert("name_id:u32"@.len() == 11 && "name_id:u32"@[0] == 'n' && "name_id:u32"@[1] == 'a' && "name_id:u32"@[2] == 'm');
    assert("rank:u8"@.len() == 7 && "rank:u8"@[0] == 'r' && "rank:u8"@[1] == 'a' && "rank:u8"@[2] == 'n');
    if stands_at(rs[7], "lat:f32"@, off) {
        let k = choose|k: int|
            0 <= k < rs[7].fields@.len() && (#[trigger] rs[7].fields@[k]).name@ == "lat:f32"@ && off
                == rs[7].fields@[k].offset;
        assert(fields[k] == (rs[7].fields@[k].name@, rs[7].fields@[k].offset));
        assert(k == 0 || k == 1 || k == 2 || k == 3);
    }
    if stands_at(rs[7], "lng:f32"@, off) {
        let k = choose|k: int|
            0 <= k < rs[7].fields@.len() && (#[trigger] rs[7].fields@[k]).name@ == "lng:f32"@ && off
                == rs[7].fields@[k].offset;
        assert(fields[k] == (rs[7].fields@[k].name@, rs[7].fields@[k].offset));
        assert(k == 0 || k == 1 || k == 2 || k == 3);
    }
    if stands_at(rs[7], "name_id:u32"@, off) {
        let k = choose|k: int|
            0 <= k < rs[7].fields@.len() && (#[trigger] rs[7].fields@[k]).name@ == "name_id:u32"@ && off
                == rs[7].fields@[k].offset;
        assert(fields[k] == (rs[7].fields@[k].name@, rs[7].fields@[k].offset));
        assert(k == 0 || k == 1 || k == 2 || k == 3);
    }
    if stands_at(rs[7], "rank:u8"@, off) {
        let k = choose|k: int|
            0 <= k < rs[7].fields@.len() && (#[trigger] rs[7].fields@[k]).name@ == "rank:u8"@ && off
                == rs[7].fields@[k].offset;
        assert(fields[k] == (rs[7].fields@[k].name@, rs[7].fields@[k].offset));
        assert(k == 0 || k == 1 || k == 2 || k == 3);
    }
}

/// The fields of points of interest stand where the manifest says.
pub proof fn law_interests_are_laid_out(rs: Seq<RecordLayout>, s: Seq<u8>, id: int, off: int)
    requires
        reads_layouts(rs),
        poi_point_of(s, id) is Some,
    ensures
        rs[8].size == 24,
        stands_at(rs[8], "category_id:u32"@, off) ==> u32_at(s, 24 * id + off) == poi_point_of(s, id)->0.category_id,
        stands_at(rs[8], "lat:f32"@, off) ==> u32_at(s, 24 * id + off) == poi_point_of(s, id)->0.lat,
        stands_at(rs[8], "lng:f32"@, off) ==> u32_at(s, 24 * id + off) == poi_point_of(s, id)->0.lng,
        stands_at(rs[8], "name_id:u32"@, off) ==> u32_at(s, 24 * id + off) == poi_point_of(s, id)->0.name_id,
        stands_at(rs[8], "parent_place_id:u32"@, off) ==> u32_at(s, 24 * id + off) == poi_point_of(s, id)->0.parent_place_id,
        stands_at(rs[8], "rank:u8"@, off) ==> s[24 * id + off] == poi_point_of(s, id)->0.rank,
{
    reveal_strlit("category_id:u32");
    reveal_strlit("lat:f32");
    reveal_strlit("lng:f32");
    reveal_strlit("name_id:u32");
    reveal_strlit("parent_place_id:u32");
    reveal_strlit("rank:u8");
    let fields = field_texts(rs[8].fields@);
    assert(fields.len() == rs[8].fields@.len());
    assert(fields.len() == 6);
    assert(fields[0].0 == "category_id:u32"@);
    assert(fields[1].0 == "lat:f32"@);
    assert(fields[2].0 == "lng:f32"@);
    assert(fields[3].0 == "name_id:u32"@);
    assert(fields[4].0 == "parent_place_id:u32"@);
    assert(fields[5].0 == "rank:u8"@);
    assert("category_id:u32"@.len() == 15 && "category_id:u32"@[0] == 'c' && "category_id:u32"@[1] == 'a' && "category_id:u32"@[2] == 't');
    assert("lat:f32"@.len() == 7 && "lat:f32"@[0] == 'l' && "lat:f32"@[1] == 'a' && "lat:f32"@[2] == 't');
    assert("lng:f32"@.len() == 7 && "lng:f32"@[0] == 'l' && "lng:f32"@[1] == 'n' && "lng:f32"@[2] == 'g');
    assert("name_id:u32"@.len() == 11 && "name_id:u32"@[0] == 'n' && "name_id:u32"@[1] == 'a' && "name_id:u32"@[2] == 'm');
    assert("parent_place_id:u32"@.len() == 19 && "parent_place_id:u32"@[0] == 'p' && "parent_place_id:u32"@[1] == 'a' && "parent_place_id:u32"@[2] == 'r');
    assert("rank:u8"@.len() == 7 && "rank:u8"@[0] == 'r' && "rank:u8"@[1] == 'a' && "rank:u8"@[2] == 'n');
    if stands_at(rs[8], "category_id:u32"@, off) {
        let k = choose|k: int|
            0 <= k < rs[8].fields@.len() && (#[trigger] rs[8].fields@[k]).name@ == "category_id:u32"@ && off
                == rs[8].fields@[k].offset;
        assert(fields[k] == (rs[8].fields@[k].name@, rs[8].fields@[k].offset));
        assert(k == 0 || k == 1 || k == 2 || k == 3 || k == 4 || k == 5);
    }
    if stands_at(rs[8], "lat:f32"@, off) {
        let k = choose|k: int|
            0 <= k < rs[8].fields@.len() && (#[trigger] rs[8].fields@[k]).name@ == "lat:f32"@ && off
                == rs[8].fields@[k].offset;
        assert(fields[k] == (rs[8].fields@[k].name@, rs[8].fields@[k].offset));
        assert(k == 0 || k == 1 || k == 2 || k == 3 || k == 4 || k == 5);
    }
    if stands_at(rs[8], "lng:f32"@, off) {
        let k = choose|k: int|
            0 <= k < rs[8].fields@.len() && (#[trigger] rs[8].fields@[k]).name@ == "lng:f32"@ && off
                == rs[8].fields@[k].offset;
        assert(fields[k] == (rs[8].fields@[k].name@, rs[8].fields@[k].offset));
        assert(k == 0 || k == 1 || k == 2 || k == 3 || k == 4 || k == 5);
    }
    if stands_at(rs[8], "name_id:u32"@, off) {
        let k = choose|k: int|
            0 <= k < rs[8].fields@.len() && (#[trigger] rs[8].fields@[k]).name@ == "name_id:u32"@ && off
                == rs[8].fields@[k].offset;
        assert(fields[k] == (rs[8].fields@[k].name@, rs[8].fields@[k].offset));
        assert(k == 0 || k == 1 || k == 2 || k == 3 || k == 4 || k == 5);
    }
    if stands_at(rs[8], "parent_place_id:u32"@, off) {
        let k = choose|k: int|
            0 <= k < rs[8].fields@.len() && (#[trigger] rs[8].fields@[k]).name@ == "parent_place_id:u32"@ && off
                == rs[8].fields@[k].offset;
        assert(fields[k] == (rs[8].fields@[k].name@, rs[8].fields@[k].offset));
        assert(k == 0 || k == 1 || k == 2 || k == 3 || k == 4 || k == 5);
    }
    if stands_at(rs[8], "rank:u8"@, off) {
        let k = choose|k: int|
            0 <= k < rs[8].fields@.len() && (#[trigger] rs[8].fields@[k]).name@ == "rank:u8"@ && off
                == rs[8].fields@[k].offset;
        assert(fields[k] == (rs[8].fields@[k].name@, rs[8].fields@[k].offset));
        assert(k == 0 || k == 1 || k == 2 || k == 3 || k == 4 || k == 5);
    }
}

/// The fields of streets stand where the manifest says.
pub proof fn law_streets_are_laid_out(rs: Seq<RecordLayout>, s: Seq<u8>, id: int, off: int)
    requires
        reads_layouts(rs),
        way_header_of(s, id) is Some,
    ensures
        rs[9].size == 12,
        stands_at(rs[9], "name_id:u32"@, off) ==> u32_at(s, 12 * id + off) == way_header_of(s, id)->0.name_id,
        stands_at(rs[9], "node_count:u8"@, off) ==> s[12 * id + off] == way_header_of(s, id)->0.node_count,
        stands_at(rs[9], "node_offset:u32"@, off) ==> u32_at(s, 12 * id + off) == way_header_of(s, id)->0.node_offset,
{
    reveal_strlit("name_id:u32");
    reveal_strlit("node_count:u8");
    reveal_strlit("node_offset:u32");
    let fields = field_texts(rs[9].fields@);
    assert(fields.len() == rs[9].fields@.len());
    assert(fields.len() == 3);
    assert(fields[0].0 == "name_id:u32"@);
    assert(fields[1].0 == "node_count:u8"@);
    assert(fields[2].0 == "node_offset:u32"@);
    assert("name_id:u32"@.len() == 11 && "name_id:u32"@[0] == 'n' && "name_id:u32"@[1] == 'a' && "name_id:u32"@[2] == 'm');
    assert("node_count:u8"@.len() == 13 && "node_count:u8"@[0] == 'n' && "node_count:u8"@[1] == 'o' && "node_count:u8"@[2] == 'd');
    assert("node_offset:u32"@.len() == 15 && "node_offset:u32"@[0] == 'n' && "node_offset:u32"@[1] == 'o' && "node_offset:u32"@[2] == 'd');
    if stands_at(rs[9], "name_id:u32"@, off) {
        let k = choose|k: int|
            0 <= k < rs[9].fields@.len() && (#[trigger] rs[9].fields@[k]).name@ == "name_id:u32"@ && off
                == rs[9].fields@[k].offset;
        assert(fields[k] == (rs[9].fields@[k].name@, rs[9].fields@[k].offset));
        assert(k == 0 || k == 1 || k == 2);
    }
    if stands_at(rs[9], "node_count:u8"@, off) {
        let k = choose|k: int|
            0 <= k < rs[9].fields@.len() && (#[trigger] rs[9].fields@[k]).name@ == "node_count:u8"@ && off
                == rs[9].fields@[k].offset;
        assert(fields[k] == (rs[9].fields@[k].name@, rs[9].fields@[k].offset));
        assert(k == 0 || k == 1 || k == 2);
    }
    if stands_at(rs[9], "node_offset:u32"@, off) {
        let k = choose|k: int|
            0 <= k < rs[9].fields@.len() && (#[trigger] rs[9].fields@[k]).name@ == "node_offset:u32"@ && off
                == rs[9].fields@[k].offset;
        assert(fields[k] == (rs[9].fields@[k].name@, rs[9].fields@[k].offset));
        assert(k == 0 || k == 1 || k == 2);
    }
}

/// The offsets of a cell stand where the manifest says: that of the streets, that
/// of the addresses and that of the ways with interpolated numbers.
pub proof fn law_cells_are_laid_out(rs: Seq<RecordLayout>, cells: Seq<u8>, cell: u64, i: int)
    requires
        reads_layouts(rs),
        crate::bytes::bisect(
            crate::bytes::table_keys(cells, 20),
            cell,
            0,
            crate::bytes::record_count(cells, 20),
        ) == Some(i),
    ensures
        rs[3].size == 20,
        field_texts(rs[3].fields@)[0].0 == "addr_offset:u32"@,
        field_texts(rs[3].fields@)[2].0 == "interp_offset:u32"@,
        field_texts(rs[3].fields@)[3].0 == "street_offset:u32"@,
        geo_offsets(cells, cell).addr == u32_at(
            cells,
            20 * i + field_texts(rs[3].fields@)[0].1,
        ),
        geo_offsets(cells, cell).interp == u32_at(
            cells,
            20 * i + field_texts(rs[3].fields@)[2].1,
        ),
        geo_offsets(cells, cell).street == u32_at(
            cells,
            20 * i + field_texts(rs[3].fields@)[3].1,
        ),
{
}

/// The fields of localised names stand where the manifest says.
pub proof fn law_localised_names_are_laid_out(rs: Seq<RecordLayout>, names: I18nNames<'_>, i: int)
    requires
        reads_layouts(rs),
    ensures
        ({
            let f = field_texts(rs[4].fields@);
            let s = names.data@;
            let r = names.record(i);
            &&& rs[4].size == 16
            &&& f[1].0 == "alias_type:u8"@ && r.alias_type == s[16 * i + f[1].1]
            &&& f[2].0 == "entity_id:u32"@ && r.entity_id == u32_at(s, 16 * i + f[2].1)
            &&& f[3].0 == "entity_type:u8"@ && r.entity_type == s[16 * i + f[3].1]
            &&& f[4].0 == "lang_code:u16"@ && r.lang_code == u16_at(s, 16 * i + f[4].1)
            &&& f[5].0 == "name_id:u32"@ && r.name_id == u32_at(s, 16 * i + f[5].1)
        }),
{
}

/// The fields of the points of an address index stand where its schema says.
pub proof fn law_address_points_are_laid_out(
    schema: PointSchema,
    files: FileLengths,
    index: AddressPointIndex<'_>,
    id: int,
)
    requires
        is_point_schema(schema, files),
    ensures
        ({
            let f = spec_texts(schema.record_fields@);
            let s = index.points@;
            let p = index.point(id);
            &&& schema.record_size == 28
            &&& f.len() == 7
            &&& f[0].0 == "lat"@ && p.lat == u32_at(s, 28 * id + f[0].2)
            &&& f[1].0 == "lng"@ && p.lng == u32_at(s, 28 * id + f[1].2)
            &&& f[2].0 == "housenumber_id"@ && p.housenumber_id == u32_at(s, 28 * id + f[2].2)
            &&& f[3].0 == "street_id"@ && p.street_id == u32_at(s, 28 * id + f[3].2)
            &&& f[4].0 == "locality_id"@ && p.locality_id == u32_at(s, 28 * id + f[4].2)
            &&& f[5].0 == "postcode_id"@ && p.postcode_id == u32_at(s, 28 * id + f[5].2)
            &&& f[6].0 == "unit_id"@ && p.unit_id == u32_at(s, 28 * id + f[6].2)
        }),
{
}

/// An index is read only where its manifest is of the third version, in
/// little-endian order, with an empty string at the begin of the pool, and states
/// the length of each of its files.
pub proof fn law_index_is_held_against_its_manifest(
    dir: Seq<char>,
    schema: Option<&ReverseSchema>,
    lengths: Seq<u64>,
    first: u8,
    r: Result<(), String>,
    i: int,
)
    requires
        is_verified(dir, schema, lengths, first, r),
        lengths.len() == 21,
    ensures
        r is Ok ==> schema is Some && {
            let s = *schema->0;
            &&& s.version == 3
            &&& s.byte_order@ == "little"@
            &&& s.string_pool_zero_empty
            &&& first == 0
            &&& s.files@.len() == 21
            &&& 0 <= i < 21 ==> s.files@[i].length == lengths[i] && s.files@[i].name@
                == reverse_files()[i]
            &&& reads_layouts(s.records@)
        },
        r is Err ==> schema is None || first != 0 || !is_readable(*schema->0, lengths),
{
    if r is Ok {
        let s = *schema->0;
        assert(length_texts(s.files@).len() == s.files@.len());
        assert(named_lengths(lengths).len() == 21);
        if 0 <= i < 21 {
            assert(length_texts(s.files@)[i] == named_lengths(lengths)[i]);
        }
    }
}

} // verus!
