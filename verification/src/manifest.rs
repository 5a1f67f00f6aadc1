//! Manifests of indexes: where they come from, and whether their layout is the
//! one that is read here.
//!
//! The layout that is read is that of [`crate::records`], field by field. There
//! an address record has 32 bytes and no postcode, and regions, places and
//! points of interest have a rank or a level but no importance of their own. A
//! manifest that lists such fields belongs to another layout, and its index is
//! refused: read with the offsets of this one, it would give wrong records.
use vstd::prelude::*;
use crate::paths::{join_path, joined};
use crate::records::{
    ADDR_POINT_SIZE, ADMIN_POLYGON_SIZE, INTERP_WAY_SIZE, NODE_COORD_SIZE, PLACE_POINT_SIZE,
    POI_POINT_SIZE, WAY_HEADER_SIZE,
};
use crate::text::{append_str, chars_of, str_eq, string_of};

verus! {

broadcast use vstd::seq::group_seq_axioms;

// --- Provenance ---
/// The state of the working tree that a program was built from.
#[derive(Clone, Copy, Debug, PartialEq, Eq, Structural)]
pub enum GitDirty {
    Clean,
    Dirty,
    Unknown,
}

/// The commit that a program was built from, where the build noted it.
pub fn git_sha(noted: Option<&'static str>) -> (r: &'static str)
    ensures
        r@ == (match noted {
            Some(s) => s@,
            None => "unknown"@,
        }),
{
    match noted {
        Some(s) => s,
        None => "unknown",
    }
}

/// The state of the working tree, as the build noted it.
pub fn git_dirty_state(noted: Option<&str>) -> (r: GitDirty)
    ensures
        r == (match noted {
            Some(s) => if s@ == "true"@ {
                GitDirty::Dirty
            } else if s@ == "false"@ {
                GitDirty::Clean
            } else {
                GitDirty::Unknown
            },
            None => GitDirty::Unknown,
        }),
{
    proof {
        reveal_strlit("true");
        reveal_strlit("false");
        assert("true"@.len() != "false"@.len());
    }
    match noted {
        Some(s) => if str_eq(s, "true") {
            GitDirty::Dirty
        } else if str_eq(s, "false") {
            GitDirty::Clean
        } else {
            GitDirty::Unknown
        },
        None => GitDirty::Unknown,
    }
}

/// What a manifest says of the working tree: whether it had changes, and
/// whether that is known.
pub fn dirty_flags(d: GitDirty) -> (r: (bool, bool))
    ensures
        r.0 == (d == GitDirty::Dirty),
        r.1 == (d != GitDirty::Unknown),
{
    match d {
        GitDirty::Dirty => (true, true),
        GitDirty::Clean => (false, true),
        GitDirty::Unknown => (false, false),
    }
}

/// The manifest of a tool.
pub fn manifest_path(dir: &str, tool: &str) -> (r: String)
    ensures
        r@ == joined(dir@, "manifest_"@ + tool@ + ".json"@),
{
    let mut name: Vec<char> = Vec::new();
    append_str(&mut name, "manifest_");
    append_str(&mut name, tool);
    append_str(&mut name, ".json");
    assert(name@ =~= "manifest_"@ + tool@ + ".json"@);
    join_path(dir, string_of(&name).as_str())
}

// --- Layouts ---
/// Where a field of a record stands. The name has the type behind it.
pub struct FieldLayout {
    pub name: String,
    pub offset: u64,
}

/// The layout of a record, its fields in the order of their names.
pub struct RecordLayout {
    pub name: String,
    pub size: u64,
    pub fields: Vec<FieldLayout>,
}

/// The length of a file.
pub struct FileLength {
    pub name: String,
    pub length: u64,
}

/// What the manifest of a reverse index says of its files. Records and files
/// stand in the order of their names.
pub struct ReverseSchema {
    pub version: u64,
    pub byte_order: String,
    pub string_pool_zero_empty: bool,
    pub records: Vec<RecordLayout>,
    pub files: Vec<FileLength>,
}

pub open spec fn field_texts(fields: Seq<FieldLayout>) -> Seq<(Seq<char>, u64)> {
    Seq::new(fields.len(), |i: int| (fields[i].name@, fields[i].offset))
}

/// Whether a record has a layout.
pub open spec fn has_layout(
    r: RecordLayout,
    name: Seq<char>,
    size: u64,
    fields: Seq<(Seq<char>, u64)>,
) -> bool {
    r.name@ == name && r.size == size && field_texts(r.fields@) == fields
}

pub open spec fn pair_texts(fields: Seq<(&str, u64)>) -> Seq<(Seq<char>, u64)> {
    Seq::new(fields.len(), |i: int| (fields[i].0@, fields[i].1))
}

fn is_layout(r: &RecordLayout, name: &str, size: u64, fields: &[(&str, u64)]) -> (b: bool)
    ensures
        b == has_layout(*r, name@, size, pair_texts(fields@)),
{
    let ghost have = field_texts(r.fields@);
    let ghost want = pair_texts(fields@);
    if !str_eq(r.name.as_str(), name) || r.size != size {
        return false;
    }
    if r.fields.len() != fields.len() {
        assert(have.len() != want.len());
        return false;
    }
    for i in 0..fields.len()
        invariant
            have == field_texts(r.fields@),
            want == pair_texts(fields@),
            r.fields@.len() == fields@.len(),
            forall|j: int| 0 <= j < i ==> #[trigger] have[j] == want[j],
    {
        let field: (&str, u64) = fields[i];
        assert(want[i as int] == (field.0@, field.1));
        assert(have[i as int] == (r.fields@[i as int].name@, r.fields@[i as int].offset));
        if !str_eq(r.fields[i].name.as_str(), field.0) || r.fields[i].offset != field.1 {
            assert(have[i as int] != want[i as int]);
            return false;
        }
    }
    assert(have =~= want);
    true
}

/// The layouts that are read here.
pub open spec fn reads_layouts(rs: Seq<RecordLayout>) -> bool {
    &&& rs.len() == 10
    &&& has_layout(
        rs[0],
        "AddrPoint"@,
        ADDR_POINT_SIZE as u64,
        seq![
            ("flags:u8"@, 28u64),
            ("floor_id:u32"@, 20u64),
            ("housenumber_id:u32"@, 8u64),
            ("lat:f32"@, 0u64),
            ("lng:f32"@, 4u64),
            ("parent_place_id:u32"@, 24u64),
            ("street_or_place_id:u32"@, 12u64),
            ("unit_id:u32"@, 16u64),
        ],
    )
    &&& has_layout(
        rs[1],
        "AdminPolygon"@,
        ADMIN_POLYGON_SIZE as u64,
        seq![
            ("admin_level:u8"@, 12u64),
            ("area:f32"@, 16u64),
            ("country_code:u16"@, 20u64),
            ("name_id:u32"@, 8u64),
            ("vertex_count:u16"@, 4u64),
            ("vertex_offset:u32"@, 0u64),
        ],
    )
    &&& has_layout(
        rs[2],
        "CellOffset"@,
        12,
        seq![("cell_id:u64"@, 0u64), ("entry_offset:u32"@, 8u64)],
    )
    &&& has_layout(
        rs[3],
        "GeoCell"@,
        20,
        seq![
            ("addr_offset:u32"@, 12u64),
            ("cell_id:u64"@, 0u64),
            ("interp_offset:u32"@, 16u64),
            ("street_offset:u32"@, 8u64),
        ],
    )
    &&& has_layout(
        rs[4],
        "I18nName"@,
        16,
        seq![
            ("_pad1:u32"@, 12u64),
            ("alias_type:u8"@, 1u64),
            ("entity_id:u32"@, 4u64),
            ("entity_type:u8"@, 0u64),
            ("lang_code:u16"@, 2u64),
            ("name_id:u32"@, 8u64),
        ],
    )
    &&& has_layout(
        rs[5],
        "InterpWay"@,
        INTERP_WAY_SIZE as u64,
        seq![
            ("end_number:u32"@, 16u64),
            ("interpolation:u8"@, 20u64),
            ("node_count:u8"@, 4u64),
            ("node_offset:u32"@, 0u64),
            ("start_number:u32"@, 12u64),
            ("street_id:u32"@, 8u64),
        ],
    )
    &&& has_layout(
        rs[6],
        "NodeCoord"@,
        NODE_COORD_SIZE as u64,
        seq![("lat:f32"@, 0u64), ("lng:f32"@, 4u64)],
    )
    &&& has_layout(
        rs[7],
        "PlacePoint"@,
        PLACE_POINT_SIZE as u64,
        seq![
            ("lat:f32"@, 0u64),
            ("lng:f32"@, 4u64),
            ("name_id:u32"@, 8u64),
            ("rank:u8"@, 12u64),
        ],
    )
    &&& has_layout(
        rs[8],
        "PoiPoint"@,
        POI_POINT_SIZE as u64,
        seq![
            ("category_id:u32"@, 12u64),
            ("lat:f32"@, 0u64),
            ("lng:f32"@, 4u64),
            ("name_id:u32"@, 8u64),
            ("parent_place_id:u32"@, 20u64),
            ("rank:u8"@, 16u64),
        ],
    )
    &&& has_layout(
        rs[9],
        "WayHeader"@,
        WAY_HEADER_SIZE as u64,
        seq![
            ("name_id:u32"@, 8u64),
            ("node_count:u8"@, 4u64),
            ("node_offset:u32"@, 0u64),
        ],
    )
}

fn layout_at(rs: &[RecordLayout], i: usize, name: &str, size: u64, fields: &[(&str, u64)]) -> (b: bool)
    requires
        i < rs@.len(),
    ensures
        b == has_layout(rs@[i as int], name@, size, pair_texts(fields@)),
{
    is_layout(&rs[i], name, size, fields)
}

fn layouts_match(rs: &[RecordLayout]) -> (b: bool)
    ensures
        b == reads_layouts(rs@),
{
    if rs.len() != 10 {
        return false;
    }
    let addr: [(&str, u64); 8] = [
        ("flags:u8", 28),
        ("floor_id:u32", 20),
        ("housenumber_id:u32", 8),
        ("lat:f32", 0),
        ("lng:f32", 4),
        ("parent_place_id:u32", 24),
        ("street_or_place_id:u32", 12),
        ("unit_id:u32", 16),
    ];
    assert(pair_texts(addr@) =~= seq![
        ("flags:u8"@, 28u64),
        ("floor_id:u32"@, 20u64),
        ("housenumber_id:u32"@, 8u64),
        ("lat:f32"@, 0u64),
        ("lng:f32"@, 4u64),
        ("parent_place_id:u32"@, 24u64),
        ("street_or_place_id:u32"@, 12u64),
        ("unit_id:u32"@, 16u64),
    ]);
    if !layout_at(rs, 0, "AddrPoint", ADDR_POINT_SIZE as u64, addr.as_slice()) {
        return false;
    }
    let admin: [(&str, u64); 6] = [
        ("admin_level:u8", 12),
        ("area:f32", 16),
        ("country_code:u16", 20),
        ("name_id:u32", 8),
        ("vertex_count:u16", 4),
        ("vertex_offset:u32", 0),
    ];
    assert(pair_texts(admin@) =~= seq![
        ("admin_level:u8"@, 12u64),
        ("area:f32"@, 16u64),
        ("country_code:u16"@, 20u64),
        ("name_id:u32"@, 8u64),
        ("vertex_count:u16"@, 4u64),
        ("vertex_offset:u32"@, 0u64),
    ]);
    if !layout_at(rs, 1, "AdminPolygon", ADMIN_POLYGON_SIZE as u64, admin.as_slice()) {
        return false;
    }
    let cell: [(&str, u64); 2] = [("cell_id:u64", 0), ("entry_offset:u32", 8)];
    assert(pair_texts(cell@) =~= seq![("cell_id:u64"@, 0u64), ("entry_offset:u32"@, 8u64)]);
    if !layout_at(rs, 2, "CellOffset", 12, cell.as_slice()) {
        return false;
    }
    let geo: [(&str, u64); 4] = [
        ("addr_offset:u32", 12),
        ("cell_id:u64", 0),
        ("interp_offset:u32", 16),
        ("street_offset:u32", 8),
    ];
    assert(pair_texts(geo@) =~= seq![
        ("addr_offset:u32"@, 12u64),
        ("cell_id:u64"@, 0u64),
        ("interp_offset:u32"@, 16u64),
        ("street_offset:u32"@, 8u64),
    ]);
    if !layout_at(rs, 3, "GeoCell", 20, geo.as_slice()) {
        return false;
    }
    let i18n: [(&str, u64); 6] = [
        ("_pad1:u32", 12),
        ("alias_type:u8", 1),
        ("entity_id:u32", 4),
        ("entity_type:u8", 0),
        ("lang_code:u16", 2),
        ("name_id:u32", 8),
    ];
    assert(pair_texts(i18n@) =~= seq![
        ("_pad1:u32"@, 12u64),
        ("alias_type:u8"@, 1u64),
        ("entity_id:u32"@, 4u64),
        ("entity_type:u8"@, 0u64),
        ("lang_code:u16"@, 2u64),
        ("name_id:u32"@, 8u64),
    ]);
    if !layout_at(rs, 4, "I18nName", 16, i18n.as_slice()) {
        return false;
    }
    layouts_match_rest(rs)
}

spec fn reads_rest(rs: Seq<RecordLayout>) -> bool {
    &&& has_layout(
        rs[5],
        "InterpWay"@,
        INTERP_WAY_SIZE as u64,
        seq![
            ("end_number:u32"@, 16u64),
            ("interpolation:u8"@, 20u64),
            ("node_count:u8"@, 4u64),
            ("node_offset:u32"@, 0u64),
            ("start_number:u32"@, 12u64),
            ("street_id:u32"@, 8u64),
        ],
    )
    &&& has_layout(
        rs[6],
        "NodeCoord"@,
        NODE_COORD_SIZE as u64,
        seq![("lat:f32"@, 0u64), ("lng:f32"@, 4u64)],
    )
    &&& has_layout(
        rs[7],
        "PlacePoint"@,
        PLACE_POINT_SIZE as u64,
        seq![
            ("lat:f32"@, 0u64),
            ("lng:f32"@, 4u64),
            ("name_id:u32"@, 8u64),
            ("rank:u8"@, 12u64),
        ],
    )
    &&& has_layout(
        rs[8],
        "PoiPoint"@,
        POI_POINT_SIZE as u64,
        seq![
            ("category_id:u32"@, 12u64),
            ("lat:f32"@, 0u64),
            ("lng:f32"@, 4u64),
            ("name_id:u32"@, 8u64),
            ("parent_place_id:u32"@, 20u64),
            ("rank:u8"@, 16u64),
        ],
    )
    &&& has_layout(
        rs[9],
        "WayHeader"@,
        WAY_HEADER_SIZE as u64,
        seq![
            ("name_id:u32"@, 8u64),
            ("node_count:u8"@, 4u64),
            ("node_offset:u32"@, 0u64),
        ],
    )
}

fn layouts_match_rest(rs: &[RecordLayout]) -> (b: bool)
    requires
        rs@.len() == 10,
    ensures
        b == reads_rest(rs@),
{
    let interp: [(&str, u64); 6] = [
        ("end_number:u32", 16),
        ("interpolation:u8", 20),
        ("node_count:u8", 4),
        ("node_offset:u32", 0),
        ("start_number:u32", 12),
        ("street_id:u32", 8),
    ];
    assert(pair_texts(interp@) =~= seq![
        ("end_number:u32"@, 16u64),
        ("interpolation:u8"@, 20u64),
        ("node_count:u8"@, 4u64),
        ("node_offset:u32"@, 0u64),
        ("start_number:u32"@, 12u64),
        ("street_id:u32"@, 8u64),
    ]);
    if !layout_at(rs, 5, "InterpWay", INTERP_WAY_SIZE as u64, interp.as_slice()) {
        return false;
    }
    let node: [(&str, u64); 2] = [("lat:f32", 0), ("lng:f32", 4)];
    assert(pair_texts(node@) =~= seq![("lat:f32"@, 0u64), ("lng:f32"@, 4u64)]);
    if !layout_at(rs, 6, "NodeCoord", NODE_COORD_SIZE as u64, node.as_slice()) {
        return false;
    }
    let place: [(&str, u64); 4] = [
        ("lat:f32", 0),
        ("lng:f32", 4),
        ("name_id:u32", 8),
        ("rank:u8", 12),
    ];
    assert(pair_texts(place@) =~= seq![
        ("lat:f32"@, 0u64),
        ("lng:f32"@, 4u64),
        ("name_id:u32"@, 8u64),
        ("rank:u8"@, 12u64),
    ]);
    if !layout_at(rs, 7, "PlacePoint", PLACE_POINT_SIZE as u64, place.as_slice()) {
        return false;
    }
    let poi: [(&str, u64); 6] = [
        ("category_id:u32", 12),
        ("lat:f32", 0),
        ("lng:f32", 4),
        ("name_id:u32", 8),
        ("parent_place_id:u32", 20),
        ("rank:u8", 16),
    ];
    assert(pair_texts(poi@) =~= seq![
        ("category_id:u32"@, 12u64),
        ("lat:f32"@, 0u64),
        ("lng:f32"@, 4u64),
        ("name_id:u32"@, 8u64),
        ("parent_place_id:u32"@, 20u64),
        ("rank:u8"@, 16u64),
    ]);
    if !layout_at(rs, 8, "PoiPoint", POI_POINT_SIZE as u64, poi.as_slice()) {
        return false;
    }
    let way: [(&str, u64); 3] = [("name_id:u32", 8), ("node_count:u8", 4), ("node_offset:u32", 0)];
    assert(pair_texts(way@) =~= seq![
        ("name_id:u32"@, 8u64),
        ("node_count:u8"@, 4u64),
        ("node_offset:u32"@, 0u64),
    ]);
    layout_at(rs, 9, "WayHeader", WAY_HEADER_SIZE as u64, way.as_slice())
}

// --- Files ---
/// The files of a reverse index, in the order of their names.
pub open spec fn reverse_files() -> Seq<Seq<char>> {
    seq![
        "addr_entries.bin"@,
        "addr_points.bin"@,
        "admin_cells.bin"@,
        "admin_entries.bin"@,
        "admin_polygons.bin"@,
        "admin_vertices.bin"@,
        "geo_cells.bin"@,
        "i18n_names.bin"@,
        "interp_entries.bin"@,
        "interp_nodes.bin"@,
        "interp_ways.bin"@,
        "place_cells.bin"@,
        "place_entries.bin"@,
        "place_points.bin"@,
        "poi_cells.bin"@,
        "poi_entries.bin"@,
        "poi_points.bin"@,
        "street_entries.bin"@,
        "street_nodes.bin"@,
        "street_ways.bin"@,
        "strings.bin"@,
    ]
}

/// The files of a reverse index.
pub fn reverse_file_names() -> (r: [&'static str; 21])
    ensures
        Seq::new(21, |i: int| r@[i]@) == reverse_files(),
{
    let r = [
        "addr_entries.bin",
        "addr_points.bin",
        "admin_cells.bin",
        "admin_entries.bin",
        "admin_polygons.bin",
        "admin_vertices.bin",
        "geo_cells.bin",
        "i18n_names.bin",
        "interp_entries.bin",
        "interp_nodes.bin",
        "interp_ways.bin",
        "place_cells.bin",
        "place_entries.bin",
        "place_points.bin",
        "poi_cells.bin",
        "poi_entries.bin",
        "poi_points.bin",
        "street_entries.bin",
        "street_nodes.bin",
        "street_ways.bin",
        "strings.bin",
    ];
    assert(Seq::new(21, |i: int| r@[i]@) =~= reverse_files());
    r
}

pub open spec fn length_texts(files: Seq<FileLength>) -> Seq<(Seq<char>, u64)> {
    Seq::new(files.len(), |i: int| (files[i].name@, files[i].length))
}

/// The lengths of the files of a reverse index, with their names.
pub open spec fn named_lengths(lengths: Seq<u64>) -> Seq<(Seq<char>, u64)> {
    Seq::new(21, |i: int| (reverse_files()[i], lengths[i]))
}

fn lengths_match(files: &[FileLength], lengths: &[u64; 21]) -> (b: bool)
    ensures
        b == (length_texts(files@) == named_lengths(lengths@)),
{
    let ghost have = length_texts(files@);
    let ghost want = named_lengths(lengths@);
    let names = reverse_file_names();
    let ghost texts = Seq::new(21, |i: int| names@[i]@);
    if files.len() != 21 {
        assert(have.len() != want.len());
        return false;
    }
    for i in 0..21usize
        invariant
            have == length_texts(files@),
            want == named_lengths(lengths@),
            texts == Seq::new(21, |i: int| names@[i]@),
            texts == reverse_files(),
            files@.len() == 21,
            forall|j: int| 0 <= j < i ==> #[trigger] have[j] == want[j],
    {
        assert(texts[i as int] == names@[i as int]@);
        assert(have[i as int] == (files@[i as int].name@, files@[i as int].length));
        assert(want[i as int] == (texts[i as int], lengths@[i as int]));
        if !str_eq(files[i].name.as_str(), names[i]) || files[i].length != lengths[i] {
            assert(have[i as int] != want[i as int]);
            return false;
        }
    }
    assert(have =~= want);
    true
}

// --- Verification ---
/// The version of the layout that is read here.
pub const SCHEMA_VERSION: u64 = 3;

/// Whether a schema is the one that is read here, of files of these lengths.
pub open spec fn is_readable(s: ReverseSchema, lengths: Seq<u64>) -> bool {
    &&& s.version == SCHEMA_VERSION
    &&& s.byte_order@ == "little"@
    &&& s.string_pool_zero_empty
    &&& reads_layouts(s.records@)
    &&& length_texts(s.files@) == named_lengths(lengths)
}

/// What is said of a schema that is not read here.
pub open spec fn schema_fault(dir: Seq<char>) -> Seq<char> {
    joined(dir, "manifest_reverse.json"@)
        + ": reverse schema or file lengths do not match this reader; rebuild the index"@
}

/// What is said of a string pool that does not begin with an empty string.
pub open spec fn pool_fault(dir: Seq<char>) -> Seq<char> {
    dir + ": string pool offset zero is not empty; rebuild the index"@
}

/// Whether `r` is what becomes of an index that is held against its manifest.
pub open spec fn is_verified(
    dir: Seq<char>,
    schema: Option<&ReverseSchema>,
    lengths: Seq<u64>,
    first: u8,
    r: Result<(), String>,
) -> bool {
    let readable = schema is Some && is_readable(*schema->0, lengths);
    match r {
        Ok(()) => readable && first == 0,
        Err(e) => if !readable {
            e@ == schema_fault(dir)
        } else {
            first != 0 && e@ == pool_fault(dir)
        },
    }
}

/// Refuses an index of another layout than the one that is read here.
/// `schema` is what the manifest says, where it says it in this form;
/// `lengths` are the lengths of the files, and `first` is the first byte of
/// the string pool.
pub fn verify_reverse(dir: &str, schema: Option<&ReverseSchema>, lengths: &[u64; 21], first: u8) -> (r:
    Result<(), String>)
    ensures
        is_verified(dir@, schema, lengths@, first, r),
{
    let readable = match schema {
        Some(s) => s.version == SCHEMA_VERSION && str_eq(s.byte_order.as_str(), "little")
            && s.string_pool_zero_empty && layouts_match(s.records.as_slice()) && lengths_match(
            s.files.as_slice(),
            lengths,
        ),
        None => false,
    };
    if !readable {
        let mut m: Vec<char> = chars_of(
            join_path(dir, "manifest_reverse.json").as_str(),
        );
        append_str(
            &mut m,
            ": reverse schema or file lengths do not match this reader; rebuild the index",
        );
        return Err(string_of(&m));
    }
    if first != 0 {
        let mut m: Vec<char> = chars_of(dir);
        append_str(&mut m, ": string pool offset zero is not empty; rebuild the index");
        return Err(string_of(&m));
    }
    Ok(())
}

} // verus!
