//! The schema that stands beside the files of an address index, so that files
//! of another layout, or of another build, are not read.
use vstd::prelude::*;
use crate::address_points::POINT_SIZE;
use crate::paths::{concat, dotted};
use crate::text::{
    append_str, chars_of, str_eq, string_of, strip_suffix, strip_suffix_seq,
};

verus! {

broadcast use vstd::seq::group_seq_axioms;

/// A field of a record: its name, its type and where it stands.
pub struct FieldSpec {
    pub name: String,
    pub kind: String,
    pub offset: u64,
}

/// The lengths of the four files of an address index.
#[derive(Clone, Copy, Debug, PartialEq, Eq, Structural)]
pub struct FileLengths {
    pub points: u64,
    pub cells: u64,
    pub entries: u64,
    pub strings: u64,
}

/// The schema of an address index.
pub struct PointSchema {
    pub format: String,
    pub version: u64,
    pub byte_order: String,
    pub record_size: u64,
    pub record_fields: Vec<FieldSpec>,
    pub cell_stride: u64,
    pub cell_fields: Vec<FieldSpec>,
    pub entry_count: String,
    pub entry_point_id: String,
    pub string_encoding: String,
    pub string_offset_zero: String,
    pub files: FileLengths,
}

pub open spec fn spec_texts(fields: Seq<FieldSpec>) -> Seq<(Seq<char>, Seq<char>, u64)> {
    Seq::new(fields.len(), |i: int| (fields[i].name@, fields[i].kind@, fields[i].offset))
}

/// The fields of a point.
pub open spec fn point_fields() -> Seq<(Seq<char>, Seq<char>, u64)> {
    seq![
        ("lat"@, "f32"@, 0u64),
        ("lng"@, "f32"@, 4u64),
        ("housenumber_id"@, "u32"@, 8u64),
        ("street_id"@, "u32"@, 12u64),
        ("locality_id"@, "u32"@, 16u64),
        ("postcode_id"@, "u32"@, 20u64),
        ("unit_id"@, "u32"@, 24u64),
    ]
}

/// The fields of a cell.
pub open spec fn cell_fields() -> Seq<(Seq<char>, Seq<char>, u64)> {
    seq![("cell_id"@, "u64"@, 0u64), ("entry_offset"@, "u32"@, 8u64)]
}

/// Whether a schema is the one that is read here, of files of these lengths.
pub open spec fn is_point_schema(s: PointSchema, files: FileLengths) -> bool {
    &&& s.format@ == "geocoder-address-points"@
    &&& s.version == 2
    &&& s.byte_order@ == "little"@
    &&& s.record_size == POINT_SIZE
    &&& spec_texts(s.record_fields@) == point_fields()
    &&& s.cell_stride == 12
    &&& spec_texts(s.cell_fields@) == cell_fields()
    &&& s.entry_count@ == "u16"@
    &&& s.entry_point_id@ == "u32"@
    &&& s.string_encoding@ == "utf8-nul"@
    &&& s.string_offset_zero@ == "empty"@
    &&& s.files == files
}

fn field(name: &str, kind: &str, offset: u64) -> (r: FieldSpec)
    ensures
        r.name@ == name@,
        r.kind@ == kind@,
        r.offset == offset,
{
    FieldSpec { name: name.to_owned(), kind: kind.to_owned(), offset }
}

fn expected_point_fields() -> (r: Vec<FieldSpec>)
    ensures
        spec_texts(r@) == point_fields(),
{
    let mut out: Vec<FieldSpec> = Vec::new();
    out.push(field("lat", "f32", 0));
    out.push(field("lng", "f32", 4));
    out.push(field("housenumber_id", "u32", 8));
    out.push(field("street_id", "u32", 12));
    out.push(field("locality_id", "u32", 16));
    out.push(field("postcode_id", "u32", 20));
    out.push(field("unit_id", "u32", 24));
    assert(spec_texts(out@) =~= point_fields());
    out
}

fn expected_cell_fields() -> (r: Vec<FieldSpec>)
    ensures
        spec_texts(r@) == cell_fields(),
{
    let mut out: Vec<FieldSpec> = Vec::new();
    out.push(field("cell_id", "u64", 0));
    out.push(field("entry_offset", "u32", 8));
    assert(spec_texts(out@) =~= cell_fields());
    out
}

/// The schema for files of these lengths.
pub fn point_schema(files: FileLengths) -> (r: PointSchema)
    ensures
        is_point_schema(r, files),
{
    PointSchema {
        format: "geocoder-address-points".to_owned(),
        version: 2,
        byte_order: "little".to_owned(),
        record_size: POINT_SIZE as u64,
        record_fields: expected_point_fields(),
        cell_stride: 12,
        cell_fields: expected_cell_fields(),
        entry_count: "u16".to_owned(),
        entry_point_id: "u32".to_owned(),
        string_encoding: "utf8-nul".to_owned(),
        string_offset_zero: "empty".to_owned(),
        files,
    }
}

fn same_fields(a: &[FieldSpec], b: &[FieldSpec]) -> (r: bool)
    ensures
        r == (spec_texts(a@) == spec_texts(b@)),
{
    let ghost x = spec_texts(a@);
    let ghost y = spec_texts(b@);
    if a.len() != b.len() {
        assert(x.len() != y.len());
        return false;
    }
    for i in 0..a.len()
        invariant
            x == spec_texts(a@),
            y == spec_texts(b@),
            a@.len() == b@.len(),
            forall|j: int| 0 <= j < i ==> #[trigger] x[j] == y[j],
    {
        assert(x[i as int] == (a@[i as int].name@, a@[i as int].kind@, a@[i as int].offset));
        assert(y[i as int] == (b@[i as int].name@, b@[i as int].kind@, b@[i as int].offset));
        if !str_eq(a[i].name.as_str(), b[i].name.as_str()) || !str_eq(
            a[i].kind.as_str(),
            b[i].kind.as_str(),
        ) || a[i].offset != b[i].offset {
            assert(x[i as int] != y[i as int]);
            return false;
        }
    }
    assert(x =~= y);
    true
}

/// Whether a schema is the one that is read here, of files of these lengths.
pub fn schema_matches(s: &PointSchema, files: FileLengths) -> (r: bool)
    ensures
        r == is_point_schema(*s, files),
{
    str_eq(s.format.as_str(), "geocoder-address-points") && s.version == 2 && str_eq(
        s.byte_order.as_str(),
        "little",
    ) && s.record_size == POINT_SIZE as u64 && same_fields(
        s.record_fields.as_slice(),
        expected_point_fields().as_slice(),
    ) && s.cell_stride == 12 && same_fields(
        s.cell_fields.as_slice(),
        expected_cell_fields().as_slice(),
    ) && str_eq(s.entry_count.as_str(), "u16") && str_eq(s.entry_point_id.as_str(), "u32")
        && str_eq(s.string_encoding.as_str(), "utf8-nul") && str_eq(
        s.string_offset_zero.as_str(),
        "empty",
    ) && s.files == files
}

/// What is said of a schema that is not the one that is read here.
pub open spec fn point_schema_fault(path: Seq<char>) -> Seq<char> {
    path
        + ": address-point schema or file lengths do not match this reader; rebuild this index"@
}

/// Refuses files whose schema is not the one that is read here, or that are
/// not the ones it was written for. `schema` is what the schema says, where it
/// says it in this form.
pub fn verify_points(schema_path: &str, schema: Option<&PointSchema>, files: FileLengths) -> (r:
    Result<(), String>)
    ensures
        match r {
            Ok(()) => schema is Some && is_point_schema(*schema->0, files),
            Err(e) => !(schema is Some && is_point_schema(*schema->0, files)) && e@
                == point_schema_fault(schema_path@),
        },
{
    let ok = match schema {
        Some(s) => schema_matches(s, files),
        None => false,
    };
    if ok {
        Ok(())
    } else {
        Err(
            concat(
                schema_path,
                ": address-point schema or file lengths do not match this reader; rebuild this index",
            ),
        )
    }
}

/// A schema is accepted for the files that it was written for, and for no
/// files of other lengths.
pub proof fn law_schema_fits_its_files(s: PointSchema, written: FileLengths, found: FileLengths)
    requires
        is_point_schema(s, written),
    ensures
        is_point_schema(s, found) <==> written == found,
{
}

/// The schema of a points file: the same name with another extension.
pub open spec fn schema_name(points: Seq<char>) -> Seq<char> {
    match strip_suffix_seq(points, ".bin"@) {
        Some(stem) => dotted(stem, "schema.json"@),
        None => dotted(points, "schema.json"@),
    }
}

/// The path of the schema of a points file.
pub fn schema_path(points: &str) -> (r: String)
    ensures
        r@ == schema_name(points@),
{
    let chars = chars_of(points);
    let mut out = match strip_suffix(&chars, &chars_of(".bin")) {
        Some(stem) => stem,
        None => chars,
    };
    out.push('.');
    append_str(&mut out, "schema.json");
    string_of(&out)
}

} // verus!
