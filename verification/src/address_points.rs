//! Address points: national datasets that pair a location with an address.
//!
//! Four files make up an index: fixed-size point records, a cell index over
//! them (two files, see [`crate::cell_index`]), and a pool of NUL-terminated
//! strings that the records point into.
use vstd::prelude::*;
use crate::bytes::{read_u32, record_count, lemma_record_bounds, str_at, text_at, u32_at};
use crate::cell_index::{ids_in_cells, scan_cells};
use crate::housenumber::{hn_matches, housenumber_matches};
use crate::ieee::{nearest, pick_nearest, Candidate};
use crate::paths::{concat, join_path, joined};
use crate::text::{chars_eq_ignore_case, chars_of, eq_ignore_case, string_of, trim_chars, trim_seq};

verus! {

broadcast use vstd::seq::group_seq_axioms;

/// Bytes of a point record.
pub const POINT_SIZE: usize = 28;

/// A record of the points file. The coordinates are bit patterns (binary32).
#[derive(Clone, Copy)]
pub struct AddressPoint {
    pub lat: u32,
    pub lng: u32,
    pub housenumber_id: u32,
    pub street_id: u32,
    pub locality_id: u32,
    pub postcode_id: u32,
    /// Zero where the point has no unit.
    pub unit_id: u32,
}

/// The point record at `off`.
pub open spec fn point_at(s: Seq<u8>, off: int) -> AddressPoint {
    AddressPoint {
        lat: u32_at(s, off),
        lng: u32_at(s, off + 4),
        housenumber_id: u32_at(s, off + 8),
        street_id: u32_at(s, off + 12),
        locality_id: u32_at(s, off + 16),
        postcode_id: u32_at(s, off + 20),
        unit_id: u32_at(s, off + 24),
    }
}

/// A resolved address. The coordinates are bit patterns (binary32).
pub struct AddressMatch<'a> {
    pub lat: u32,
    pub lng: u32,
    pub housenumber: &'a str,
    pub street: &'a str,
    pub locality: &'a str,
    pub postcode: &'a str,
    /// Empty where the record has no unit.
    pub unit: &'a str,
}

/// The content of an [`AddressMatch`].
pub struct AddressText {
    pub lat: u32,
    pub lng: u32,
    pub housenumber: Seq<char>,
    pub street: Seq<char>,
    pub locality: Seq<char>,
    pub postcode: Seq<char>,
    pub unit: Seq<char>,
}

impl<'a> View for AddressMatch<'a> {
    type V = AddressText;

    open spec fn view(&self) -> AddressText {
        AddressText {
            lat: self.lat,
            lng: self.lng,
            housenumber: self.housenumber@,
            street: self.street@,
            locality: self.locality@,
            postcode: self.postcode@,
            unit: self.unit@,
        }
    }
}

/// The content of an optional match.
pub open spec fn match_view(m: Option<AddressMatch<'_>>) -> Option<AddressText> {
    match m {
        Some(a) => Some(a@),
        None => None,
    }
}

/// Which of the files of an index are on disk.
#[derive(Clone, Copy, PartialEq, Eq, Structural, Debug)]
pub enum Presence {
    /// None of them: there is no index, which is not an error.
    Absent,
    /// A schema without the files that it describes.
    SchemaOnly,
    /// Some of them at least: the index must open, or it is broken.
    Present,
}

/// What the files found come to.
pub open spec fn presence_of(files: Seq<bool>, schema: bool) -> Presence {
    if files.contains(true) {
        Presence::Present
    } else if schema {
        Presence::SchemaOnly
    } else {
        Presence::Absent
    }
}

/// Classifies the files found: the four of the index in any order, and the
/// schema.
pub fn presence(files: [bool; 4], schema: bool) -> (r: Presence)
    ensures
        r == presence_of(files@, schema),
{
    if files[0] || files[1] || files[2] || files[3] {
        assert(files@.contains(true)) by {
            assert(files@[0] || files@[1] || files@[2] || files@[3]);
        }
        Presence::Present
    } else if schema {
        Presence::SchemaOnly
    } else {
        Presence::Absent
    }
}

/// Why the files of an index do not form one.
#[derive(Clone, Copy, PartialEq, Eq, Structural, Debug)]
pub enum IndexFault {
    /// The points file is empty or not a whole number of records.
    PointLength,
    /// The cell table is empty or not a whole number of records.
    CellLength,
    /// The entries are too short for a single count.
    EntryHeader,
    /// The string pool does not begin with the empty string.
    Sentinel,
}

/// The first fault of the four files.
pub open spec fn index_fault(
    points: Seq<u8>,
    cells: Seq<u8>,
    entries: Seq<u8>,
    strings: Seq<u8>,
) -> Option<IndexFault> {
    if points.len() == 0 || points.len() % 28 != 0 {
        Some(IndexFault::PointLength)
    } else if cells.len() == 0 || cells.len() % 12 != 0 {
        Some(IndexFault::CellLength)
    } else if entries.len() < 2 {
        Some(IndexFault::EntryHeader)
    } else if strings.len() == 0 || strings[0] != 0 {
        Some(IndexFault::Sentinel)
    } else {
        None
    }
}

/// An open index: the contents of its four files.
#[derive(Clone, Copy)]
pub struct AddressPointIndex<'a> {
    pub points: &'a [u8],
    pub cells: &'a [u8],
    pub entries: &'a [u8],
    pub strings: &'a [u8],
}

/// What a search asks for.
pub struct AddressQuery {
    pub housenumber: Seq<char>,
    pub street: Option<Seq<char>>,
    pub unit: Option<Seq<char>>,
}

/// A hint without white space around it; a blank hint is no hint.
pub open spec fn hint(s: Option<Seq<char>>) -> Option<Seq<char>> {
    match s {
        Some(t) => if trim_seq(t).len() > 0 {
            Some(trim_seq(t))
        } else {
            None
        },
        None => None,
    }
}

impl<'a> AddressPointIndex<'a> {
    /// How many points there are.
    pub open spec fn point_count(self) -> int {
        record_count(self.points@, 28)
    }

    /// The point with the given id.
    pub open spec fn point(self, id: int) -> AddressPoint {
        point_at(self.points@, id * 28)
    }

    /// The string at an offset of the pool; empty beyond its end.
    pub open spec fn text(self, offset: u32) -> Seq<char> {
        if offset <= self.strings@.len() {
            text_at(self.strings@, offset as int)
        } else {
            Seq::empty()
        }
    }

    /// The address of a point.
    pub open spec fn address(self, p: AddressPoint) -> AddressText {
        AddressText {
            lat: p.lat,
            lng: p.lng,
            housenumber: self.text(p.housenumber_id),
            street: self.text(p.street_id),
            locality: self.text(p.locality_id),
            postcode: self.text(p.postcode_id),
            unit: if p.unit_id != 0 {
                self.text(p.unit_id)
            } else {
                Seq::empty()
            },
        }
    }

    /// Whether the house number and the street of a point are those asked for.
    pub open spec fn fits(self, id: u32, q: AddressQuery) -> bool {
        &&& id < self.point_count()
        &&& hn_matches(trim_seq(q.housenumber), self.text(self.point(id as int).housenumber_id))
        &&& hint(q.street) matches Some(street) ==> contains_ignoring_case(
            self.text(self.point(id as int).street_id),
            street,
        )
    }

    /// Whether a point that fits also has the unit asked for. Where no unit is
    /// asked for, every point does.
    pub open spec fn unit_fits(self, id: u32, q: AddressQuery) -> bool {
        hint(q.unit) matches Some(unit) ==> {
            &&& self.point(id as int).unit_id != 0
            &&& eq_ignore_case(self.text(self.point(id as int).unit_id), unit)
        }
    }

    /// Whether a point that fits stands for the whole building, where a unit
    /// is asked for.
    pub open spec fn building_fits(self, id: u32, q: AddressQuery) -> bool {
        hint(q.unit) is Some && self.point(id as int).unit_id == 0
    }

    /// The candidates with the address and the unit asked for.
    pub open spec fn unit_marks(self, near: Seq<Candidate>, q: AddressQuery) -> Seq<bool> {
        Seq::new(near.len(), |i: int| self.fits(near[i].id, q) && self.unit_fits(near[i].id, q))
    }

    /// The candidates with the address asked for that stand for a building.
    pub open spec fn building_marks(self, near: Seq<Candidate>, q: AddressQuery) -> Seq<bool> {
        Seq::new(near.len(), |i: int| self.fits(near[i].id, q) && self.building_fits(near[i].id, q))
    }

    /// The candidate that a search settles on: the nearest with the unit asked
    /// for, or else the nearest building.
    pub open spec fn found_at(self, q: AddressQuery, near: Seq<Candidate>) -> Option<int> {
        if trim_seq(q.housenumber).len() == 0 {
            None
        } else {
            match nearest(near, self.unit_marks(near, q)) {
                Some(i) => Some(i),
                None => nearest(near, self.building_marks(near, q)),
            }
        }
    }

    /// The address that a search settles on.
    pub open spec fn search_result(self, q: AddressQuery, near: Seq<Candidate>) -> Option<
        AddressText,
    > {
        match self.found_at(q, near) {
            Some(i) => Some(self.address(self.point(near[i].id as int))),
            None => None,
        }
    }

    /// The candidates that are points of this index.
    pub open spec fn known_marks(self, near: Seq<Candidate>) -> Seq<bool> {
        Seq::new(near.len(), |i: int| near[i].id < self.point_count())
    }

    /// Opens an index on the contents of its files.
    pub fn open(
        points: &'a [u8],
        cells: &'a [u8],
        entries: &'a [u8],
        strings: &'a [u8],
    ) -> (r: Result<AddressPointIndex<'a>, IndexFault>)
        ensures
            match r {
                Ok(index) => {
                    &&& index_fault(points@, cells@, entries@, strings@) is None
                    &&& index.points@ == points@
                    &&& index.cells@ == cells@
                    &&& index.entries@ == entries@
                    &&& index.strings@ == strings@
                },
                Err(e) => index_fault(points@, cells@, entries@, strings@) == Some(e),
            },
    {
        if points.len() == 0 || points.len() % POINT_SIZE != 0 {
            return Err(IndexFault::PointLength);
        }
        if cells.len() == 0 || cells.len() % 12 != 0 {
            return Err(IndexFault::CellLength);
        }
        if entries.len() < 2 {
            return Err(IndexFault::EntryHeader);
        }
        if strings.len() == 0 || strings[0] != 0 {
            return Err(IndexFault::Sentinel);
        }
        Ok(AddressPointIndex { points, cells, entries, strings })
    }

    /// The number of points.
    pub fn len(&self) -> (r: usize)
        ensures
            r == self.point_count(),
    {
        self.points.len() / POINT_SIZE
    }

    /// The point at a position.
    pub(crate) fn point_of(&self, at: usize) -> (r: AddressPoint)
        requires
            at < self.point_count(),
        ensures
            r == self.point(at as int),
    {
        proof {
            lemma_record_bounds(self.points@.len() as int, 28, at as int);
        }
        assert(at * 28 + 28 <= self.points.len());
        let off: usize = at * POINT_SIZE;
        AddressPoint {
            lat: read_u32(self.points, off),
            lng: read_u32(self.points, off + 4),
            housenumber_id: read_u32(self.points, off + 8),
            street_id: read_u32(self.points, off + 12),
            locality_id: read_u32(self.points, off + 16),
            postcode_id: read_u32(self.points, off + 20),
            unit_id: read_u32(self.points, off + 24),
        }
    }

    /// The point with the given id.
    pub fn get(&self, id: u32) -> (r: Option<AddressPoint>)
        ensures
            r == (if id < self.point_count() {
                Some(self.point(id as int))
            } else {
                None
            }),
    {
        if (id as usize) < self.len() {
            Some(self.point_of(id as usize))
        } else {
            None
        }
    }

    /// The string at an offset of the pool; empty beyond its end.
    pub fn string_at(&self, offset: u32) -> (r: &'a str)
        ensures
            r@ == self.text(offset),
    {
        if (offset as usize) <= self.strings.len() {
            str_at(self.strings, offset as usize)
        } else {
            proof {
                reveal_strlit("");
            }
            assert(""@ =~= Seq::<char>::empty());
            ""
        }
    }

    /// Resolves the strings of a point.
    pub fn hydrate(&self, point: &AddressPoint) -> (r: AddressMatch<'a>)
        ensures
            r@ == self.address(*point),
    {
        proof {
            reveal_strlit("");
        }
        assert(""@ =~= Seq::<char>::empty());
        AddressMatch {
            lat: point.lat,
            lng: point.lng,
            housenumber: self.string_at(point.housenumber_id),
            street: self.string_at(point.street_id),
            locality: self.string_at(point.locality_id),
            postcode: self.string_at(point.postcode_id),
            unit: if point.unit_id != 0 {
                self.string_at(point.unit_id)
            } else {
                ""
            },
        }
    }

    /// The points in the given cells, in the order of the index.
    pub fn points_in_cells(&self, scan: &[u64]) -> (r: Vec<u32>)
        ensures
            r@ == ids_in_cells(self.cells@, self.entries@, scan@),
    {
        scan_cells(self.cells, self.entries, scan)
    }

    /// Finds the address asked for among the points of a scan. `near` lists
    /// the points in the order of the scan, each with its distance.
    ///
    /// Without `unit_hint` the nearest point with the house number and street
    /// wins, whatever its unit. With it, a point with that unit wins over a
    /// point without a unit, and a point with another unit never does.
    pub fn find_by_housenumber(
        &self,
        housenumber: &str,
        street_hint: Option<&str>,
        unit_hint: Option<&str>,
        near: &[Candidate],
    ) -> (r: Option<AddressMatch<'a>>)
        ensures
            match_view(r) == self.search_result(
                (AddressQuery {
                    housenumber: housenumber@,
                    street: crate::text::opt_str_view(street_hint),
                    unit: crate::text::opt_str_view(unit_hint),
                }),
                near@,
            ),
    {
        match self.find_position(housenumber, street_hint, unit_hint, near) {
            Some(i) => match self.get(near[i].id) {
                Some(p) => Some(self.hydrate(&p)),
                None => None,
            },
            None => None,
        }
    }

    /// The position of the address asked for among the points of a scan.
    pub(crate) fn find_position(
        &self,
        housenumber: &str,
        street_hint: Option<&str>,
        unit_hint: Option<&str>,
        near: &[Candidate],
    ) -> (r: Option<usize>)
        ensures
            ({
                let q = AddressQuery {
                    housenumber: housenumber@,
                    street: crate::text::opt_str_view(street_hint),
                    unit: crate::text::opt_str_view(unit_hint),
                };
                match r {
                    Some(i) => {
                        &&& self.found_at(q, near@) == Some(i as int)
                        &&& i < near@.len()
                        &&& near@[i as int].id < self.point_count()
                    },
                    None => self.found_at(q, near@) is None,
                }
            }),
    {
        let ghost q = AddressQuery {
            housenumber: housenumber@,
            street: crate::text::opt_str_view(street_hint),
            unit: crate::text::opt_str_view(unit_hint),
        };
        let needle = trim_chars(&chars_of(housenumber));
        if needle.len() == 0 {
            return None;
        }
        let number = string_of(&needle);
        let street = needle_of(street_hint);
        let unit = needle_of(unit_hint);
        let mut exact: Vec<bool> = Vec::new();
        let mut building: Vec<bool> = Vec::new();
        for i in 0..near.len()
            invariant
                number@ == trim_seq(q.housenumber),
                crate::text::opt_view(street) == hint(q.street),
                crate::text::opt_view(unit) == hint(q.unit),
                exact@.len() == i,
                building@.len() == i,
                forall|j: int|
                    0 <= j < i ==> exact@[j] == (self.fits(near@[j].id, q) && self.unit_fits(
                        near@[j].id,
                        q,
                    )),
                forall|j: int|
                    0 <= j < i ==> building@[j] == (self.fits(near@[j].id, q) && self.building_fits(
                        near@[j].id,
                        q,
                    )),
        {
            let mut is_exact = false;
            let mut is_building = false;
            if let Some(p) = self.get(near[i].id) {
                if housenumber_matches(number.as_str(), self.string_at(p.housenumber_id)) {
                    let street_ok = match &street {
                        Some(s) => contains_ignore_ascii_case(
                            self.string_at(p.street_id),
                            s.as_str(),
                        ),
                        None => true,
                    };
                    if street_ok {
                        match &unit {
                            Some(u) => {
                                if p.unit_id == 0 {
                                    is_building = true;
                                } else {
                                    is_exact = chars_eq_ignore_case(
                                        &chars_of(self.string_at(p.unit_id)),
                                        &chars_of(u.as_str()),
                                    );
                                }
                            },
                            None => {
                                is_exact = true;
                            },
                        }
                    }
                }
            }
            exact.push(is_exact);
            building.push(is_building);
        }
        assert(exact@ =~= self.unit_marks(near@, q));
        assert(building@ =~= self.building_marks(near@, q));
        match pick_nearest(near, &exact) {
            Some(i) => Some(i),
            None => pick_nearest(near, &building),
        }
    }

    /// The nearest point of a scan.
    pub fn find_nearest(&self, near: &[Candidate]) -> (r: Option<AddressMatch<'a>>)
        ensures
            match_view(r) == (match nearest(near@, self.known_marks(near@)) {
                Some(i) => Some(self.address(self.point(near@[i].id as int))),
                None => None,
            }),
    {
        let count: usize = self.len();
        let mut known: Vec<bool> = Vec::new();
        for i in 0..near.len()
            invariant
                count == self.point_count(),
                known@.len() == i,
                forall|j: int| 0 <= j < i ==> known@[j] == (near@[j].id < self.point_count()),
        {
            known.push((near[i].id as usize) < count);
        }
        assert(known@ =~= self.known_marks(near@));
        match pick_nearest(near, &known) {
            Some(i) => match self.get(near[i].id) {
                Some(p) => Some(self.hydrate(&p)),
                None => None,
            },
            None => None,
        }
    }
}

/// A hint without white space around it; a blank hint is no hint.
pub(crate) fn needle_of(h: Option<&str>) -> (r: Option<String>)
    ensures
        crate::text::opt_view(r) == hint(crate::text::opt_str_view(h)),
{
    match h {
        Some(s) => {
            let t = trim_chars(&chars_of(s));
            if t.len() > 0 {
                Some(string_of(&t))
            } else {
                None
            }
        },
        None => None,
    }
}

// --- Substrings up to ASCII case ---
/// ASCII upper-case letters become lower case; every other byte stays.
pub open spec fn lower_byte(b: u8) -> u8 {
    if 65 <= b <= 90 {
        (b + 32) as u8
    } else {
        b
    }
}

/// Whether `n` occurs in `h` at `i`, up to the case of ASCII letters.
pub open spec fn occurs_at(h: Seq<u8>, n: Seq<u8>, i: int) -> bool {
    &&& 0 <= i
    &&& i + n.len() <= h.len()
    &&& forall|j: int| 0 <= j < n.len() ==> lower_byte(#[trigger] h[i + j]) == lower_byte(n[j])
}

/// Whether `needle` occurs in `haystack`, up to the case of ASCII letters.
pub open spec fn contains_ignoring_case(haystack: Seq<char>, needle: Seq<char>) -> bool {
    exists|i: int|
        #[trigger] occurs_at(
            vstd::utf8::encode_utf8(haystack),
            vstd::utf8::encode_utf8(needle),
            i,
        )
}

/// An ASCII letter in lower case; any other byte as it is.
pub fn to_lower_byte(b: u8) -> (r: u8)
    ensures
        r == lower_byte(b),
{
    if 65 <= b && b <= 90 {
        b + 32
    } else {
        b
    }
}

/// Whether `needle` occurs in `haystack`, up to the case of ASCII letters.
pub fn contains_ignore_ascii_case(haystack: &str, needle: &str) -> (r: bool)
    ensures
        r == contains_ignoring_case(haystack@, needle@),
{
    let h = haystack.as_bytes();
    let n = needle.as_bytes();
    if n.len() > h.len() {
        return false;
    }
    let last: usize = h.len() - n.len();
    let mut i: usize = 0;
    while i <= last
        invariant
            last == h.len() - n.len(),
            n@.len() <= h@.len(),
            h@ == vstd::utf8::encode_utf8(haystack@),
            n@ == vstd::utf8::encode_utf8(needle@),
            i <= last + 1,
            forall|k: int| 0 <= k < i ==> !occurs_at(h@, n@, k),
        decreases last + 1 - i,
    {
        let mut j: usize = 0;
        while j < n.len() && to_lower_byte(h[i + j]) == to_lower_byte(n[j])
            invariant
                i <= last,
                last == h.len() - n.len(),
                j <= n@.len() <= h@.len(),
                forall|k: int| 0 <= k < j ==> lower_byte(#[trigger] h@[i + k]) == lower_byte(n@[k]),
            decreases n@.len() - j,
        {
            j += 1;
        }
        if j == n.len() {
            assert(occurs_at(h@, n@, i as int));
            return true;
        }
        assert(!occurs_at(h@, n@, i as int)) by {
            assert(lower_byte(h@[i + j]) != lower_byte(n@[j as int]));
        }
        if i == last {
            assert(forall|k: int| !occurs_at(h@, n@, k));
            return false;
        }
        i += 1;
    }
    false
}

// --- File names ---
/// The files that an index is written to.
pub struct BuildOutputPaths {
    pub points: String,
    pub cells: String,
    pub entries: String,
    pub strings: String,
}

impl BuildOutputPaths {
    /// The files of the index with the given name prefix.
    pub fn for_prefix(dir: &str, prefix: &str) -> (r: BuildOutputPaths)
        ensures
            r.points@ == joined(dir@, prefix@ + "_points.bin"@),
            r.cells@ == joined(dir@, prefix@ + "_cells.bin"@),
            r.entries@ == joined(dir@, prefix@ + "_entries.bin"@),
            r.strings@ == joined(dir@, prefix@ + "_strings.bin"@),
    {
        BuildOutputPaths {
            points: join_path(dir, concat(prefix, "_points.bin").as_str()),
            cells: join_path(dir, concat(prefix, "_cells.bin").as_str()),
            entries: join_path(dir, concat(prefix, "_entries.bin").as_str()),
            strings: join_path(dir, concat(prefix, "_strings.bin").as_str()),
        }
    }
}

} // verus!
