//! The administrative areas around a point.
//!
//! Of the polygons that hold the point, the smallest of each level counts.
//! Which output field a level fills is a matter of configuration.
use vstd::prelude::*;
use vstd::utf8::{decode_utf8, valid_utf8};
use crate::admin_config::{unless_ignored, AdminEntry, AdminField};
use crate::bytes::{record_count, utf8_str};
use crate::ieee::{at_most32, le32, less32, lt32, rank32};
use crate::index::Index;
use crate::records::{admin_polygon_of, read_admin_polygon, AdminPolygon, NODE_COORD_SIZE};
use crate::text::opt_str_view;

verus! {

broadcast use vstd::seq::group_seq_axioms;

/// Levels from this one on are not considered.
pub const LEVELS: usize = 12;

/// What to do with an entry of a scan.
#[derive(Clone, Copy, Debug, PartialEq, Eq, Structural)]
pub enum AdminStep {
    /// The polygon does not count.
    Skip,
    /// The polygon holds the point for certain.
    Keep { level: u8, poly_id: u32 },
    /// The polygon counts if it holds the point: its vertices are
    /// `vertex_count` from `vertex_offset` on.
    Test { level: u8, poly_id: u32, vertex_offset: u32, vertex_count: u16 },
}

/// The id of a polygon without the mark of an inner cell.
pub open spec fn poly_id(entry: u32) -> u32 {
    (entry % 0x8000_0000) as u32
}

/// Whether the cell of an entry lies inside the polygon.
pub open spec fn is_interior(entry: u32) -> bool {
    entry >= 0x8000_0000
}

/// What a scan that has settled on `best` does with an entry.
pub open spec fn admin_step(
    polygons: Seq<u8>,
    vertices: Seq<u8>,
    best: Seq<Option<u32>>,
    entry: u32,
) -> AdminStep {
    let id = poly_id(entry);
    match admin_polygon_of(polygons, id as int) {
        None => AdminStep::Skip,
        Some(p) => if p.admin_level >= LEVELS {
            AdminStep::Skip
        } else if best[p.admin_level as int] matches Some(b) && le32(
            admin_polygon_of(polygons, b as int)->0.area,
            p.area,
        ) {
            AdminStep::Skip
        } else if p.vertex_offset + p.vertex_count > record_count(vertices, 8) || p.vertex_count
            < 3 {
            AdminStep::Skip
        } else if is_interior(entry) {
            AdminStep::Keep { level: p.admin_level, poly_id: id }
        } else {
            AdminStep::Test {
                level: p.admin_level,
                poly_id: id,
                vertex_offset: p.vertex_offset,
                vertex_count: p.vertex_count,
            }
        },
    }
}

/// What a scan settles on after a step; `inside` answers a test.
pub open spec fn after_step(
    best: Seq<Option<u32>>,
    step: AdminStep,
    inside: bool,
) -> Seq<Option<u32>> {
    match step {
        AdminStep::Skip => best,
        AdminStep::Keep { level, poly_id } => best.update(level as int, Some(poly_id)),
        AdminStep::Test { level, poly_id, .. } => if inside {
            best.update(level as int, Some(poly_id))
        } else {
            best
        },
    }
}

/// What a scan over `entries` settles on. `inside[i]` tells whether the polygon
/// of entry `i` holds the point.
pub open spec fn admin_best(
    polygons: Seq<u8>,
    vertices: Seq<u8>,
    entries: Seq<u32>,
    inside: Seq<bool>,
) -> Seq<Option<u32>>
    decreases entries.len(),
{
    if entries.len() == 0 {
        Seq::new(12, |i: int| None)
    } else {
        let before = admin_best(polygons, vertices, entries.drop_last(), inside);
        after_step(
            before,
            admin_step(polygons, vertices, before, entries.last()),
            inside[entries.len() - 1],
        )
    }
}

/// The polygons that a scan has settled on so far, by level.
pub struct AdminScan {
    pub best: Vec<Option<u32>>,
}

/// Every polygon that was settled on exists and stands at its own level.
pub open spec fn levels_ok(polygons: Seq<u8>, best: Seq<Option<u32>>) -> bool {
    &&& best.len() == LEVELS
    &&& forall|l: int|
        0 <= l < LEVELS ==> (#[trigger] best[l] matches Some(id) ==> (admin_polygon_of(
            polygons,
            id as int,
        ) matches Some(p) && p.admin_level == l))
}

impl AdminScan {
    /// A scan that has settled on nothing.
    pub fn new() -> (r: AdminScan)
        ensures
            r.best@ == Seq::new(12, |i: int| None::<u32>),
    {
        let mut best: Vec<Option<u32>> = Vec::new();
        for i in 0..LEVELS
            invariant
                best@ == Seq::new(i as nat, |i: int| None::<u32>),
        {
            best.push(None);
            assert(best@ =~= Seq::new((i + 1) as nat, |i: int| None::<u32>));
        }
        AdminScan { best }
    }

    /// Decides what to do with an entry of a scan.
    pub fn step(&self, index: &Index<'_>, entry: u32) -> (r: AdminStep)
        requires
            levels_ok(index.admin_polygons@, self.best@),
        ensures
            r == admin_step(index.admin_polygons@, index.admin_vertices@, self.best@, entry),
    {
        let id: u32 = entry % 0x8000_0000;
        let p = match read_admin_polygon(index.admin_polygons, id) {
            Some(p) => p,
            None => return AdminStep::Skip,
        };
        if p.admin_level as usize >= LEVELS {
            return AdminStep::Skip;
        }
        assert(levels_ok(index.admin_polygons@, self.best@));
        if let Some(b) = self.best[p.admin_level as usize] {
            assert(self.best@[p.admin_level as int] == Some(b));
            if let Some(q) = read_admin_polygon(index.admin_polygons, b) {
                if at_most32(q.area, p.area) {
                    return AdminStep::Skip;
                }
            }
        }
        let vertices: usize = index.admin_vertices.len() / NODE_COORD_SIZE;
        if p.vertex_offset as u64 + p.vertex_count as u64 > vertices as u64 || p.vertex_count < 3 {
            return AdminStep::Skip;
        }
        if entry >= 0x8000_0000 {
            AdminStep::Keep { level: p.admin_level, poly_id: id }
        } else {
            AdminStep::Test {
                level: p.admin_level,
                poly_id: id,
                vertex_offset: p.vertex_offset,
                vertex_count: p.vertex_count,
            }
        }
    }

    /// Takes the outcome of a step.
    pub fn apply(&mut self, step: AdminStep, inside: bool)
        requires
            old(self).best@.len() == LEVELS,
            step matches AdminStep::Keep { level, .. } ==> level < LEVELS,
            step matches AdminStep::Test { level, .. } ==> level < LEVELS,
        ensures
            final(self).best@ == after_step(old(self).best@, step, inside),
    {
        match step {
            AdminStep::Skip => {},
            AdminStep::Keep { level, poly_id } => {
                self.best.set(level as usize, Some(poly_id));
            },
            AdminStep::Test { level, poly_id, .. } => {
                if inside {
                    self.best.set(level as usize, Some(poly_id));
                }
            },
        }
    }
}

proof fn lemma_step_keeps_levels(
    polygons: Seq<u8>,
    vertices: Seq<u8>,
    best: Seq<Option<u32>>,
    entry: u32,
    inside: bool,
)
    requires
        levels_ok(polygons, best),
    ensures
        levels_ok(
            polygons,
            after_step(best, admin_step(polygons, vertices, best, entry), inside),
        ),
{
}

/// The polygons that a scan settles on exist, and stand at their own levels.
pub proof fn law_levels_ok(
    polygons: Seq<u8>,
    vertices: Seq<u8>,
    entries: Seq<u32>,
    inside: Seq<bool>,
)
    ensures
        levels_ok(polygons, admin_best(polygons, vertices, entries, inside)),
    decreases entries.len(),
{
    if entries.len() > 0 {
        law_levels_ok(polygons, vertices, entries.drop_last(), inside);
        lemma_step_keeps_levels(
            polygons,
            vertices,
            admin_best(polygons, vertices, entries.drop_last(), inside),
            entries.last(),
            inside[entries.len() - 1],
        );
    }
}

/// Whether entry `i` names a polygon of the given level that holds the point.
pub open spec fn holds_point(
    polygons: Seq<u8>,
    vertices: Seq<u8>,
    entries: Seq<u32>,
    inside: Seq<bool>,
    i: int,
    level: int,
) -> bool {
    &&& 0 <= i < entries.len()
    &&& admin_polygon_of(polygons, poly_id(entries[i]) as int) matches Some(p)
    &&& p.admin_level == level
    &&& p.vertex_offset + p.vertex_count <= record_count(vertices, 8)
    &&& p.vertex_count >= 3
    &&& is_interior(entries[i]) || inside[i]
}

/// Of the polygons of a level that hold the point, a scan settles on one with
/// the smallest area; it settles on none only where none holds the point.
pub proof fn law_smallest_area_wins(
    polygons: Seq<u8>,
    vertices: Seq<u8>,
    entries: Seq<u32>,
    inside: Seq<bool>,
    level: int,
)
    requires
        0 <= level < LEVELS,
        inside.len() >= entries.len(),
        forall|id: int|
            (#[trigger] admin_polygon_of(polygons, id)) matches Some(p) ==> rank32(p.area) is Some,
    ensures
        match admin_best(polygons, vertices, entries, inside)[level] {
            Some(b) => {
                &&& exists|i: int| #[trigger]
                    holds_point(polygons, vertices, entries, inside, i, level) && poly_id(entries[i])
                        == b
                &&& forall|i: int| #[trigger]
                    holds_point(polygons, vertices, entries, inside, i, level) ==> le32(
                        admin_polygon_of(polygons, b as int)->0.area,
                        admin_polygon_of(polygons, poly_id(entries[i]) as int)->0.area,
                    )
            },
            None => forall|i: int| !#[trigger]
                holds_point(polygons, vertices, entries, inside, i, level),
        },
    decreases entries.len(),
{
    if entries.len() > 0 {
        let front = entries.drop_last();
        let n = entries.len() - 1;
        law_smallest_area_wins(polygons, vertices, front, inside, level);
        law_levels_ok(polygons, vertices, front, inside);
        let before = admin_best(polygons, vertices, front, inside);
        let after = admin_best(polygons, vertices, entries, inside);
        assert forall|i: int| 0 <= i < n implies #[trigger] holds_point(
            polygons,
            vertices,
            entries,
            inside,
            i,
            level,
        ) == holds_point(polygons, vertices, front, inside, i, level) by {
            assert(front[i] == entries[i]);
        }
        assert(before[level] matches Some(id) ==> (admin_polygon_of(polygons, id as int) is Some));
        if let Some(b) = before[level] {
            let i0 = choose|i: int| #[trigger]
                holds_point(polygons, vertices, front, inside, i, level) && poly_id(front[i]) == b;
            assert(holds_point(polygons, vertices, entries, inside, i0, level));
            assert(admin_polygon_of(polygons, b as int) is Some);
        }
        if holds_point(polygons, vertices, entries, inside, n, level) {
            assert(admin_polygon_of(polygons, poly_id(entries[n]) as int) is Some);
            assert(after[level] is Some);
            let b = after[level]->0;
            assert(before[level] is None || !le32(
                admin_polygon_of(polygons, before[level]->0 as int)->0.area,
                admin_polygon_of(polygons, poly_id(entries[n]) as int)->0.area,
            ) ==> b == poly_id(entries[n]));
            assert forall|i: int| #[trigger]
                holds_point(polygons, vertices, entries, inside, i, level) implies le32(
                admin_polygon_of(polygons, b as int)->0.area,
                admin_polygon_of(polygons, poly_id(entries[i]) as int)->0.area,
            ) by {
                if i < n {
                    assert(holds_point(polygons, vertices, front, inside, i, level));
                }
            }
        } else {
            assert(after[level] == before[level]);
            if before[level] is Some {
                let b = before[level]->0;
                assert forall|i: int| #[trigger]
                    holds_point(polygons, vertices, entries, inside, i, level) implies le32(
                    admin_polygon_of(polygons, b as int)->0.area,
                    admin_polygon_of(polygons, poly_id(entries[i]) as int)->0.area,
                ) by {
                    assert(holds_point(polygons, vertices, front, inside, i, level));
                }
            } else {
                assert forall|i: int| !#[trigger]
                    holds_point(polygons, vertices, entries, inside, i, level) by {
                    if 0 <= i < n {
                        assert(!holds_point(polygons, vertices, front, inside, i, level));
                    }
                }
            }
        }
    }
}

// --- The fields ---
/// A country found by other means than the polygons of the index.
pub struct CountryMatch<'a> {
    pub country_code: [u8; 2],
    pub name: &'a str,
}

/// The administrative context of a point. The ids are those of the polygons
/// that the names come from.
pub struct AdminResult<'a> {
    pub country: Option<&'a str>,
    pub country_code: Option<[u8; 2]>,
    pub state: Option<&'a str>,
    pub county: Option<&'a str>,
    pub city: Option<&'a str>,
    pub postcode: Option<&'a str>,
    pub country_poly_id: Option<u32>,
    pub state_poly_id: Option<u32>,
    pub county_poly_id: Option<u32>,
    pub city_poly_id: Option<u32>,
}

/// The content of an [`AdminResult`].
#[verifier::ext_equal]
pub struct AdminText {
    pub country: Option<Seq<char>>,
    pub country_code: Option<Seq<u8>>,
    pub state: Option<Seq<char>>,
    pub county: Option<Seq<char>>,
    pub city: Option<Seq<char>>,
    pub postcode: Option<Seq<char>>,
    pub country_poly_id: Option<u32>,
    pub state_poly_id: Option<u32>,
    pub county_poly_id: Option<u32>,
    pub city_poly_id: Option<u32>,
}

pub open spec fn code_view(cc: Option<[u8; 2]>) -> Option<Seq<u8>> {
    match cc {
        Some(c) => Some(c@),
        None => None,
    }
}

impl<'a> View for AdminResult<'a> {
    type V = AdminText;

    open spec fn view(&self) -> AdminText {
        AdminText {
            country: opt_str_view(self.country),
            country_code: code_view(self.country_code),
            state: opt_str_view(self.state),
            county: opt_str_view(self.county),
            city: opt_str_view(self.city),
            postcode: opt_str_view(self.postcode),
            country_poly_id: self.country_poly_id,
            state_poly_id: self.state_poly_id,
            county_poly_id: self.county_poly_id,
            city_poly_id: self.city_poly_id,
        }
    }
}

/// No context at all.
pub open spec fn no_admin() -> AdminText {
    AdminText {
        country: None,
        country_code: None,
        state: None,
        county: None,
        city: None,
        postcode: None,
        country_poly_id: None,
        state_poly_id: None,
        county_poly_id: None,
        city_poly_id: None,
    }
}

impl<'a> Default for AdminResult<'a> {
    fn default() -> (r: AdminResult<'a>)
        ensures
            r@ == no_admin(),
    {
        AdminResult {
            country: None,
            country_code: None,
            state: None,
            county: None,
            city: None,
            postcode: None,
            country_poly_id: None,
            state_poly_id: None,
            county_poly_id: None,
            city_poly_id: None,
        }
    }
}

/// The content of a [`CountryMatch`].
pub open spec fn country_match_view(m: Option<CountryMatch<'_>>) -> Option<(Seq<u8>, Seq<char>)> {
    match m {
        Some(c) => Some((c.country_code@, c.name@)),
        None => None,
    }
}

/// The two letters that a packed country code holds.
pub open spec fn unpack(code: u16) -> Seq<u8> {
    seq![(code / 256) as u8, (code % 256) as u8]
}

/// The country of a point: that of the polygon of level 2, or what else was
/// found where that has no code.
pub open spec fn admin_country(
    index: Index<'_>,
    best: Seq<Option<u32>>,
    other: Option<(Seq<u8>, Seq<char>)>,
) -> AdminText {
    let own = match best[2] {
        Some(id) => {
            let p = admin_polygon_of(index.admin_polygons@, id as int)->0;
            AdminText {
                country: Some(index.text(p.name_id)),
                country_poly_id: Some(id),
                country_code: if p.country_code != 0 {
                    Some(unpack(p.country_code))
                } else {
                    None
                },
                ..no_admin()
            }
        },
        None => no_admin(),
    };
    match other {
        Some((code, name)) => if own.country_code is None {
            AdminText {
                country_code: Some(code),
                country: if own.country is None {
                    Some(name)
                } else {
                    own.country
                },
                ..own
            }
        } else {
            own
        },
        None => own,
    }
}

/// A country code as text, where it is text.
pub open spec fn code_as_text(code: Option<Seq<u8>>) -> Option<Seq<char>> {
    match code {
        Some(c) => if valid_utf8(c) {
            Some(decode_utf8(c))
        } else {
            None
        },
        None => None,
    }
}

/// Fills a field with the name of a polygon.
pub open spec fn fill(a: AdminText, field: AdminField, name: Seq<char>, id: u32) -> AdminText {
    match field {
        AdminField::Country => a,
        AdminField::State => AdminText { state: Some(name), state_poly_id: Some(id), ..a },
        AdminField::County => AdminText { county: Some(name), county_poly_id: Some(id), ..a },
        AdminField::CountyIfEmpty => if a.county is None {
            AdminText { county: Some(name), county_poly_id: Some(id), ..a }
        } else {
            a
        },
        AdminField::City => AdminText { city: Some(name), city_poly_id: Some(id), ..a },
        AdminField::CityIfEmpty => if a.city is None {
            AdminText { city: Some(name), city_poly_id: Some(id), ..a }
        } else {
            a
        },
        AdminField::Postcode => AdminText { postcode: Some(name), ..a },
        AdminField::Ignore => a,
    }
}

/// Whether a polygon is too large for its entry.
pub open spec fn oversized(p: AdminPolygon, e: AdminEntry) -> bool {
    e.max_area matches Some(max) && lt32(max, p.area)
}

/// The context once the levels below `n` have filled their fields, each over
/// what the levels before it filled.
pub open spec fn fill_levels(
    index: Index<'_>,
    best: Seq<Option<u32>>,
    start: AdminText,
    n: int,
) -> AdminText
    decreases n,
{
    if n <= 0 {
        start
    } else {
        let before = fill_levels(index, best, start, n - 1);
        let level = n - 1;
        match best[level] {
            Some(id) => {
                let p = admin_polygon_of(index.admin_polygons@, id as int)->0;
                match unless_ignored(
                    index.admin_config.entry(code_as_text(start.country_code), level as u8),
                ) {
                    Some(e) => if level == 2 || oversized(p, e) {
                        before
                    } else {
                        fill(before, e.field, index.text(p.name_id), id)
                    },
                    None => before,
                }
            },
            None => before,
        }
    }
}

/// The administrative context of a point.
pub open spec fn admin_text(
    index: Index<'_>,
    best: Seq<Option<u32>>,
    other: Option<(Seq<u8>, Seq<char>)>,
) -> AdminText {
    fill_levels(index, best, admin_country(index, best, other), 12)
}

fn fill_field<'a>(a: &mut AdminResult<'a>, field: AdminField, name: &'a str, id: u32)
    ensures
        final(a)@ == fill(old(a)@, field, name@, id),
{
    match field {
        AdminField::Country => {},
        AdminField::State => {
            a.state = Some(name);
            a.state_poly_id = Some(id);
        },
        AdminField::County => {
            a.county = Some(name);
            a.county_poly_id = Some(id);
        },
        AdminField::CountyIfEmpty => {
            if a.county.is_none() {
                a.county = Some(name);
                a.county_poly_id = Some(id);
            }
        },
        AdminField::City => {
            a.city = Some(name);
            a.city_poly_id = Some(id);
        },
        AdminField::CityIfEmpty => {
            if a.city.is_none() {
                a.city = Some(name);
                a.city_poly_id = Some(id);
            }
        },
        AdminField::Postcode => {
            a.postcode = Some(name);
        },
        AdminField::Ignore => {},
    }
}

impl<'a> Index<'a> {
    /// Runs a whole scan: `entries` as [`Index::admin_ids`] lists them, and for
    /// each whether its polygon holds the point.
    pub fn scan_admin(&self, entries: &[u32], inside: &[bool]) -> (r: AdminScan)
        requires
            inside@.len() == entries@.len(),
        ensures
            r.best@ == admin_best(
                self.admin_polygons@,
                self.admin_vertices@,
                entries@,
                inside@,
            ),
            levels_ok(self.admin_polygons@, r.best@),
    {
        let mut scan = AdminScan::new();
        assert(entries@.take(0) =~= Seq::<u32>::empty());
        for i in 0..entries.len()
            invariant
                inside@.len() == entries@.len(),
                scan.best@ == admin_best(
                    self.admin_polygons@,
                    self.admin_vertices@,
                    entries@.take(i as int),
                    inside@,
                ),
        {
            proof {
                law_levels_ok(
                    self.admin_polygons@,
                    self.admin_vertices@,
                    entries@.take(i as int),
                    inside@,
                );
                assert(entries@.take(i + 1).drop_last() =~= entries@.take(i as int));
            }
            let step = scan.step(self, entries[i]);
            scan.apply(step, inside[i]);
        }
        proof {
            assert(entries@.take(entries@.len() as int) =~= entries@);
            law_levels_ok(self.admin_polygons@, self.admin_vertices@, entries@, inside@);
        }
        scan
    }

    /// The administrative context of a point, from the polygons that a scan
    /// settled on. `other` is the country that was found by other means; it
    /// counts where the polygons give no country code.
    pub fn find_admin(&self, scan: &AdminScan, other: Option<CountryMatch<'a>>) -> (r: AdminResult<
        'a,
    >)
        requires
            levels_ok(self.admin_polygons@, scan.best@),
            self.admin_config.wf(),
        ensures
            r@ == admin_text(*self, scan.best@, country_match_view(other)),
    {
        let mut result: AdminResult<'a> = AdminResult::default();
        if let Some(id) = scan.best[2] {
            assert(scan.best@[2] == Some(id));
            if let Some(p) = read_admin_polygon(self.admin_polygons, id) {
                result.country = Some(self.get_string(p.name_id));
                result.country_poly_id = Some(id);
                if p.country_code != 0 {
                    let code = [(p.country_code / 256) as u8, (p.country_code % 256) as u8];
                    assert(code@ =~= unpack(p.country_code));
                    result.country_code = Some(code);
                }
            }
        }
        if result.country_code.is_none() {
            if let Some(m) = &other {
                result.country_code = Some(m.country_code);
                if result.country.is_none() {
                    result.country = Some(m.name);
                }
            }
        }
        let ghost start = result@;
        assert(start =~= admin_country(*self, scan.best@, country_match_view(other)));
        let bytes: [u8; 2] = match result.country_code {
            Some(c) => c,
            None => [0, 0],
        };
        let cc: Option<&str> = if result.country_code.is_some() {
            utf8_str(&bytes)
        } else {
            None
        };
        assert(opt_str_view(cc) == code_as_text(start.country_code));
        for level in 0..LEVELS
            invariant
                levels_ok(self.admin_polygons@, scan.best@),
                self.admin_config.wf(),
                opt_str_view(cc) == code_as_text(start.country_code),
                result@ == fill_levels(*self, scan.best@, start, level as int),
        {
            assert(levels_ok(self.admin_polygons@, scan.best@));
            if let Some(id) = scan.best[level] {
                assert(scan.best@[level as int] == Some(id));
                if let Some(p) = read_admin_polygon(self.admin_polygons, id) {
                    if p.admin_level != 2 {
                        if let Some(e) = self.admin_config.lookup(cc, p.admin_level) {
                            let too_large = match e.max_area {
                                Some(max) => less32(max, p.area),
                                None => false,
                            };
                            if !too_large {
                                fill_field(&mut result, e.field, self.get_string(p.name_id), id);
                            }
                        }
                    }
                }
            }
        }
        result
    }
}

// --- Laws ---
/// The country never comes from another level than the second, whatever the
/// configuration says.
pub proof fn law_levels_keep_country(
    index: Index<'_>,
    best: Seq<Option<u32>>,
    start: AdminText,
    n: int,
)
    ensures
        fill_levels(index, best, start, n).country == start.country,
        fill_levels(index, best, start, n).country_code == start.country_code,
        fill_levels(index, best, start, n).country_poly_id == start.country_poly_id,
    decreases n,
{
    if n > 0 {
        law_levels_keep_country(index, best, start, n - 1);
    }
}

} // verus!
