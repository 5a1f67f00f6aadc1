//! The files of the reverse index, and the scans over them.
use vstd::prelude::*;
use crate::address_points::{
    contains_ignore_ascii_case, contains_ignoring_case, hint, needle_of, AddressMatch,
    AddressQuery, AddressText,
};
use crate::admin_config::AdminConfig;
use crate::bytes::{str_at, text_at};
use crate::gnaf::Gnaf;
use crate::i18n::I18nNames;
use crate::ieee::{less64, lt64, nearest, pick_nearest, Candidate};
use crate::openaddresses::OpenAddresses;
use crate::postcode::PostcodeLookup;
use crate::records::{
    addr_point_of, interp_way_of, place_point_of, poi_point_of, read_addr_point, read_interp_way,
    read_place_point, read_poi_point, read_way_header, way_header_of, AddrPoint, PlacePoint,
    PoiPoint, WayHeader, FLAG_ADDR_PLACE,
};
use crate::reverse::{
    admin_scan, check_segments, geo_scan, interp_scan, interpolated, scan_admin_cells, scan_layer,
    seen_streets_contains, street_scan, Layer, MAX_DISTANCE, SEEN_STREETS_CAP,
};
use crate::text::{
    chars_eq_ignore_case, chars_of, eq_ignore_case, opt_str_view, opt_view, trim_chars, trim_seq,
};

verus! {

broadcast use vstd::seq::group_seq_axioms;

/// The contents of the files of a reverse index.
#[derive(Clone, Copy)]
pub struct Index<'a> {
    pub geo_cells: &'a [u8],
    pub street_entries: &'a [u8],
    pub street_ways: &'a [u8],
    pub street_nodes: &'a [u8],
    pub addr_entries: &'a [u8],
    pub addr_points: &'a [u8],
    pub interp_entries: &'a [u8],
    pub interp_ways: &'a [u8],
    pub interp_nodes: &'a [u8],
    pub admin_cells: &'a [u8],
    pub admin_entries: &'a [u8],
    pub admin_polygons: &'a [u8],
    pub admin_vertices: &'a [u8],
    /// Indexes may lack places.
    pub place_cells: Option<&'a [u8]>,
    pub place_entries: Option<&'a [u8]>,
    pub place_points: Option<&'a [u8]>,
    /// Indexes may lack points of interest.
    pub poi_cells: Option<&'a [u8]>,
    pub poi_entries: Option<&'a [u8]>,
    pub poi_points: Option<&'a [u8]>,
    pub strings: &'a [u8],
    pub street_cell_level: u64,
    pub admin_cell_level: u64,
    /// The squared distance (a binary64 bit pattern) up to which an address or
    /// a street answers a query.
    pub max_distance_sq: u64,
    pub admin_config: &'a AdminConfig,
    pub postcode_lookup: Option<PostcodeLookup<'a>>,
    pub gnaf: Option<Gnaf<'a>>,
    pub open_addresses: Option<&'a OpenAddresses<'a>>,
    pub i18n_names: Option<I18nNames<'a>>,
}

/// An interpolation way met in a scan: the distance, and where along the way
/// the point projects to (see [`crate::reverse::interpolated`]).
#[derive(Clone, Copy)]
pub struct InterpCandidate {
    pub id: u32,
    pub dist: u64,
    pub steps: u32,
    pub nearest_number: u32,
}

/// The nearest address, interpolated address and street, with their distances.
pub struct GeoResult<'a> {
    pub addr: Option<(u64, AddrPoint)>,
    pub interp: Option<(u64, &'a str, u32)>,
    pub street: Option<(u64, WayHeader)>,
}

/// A place near a point.
pub struct PlaceMatch<'a> {
    pub name: &'a str,
    pub rank: u8,
}

/// A point of interest near a point. The distance is that of the scan.
pub struct PoiMatch<'a> {
    pub name: &'a str,
    pub category: &'a str,
    pub distance: u64,
}

/// A candidate with a rank: the lower rank wins, then the nearer one.
pub struct Ranked {
    pub rank: u8,
    pub dist: u64,
}

/// Whether `a` wins over `b`.
pub open spec fn wins(a: Ranked, b: Ranked) -> bool {
    a.rank < b.rank || (a.rank == b.rank && lt64(a.dist, b.dist))
}

/// The position that a scan over the marked candidates settles on: the first,
/// and then each that wins over the one before.
pub open spec fn best_ranked(cands: Seq<Ranked>, marks: Seq<bool>, n: int) -> Option<int>
    decreases n,
{
    if n <= 0 {
        None
    } else {
        match best_ranked(cands, marks, n - 1) {
            None => if marks[n - 1] {
                Some(n - 1)
            } else {
                None
            },
            Some(b) => if marks[n - 1] && wins(cands[n - 1], cands[b]) {
                Some(n - 1)
            } else {
                Some(b)
            },
        }
    }
}

/// The candidate that a scan settles on has the lowest rank of all.
pub proof fn law_lowest_rank_wins(cands: Seq<Ranked>, marks: Seq<bool>, n: int)
    requires
        0 <= n <= cands.len(),
        n <= marks.len(),
    ensures
        match best_ranked(cands, marks, n) {
            Some(b) => 0 <= b < n && marks[b] && forall|i: int|
                #![trigger cands[i]]
                0 <= i < n && marks[i] ==> cands[b].rank <= cands[i].rank,
            None => forall|i: int| 0 <= i < n ==> !marks[i],
        },
    decreases n,
{
    if n > 0 {
        law_lowest_rank_wins(cands, marks, n - 1);
    }
}

fn pick_ranked(cands: &[Ranked], marks: &[bool]) -> (r: Option<usize>)
    requires
        cands@.len() == marks@.len(),
    ensures
        match r {
            Some(b) => best_ranked(cands@, marks@, cands@.len() as int) == Some(b as int) && b
                < cands@.len() && marks@[b as int],
            None => best_ranked(cands@, marks@, cands@.len() as int) is None,
        },
{
    let mut best: Option<usize> = None;
    for i in 0..cands.len()
        invariant
            cands@.len() == marks@.len(),
            match best {
                Some(b) => best_ranked(cands@, marks@, i as int) == Some(b as int) && b < i
                    && marks@[b as int],
                None => best_ranked(cands@, marks@, i as int) is None,
            },
    {
        if marks[i] {
            match best {
                None => {
                    best = Some(i);
                },
                Some(b) => {
                    if cands[i].rank < cands[b].rank || (cands[i].rank == cands[b].rank && less64(
                        cands[i].dist,
                        cands[b].dist,
                    )) {
                        best = Some(i);
                    }
                },
            }
        }
    }
    best
}

/// An address found for a house number. The coordinates are bit patterns
/// (binary32).
pub struct AddrPointMatch<'a> {
    pub lat: u32,
    pub lng: u32,
    pub housenumber: &'a str,
    /// Empty where the address is keyed by a place.
    pub street: &'a str,
    pub unit: &'a str,
    pub floor: &'a str,
    pub parent_place: &'a str,
    pub flags: u8,
}

/// The content of an [`AddrPointMatch`].
pub struct AddrMatchText {
    pub lat: u32,
    pub lng: u32,
    pub housenumber: Seq<char>,
    pub street: Seq<char>,
    pub unit: Seq<char>,
    pub floor: Seq<char>,
    pub parent_place: Seq<char>,
    pub flags: u8,
}

impl<'a> View for AddrPointMatch<'a> {
    type V = AddrMatchText;

    open spec fn view(&self) -> AddrMatchText {
        AddrMatchText {
            lat: self.lat,
            lng: self.lng,
            housenumber: self.housenumber@,
            street: self.street@,
            unit: self.unit@,
            floor: self.floor@,
            parent_place: self.parent_place@,
            flags: self.flags,
        }
    }
}

pub open spec fn addr_match_view(m: Option<AddrPointMatch<'_>>) -> Option<AddrMatchText> {
    match m {
        Some(a) => Some(a@),
        None => None,
    }
}

/// A match of an address-point dataset: those carry neither unit nor floor nor
/// place.
pub open spec fn dataset_match(a: AddressText) -> AddrMatchText {
    AddrMatchText {
        lat: a.lat,
        lng: a.lng,
        housenumber: a.housenumber,
        street: a.street,
        unit: Seq::empty(),
        floor: Seq::empty(),
        parent_place: Seq::empty(),
        flags: 0,
    }
}

/// Whether an address is keyed by a place.
pub open spec fn is_place(flags: u8) -> bool {
    flags % 2 == 1
}

/// Whether an address is keyed by a place.
pub fn has_place_flag(flags: u8) -> (r: bool)
    ensures
        r == is_place(flags),
        r == (flags & FLAG_ADDR_PLACE != 0),
{
    assert((flags & 1u8 != 0) == (flags % 2 == 1)) by (bit_vector);
    flags & FLAG_ADDR_PLACE != 0
}

/// Whether the country of a hint is Australia.
pub open spec fn is_au(cc: [u8; 2]) -> bool {
    (cc[0] == 65 || cc[0] == 97) && (cc[1] == 85 || cc[1] == 117)
}

/// Whether the country of a hint is Australia, in any case.
pub fn is_australia(cc: &[u8; 2]) -> (r: bool)
    ensures
        r == is_au(*cc),
{
    (cc[0] == 65 || cc[0] == 97) && (cc[1] == 85 || cc[1] == 117)
}

impl<'a> Index<'a> {
    /// The string at an offset of the pool; empty beyond its end.
    pub open spec fn text(&self, offset: u32) -> Seq<char> {
        if offset <= self.strings@.len() {
            text_at(self.strings@, offset as int)
        } else {
            Seq::empty()
        }
    }

    /// The string at an offset of the pool.
    pub fn get_string(&self, offset: u32) -> (r: &'a str)
        ensures
            r@ == self.text(offset),
    {
        if (offset as usize) <= self.strings.len() {
            str_at(self.strings, offset as usize)
        } else {
            empty_str()
        }
    }

    // --- Scans ---
    /// The addresses in the given cells.
    pub fn addr_ids(&self, scan: &[u64]) -> (r: Vec<u32>)
        ensures
            r@ == geo_scan(self.geo_cells@, self.addr_entries@, Layer::Addr, scan@),
    {
        scan_layer(self.geo_cells, self.addr_entries, Layer::Addr, scan)
    }

    /// The streets in the given cells that have segments, each once as long
    /// as the scan remembers.
    pub fn street_ids(&self, scan: &[u64]) -> (r: Vec<u32>)
        ensures
            r@ == street_scan(
                self.street_ways@,
                self.street_nodes@,
                geo_scan(self.geo_cells@, self.street_entries@, Layer::Street, scan@),
            ).out,
    {
        let ids = scan_layer(self.geo_cells, self.street_entries, Layer::Street, scan);
        let mut seen: Vec<u32> = Vec::new();
        let mut out: Vec<u32> = Vec::new();
        for i in 0..ids.len()
            invariant
                seen@ == street_scan(
                    self.street_ways@,
                    self.street_nodes@,
                    ids@.take(i as int),
                ).seen,
                out@ == street_scan(self.street_ways@, self.street_nodes@, ids@.take(i as int)).out,
        {
            assert(ids@.take(i + 1).drop_last() =~= ids@.take(i as int));
            let id: u32 = ids[i];
            if !seen_streets_contains(&seen, id) {
                if seen.len() < SEEN_STREETS_CAP {
                    seen.push(id);
                }
                if let Some(w) = read_way_header(self.street_ways, id) {
                    if check_segments(self.street_nodes, w.node_offset, w.node_count) {
                        out.push(id);
                    }
                }
            }
        }
        assert(ids@.take(ids@.len() as int) =~= ids@);
        out
    }

    /// The usable interpolation ways in the given cells.
    pub fn interp_ids(&self, scan: &[u64]) -> (r: Vec<u32>)
        ensures
            r@ == interp_scan(
                self.interp_ways@,
                self.interp_nodes@,
                geo_scan(self.geo_cells@, self.interp_entries@, Layer::Interp, scan@),
            ),
    {
        let ids = scan_layer(self.geo_cells, self.interp_entries, Layer::Interp, scan);
        let mut out: Vec<u32> = Vec::new();
        for i in 0..ids.len()
            invariant
                out@ == interp_scan(self.interp_ways@, self.interp_nodes@, ids@.take(i as int)),
        {
            assert(ids@.take(i + 1).drop_last() =~= ids@.take(i as int));
            if let Some(w) = read_interp_way(self.interp_ways, ids[i]) {
                if w.start_number != 0 && w.end_number != 0 && check_segments(
                    self.interp_nodes,
                    w.node_offset,
                    w.node_count,
                ) {
                    out.push(ids[i]);
                }
            }
        }
        assert(ids@.take(ids@.len() as int) =~= ids@);
        out
    }

    /// The polygons in the given cells, as the entries list them: the top bit
    /// marks a cell that lies inside the polygon.
    pub fn admin_ids(&self, scan: &[u64]) -> (r: Vec<u32>)
        ensures
            r@ == admin_scan(self.admin_cells@, self.admin_entries@, scan@),
    {
        scan_admin_cells(self.admin_cells, self.admin_entries, scan)
    }

    /// The places in the given cells; none where the index lacks places.
    pub open spec fn places_in(&self, scan: Seq<u64>) -> Seq<u32> {
        if self.place_points is Some && self.place_cells is Some && self.place_entries is Some {
            admin_scan(self.place_cells->0@, self.place_entries->0@, scan)
        } else {
            Seq::empty()
        }
    }

    /// The places in the given cells.
    pub fn place_ids(&self, scan: &[u64]) -> (r: Vec<u32>)
        ensures
            r@ == self.places_in(scan@),
    {
        match (self.place_points, self.place_cells, self.place_entries) {
            (Some(_), Some(cells), Some(entries)) => scan_admin_cells(cells, entries, scan),
            _ => Vec::new(),
        }
    }

    /// The points of interest in the given cells; none where the index lacks
    /// them.
    pub open spec fn pois_in(&self, scan: Seq<u64>) -> Seq<u32> {
        if self.poi_points is Some && self.poi_cells is Some && self.poi_entries is Some {
            admin_scan(self.poi_cells->0@, self.poi_entries->0@, scan)
        } else {
            Seq::empty()
        }
    }

    /// The points of interest in the given cells.
    pub fn poi_ids(&self, scan: &[u64]) -> (r: Vec<u32>)
        ensures
            r@ == self.pois_in(scan@),
    {
        match (self.poi_points, self.poi_cells, self.poi_entries) {
            (Some(_), Some(cells), Some(entries)) => scan_admin_cells(cells, entries, scan),
            _ => Vec::new(),
        }
    }

    // --- The nearest of each kind ---
    /// The addresses that a scan can settle on.
    pub open spec fn addr_marks(&self, cands: Seq<Candidate>) -> Seq<bool> {
        Seq::new(
            cands.len(),
            |i: int|
                lt64(cands[i].dist, MAX_DISTANCE) && addr_point_of(
                    self.addr_points@,
                    cands[i].id as int,
                ) is Some,
        )
    }

    /// The streets that a scan can settle on.
    pub open spec fn street_marks(&self, cands: Seq<Candidate>) -> Seq<bool> {
        Seq::new(
            cands.len(),
            |i: int|
                lt64(cands[i].dist, MAX_DISTANCE) && way_header_of(
                    self.street_ways@,
                    cands[i].id as int,
                ) is Some,
        )
    }

    /// The interpolation ways that a scan can settle on.
    pub open spec fn interp_marks(&self, cands: Seq<InterpCandidate>) -> Seq<bool> {
        Seq::new(
            cands.len(),
            |i: int|
                lt64(cands[i].dist, MAX_DISTANCE) && interp_way_of(
                    self.interp_ways@,
                    cands[i].id as int,
                ) is Some,
        )
    }

    /// The nearest address.
    pub open spec fn best_addr(&self, cands: Seq<Candidate>) -> Option<(u64, AddrPoint)> {
        match nearest(cands, self.addr_marks(cands)) {
            Some(i) => Some(
                (cands[i].dist, addr_point_of(self.addr_points@, cands[i].id as int)->0),
            ),
            None => None,
        }
    }

    /// The nearest street.
    pub open spec fn best_street(&self, cands: Seq<Candidate>) -> Option<(u64, WayHeader)> {
        match nearest(cands, self.street_marks(cands)) {
            Some(i) => Some(
                (cands[i].dist, way_header_of(self.street_ways@, cands[i].id as int)->0),
            ),
            None => None,
        }
    }

    /// The nearest interpolation way, with the street and the number there.
    pub open spec fn best_interp(&self, cands: Seq<InterpCandidate>) -> Option<
        (u64, Seq<char>, int),
    > {
        match nearest(plain(cands), self.interp_marks(cands)) {
            Some(i) => {
                let w = interp_way_of(self.interp_ways@, cands[i].id as int)->0;
                Some(
                    (
                        cands[i].dist,
                        self.text(w.street_id),
                        interpolated(w, cands[i].steps, cands[i].nearest_number),
                    ),
                )
            },
            None => None,
        }
    }

    /// Whether the house numbers along the ways of a scan are small enough.
    pub open spec fn numbers_fit(&self, cands: Seq<InterpCandidate>) -> bool {
        forall|i: int|
            0 <= i < cands.len() ==> (interp_way_of(
                self.interp_ways@,
                (#[trigger] cands[i]).id as int,
            ) matches Some(w) ==> interpolated(w, cands[i].steps, cands[i].nearest_number)
                <= u32::MAX)
    }

    /// Picks the nearest address, interpolated address and street among the
    /// records of a scan. The lists hold what [`Index::addr_ids`],
    /// [`Index::interp_ids`] and [`Index::street_ids`] list, with distances.
    pub fn query_geo(
        &self,
        addr: &[Candidate],
        interp: &[InterpCandidate],
        street: &[Candidate],
    ) -> (r: GeoResult<'a>)
        requires
            self.numbers_fit(interp@),
        ensures
            r.addr == self.best_addr(addr@),
            r.street == self.best_street(street@),
            match r.interp {
                Some((d, s, n)) => self.best_interp(interp@) == Some((d, s@, n as int)),
                None => self.best_interp(interp@) is None,
            },
    {
        let mut addr_marks: Vec<bool> = Vec::new();
        for i in 0..addr.len()
            invariant
                addr_marks@ == self.addr_marks(addr@).take(i as int),
        {
            let known = read_addr_point(self.addr_points, addr[i].id).is_some();
            addr_marks.push(less64(addr[i].dist, MAX_DISTANCE) && known);
            assert(addr_marks@ =~= self.addr_marks(addr@).take(i + 1));
        }
        assert(addr_marks@ =~= self.addr_marks(addr@));
        let best_addr = match pick_nearest(addr, &addr_marks) {
            Some(i) => match read_addr_point(self.addr_points, addr[i].id) {
                Some(p) => Some((addr[i].dist, p)),
                None => None,
            },
            None => None,
        };
        let mut street_marks: Vec<bool> = Vec::new();
        for i in 0..street.len()
            invariant
                street_marks@ == self.street_marks(street@).take(i as int),
        {
            let known = read_way_header(self.street_ways, street[i].id).is_some();
            street_marks.push(less64(street[i].dist, MAX_DISTANCE) && known);
            assert(street_marks@ =~= self.street_marks(street@).take(i + 1));
        }
        assert(street_marks@ =~= self.street_marks(street@));
        let best_street = match pick_nearest(street, &street_marks) {
            Some(i) => match read_way_header(self.street_ways, street[i].id) {
                Some(w) => Some((street[i].dist, w)),
                None => None,
            },
            None => None,
        };
        let best_interp = self.pick_interp(interp);
        GeoResult { addr: best_addr, interp: best_interp, street: best_street }
    }

    fn pick_interp(&self, interp: &[InterpCandidate]) -> (r: Option<(u64, &'a str, u32)>)
        requires
            forall|i: int|
                0 <= i < interp@.len() ==> (interp_way_of(
                    self.interp_ways@,
                    (#[trigger] interp@[i]).id as int,
                ) matches Some(w) ==> interpolated(w, interp@[i].steps, interp@[i].nearest_number)
                    <= u32::MAX),
        ensures
            match r {
                Some((d, s, n)) => self.best_interp(interp@) == Some((d, s@, n as int)),
                None => self.best_interp(interp@) is None,
            },
    {
        let mut cands: Vec<Candidate> = Vec::new();
        let mut marks: Vec<bool> = Vec::new();
        for i in 0..interp.len()
            invariant
                marks@ == self.interp_marks(interp@).take(i as int),
                cands@ == plain(interp@).take(i as int),
        {
            let known = read_interp_way(self.interp_ways, interp[i].id).is_some();
            marks.push(less64(interp[i].dist, MAX_DISTANCE) && known);
            cands.push(Candidate { id: interp[i].id, dist: interp[i].dist });
            assert(marks@ =~= self.interp_marks(interp@).take(i + 1));
            assert(cands@ =~= plain(interp@).take(i + 1));
        }
        assert(marks@ =~= self.interp_marks(interp@));
        assert(cands@ =~= plain(interp@));
        match pick_nearest(&cands, &marks) {
            Some(i) => match read_interp_way(self.interp_ways, interp[i].id) {
                Some(w) => {
                    let number: u32 = crate::reverse::interpolated_number(
                        &w,
                        interp[i].steps,
                        interp[i].nearest_number,
                    );
                    Some((interp[i].dist, self.get_string(w.street_id), number))
                },
                None => None,
            },
            None => None,
        }
    }

    /// The ranks and distances of the places of a scan.
    pub open spec fn place_ranks(&self, cands: Seq<Candidate>) -> Seq<Ranked> {
        Seq::new(
            cands.len(),
            |i: int|
                Ranked {
                    rank: match self.place(cands[i].id) {
                        Some(p) => p.rank,
                        None => 255,
                    },
                    dist: cands[i].dist,
                },
        )
    }

    pub open spec fn place(&self, id: u32) -> Option<PlacePoint> {
        match self.place_points {
            Some(points) => place_point_of(points@, id as int),
            None => None,
        }
    }

    /// The place that a scan settles on: the most prominent one, and of those
    /// the nearest.
    pub open spec fn best_place(&self, cands: Seq<Candidate>) -> Option<PlacePoint> {
        let marks = Seq::new(cands.len(), |i: int| self.place(cands[i].id) is Some);
        match best_ranked(self.place_ranks(cands), marks, cands.len() as int) {
            Some(i) => self.place(cands[i].id),
            None => None,
        }
    }

    /// Picks a place among those of a scan (see [`Index::place_ids`]).
    pub fn find_place(&self, cands: &[Candidate]) -> (r: Option<PlaceMatch<'a>>)
        ensures
            match r {
                Some(m) => self.best_place(cands@) matches Some(p) && m.name@ == self.text(p.name_id)
                    && m.rank == p.rank,
                None => self.best_place(cands@) is None,
            },
    {
        let points: &[u8] = match self.place_points {
            Some(points) => points,
            None => {
                proof {
                    let marks = Seq::new(cands@.len(), |i: int| self.place(cands@[i].id) is Some);
                    law_lowest_rank_wins(self.place_ranks(cands@), marks, cands@.len() as int);
                }
                return None;
            },
        };
        let ghost all = Seq::new(cands@.len(), |i: int| self.place(cands@[i].id) is Some);
        let mut ranks: Vec<Ranked> = Vec::new();
        let mut marks: Vec<bool> = Vec::new();
        for i in 0..cands.len()
            invariant
                self.place_points is Some,
                points@ == self.place_points->0@,
                all == Seq::new(cands@.len(), |i: int| self.place(cands@[i].id) is Some),
                ranks@ == self.place_ranks(cands@).take(i as int),
                marks@ == all.take(i as int),
        {
            match read_place_point(points, cands[i].id) {
                Some(p) => {
                    ranks.push(Ranked { rank: p.rank, dist: cands[i].dist });
                    marks.push(true);
                },
                None => {
                    ranks.push(Ranked { rank: 255, dist: cands[i].dist });
                    marks.push(false);
                },
            }
            assert(ranks@ =~= self.place_ranks(cands@).take(i + 1));
            assert(marks@ =~= all.take(i + 1));
        }
        assert(ranks@ =~= self.place_ranks(cands@));
        assert(marks@ =~= all);
        match pick_ranked(&ranks, &marks) {
            Some(i) => match read_place_point(points, cands[i].id) {
                Some(p) => Some(PlaceMatch { name: self.get_string(p.name_id), rank: p.rank }),
                None => None,
            },
            None => None,
        }
    }

    pub open spec fn poi(&self, id: u32) -> Option<PoiPoint> {
        match self.poi_points {
            Some(points) => poi_point_of(points@, id as int),
            None => None,
        }
    }

    /// The ranks and distances of the points of interest of a scan.
    pub open spec fn poi_ranks(&self, cands: Seq<Candidate>) -> Seq<Ranked> {
        Seq::new(
            cands.len(),
            |i: int|
                Ranked {
                    rank: match self.poi(cands[i].id) {
                        Some(p) => p.rank,
                        None => 255,
                    },
                    dist: cands[i].dist,
                },
        )
    }

    /// The points of interest that are not too far.
    pub open spec fn poi_marks(&self, cands: Seq<Candidate>, max_dist: u64) -> Seq<bool> {
        Seq::new(
            cands.len(),
            |i: int| self.poi(cands[i].id) is Some && !lt64(max_dist, cands[i].dist),
        )
    }

    /// The point of interest that a scan settles on, with its position in the
    /// scan.
    pub open spec fn best_poi(&self, cands: Seq<Candidate>, max_dist: u64) -> Option<int> {
        best_ranked(self.poi_ranks(cands), self.poi_marks(cands, max_dist), cands.len() as int)
    }

    /// Picks a point of interest no farther than `max_dist` among those of a
    /// scan (see [`Index::poi_ids`]).
    pub fn find_poi(&self, cands: &[Candidate], max_dist: u64) -> (r: Option<PoiMatch<'a>>)
        ensures
            match r {
                Some(m) => {
                    &&& self.best_poi(cands@, max_dist) matches Some(i)
                    &&& 0 <= i < cands@.len()
                    &&& self.poi(cands@[i].id) matches Some(p)
                    &&& m.name@ == self.text(p.name_id)
                    &&& m.category@ == self.text(p.category_id)
                    &&& m.distance == cands@[i].dist
                },
                None => self.best_poi(cands@, max_dist) is None,
            },
    {
        let points: &[u8] = match self.poi_points {
            Some(points) => points,
            None => {
                proof {
                    law_lowest_rank_wins(
                        self.poi_ranks(cands@),
                        self.poi_marks(cands@, max_dist),
                        cands@.len() as int,
                    );
                }
                return None;
            },
        };
        let mut ranks: Vec<Ranked> = Vec::new();
        let mut marks: Vec<bool> = Vec::new();
        for i in 0..cands.len()
            invariant
                self.poi_points is Some,
                points@ == self.poi_points->0@,
                ranks@ == self.poi_ranks(cands@).take(i as int),
                marks@ == self.poi_marks(cands@, max_dist).take(i as int),
        {
            match read_poi_point(points, cands[i].id) {
                Some(p) => {
                    ranks.push(Ranked { rank: p.rank, dist: cands[i].dist });
                    marks.push(!less64(max_dist, cands[i].dist));
                },
                None => {
                    ranks.push(Ranked { rank: 255, dist: cands[i].dist });
                    marks.push(false);
                },
            }
            assert(ranks@ =~= self.poi_ranks(cands@).take(i + 1));
            assert(marks@ =~= self.poi_marks(cands@, max_dist).take(i + 1));
        }
        assert(ranks@ =~= self.poi_ranks(cands@));
        assert(marks@ =~= self.poi_marks(cands@, max_dist));
        match pick_ranked(&ranks, &marks) {
            Some(i) => match read_poi_point(points, cands[i].id) {
                Some(p) => Some(
                    PoiMatch {
                        name: self.get_string(p.name_id),
                        category: self.get_string(p.category_id),
                        distance: cands[i].dist,
                    },
                ),
                None => None,
            },
            None => None,
        }
    }

    // --- House numbers ---
    /// Whether an address point has the number and the street asked for.
    pub open spec fn addr_fits(&self, id: u32, number: Seq<char>, street: Option<Seq<char>>) -> bool {
        &&& addr_point_of(self.addr_points@, id as int) matches Some(p)
        &&& eq_ignore_case(self.text(p.housenumber_id), trim_seq(number))
        &&& hint(street) matches Some(s) ==> contains_ignoring_case(
            self.text(p.street_or_place_id),
            s,
        )
    }

    pub open spec fn addr_fit_marks(
        &self,
        near: Seq<Candidate>,
        number: Seq<char>,
        street: Option<Seq<char>>,
    ) -> Seq<bool> {
        Seq::new(near.len(), |i: int| self.addr_fits(near[i].id, number, street))
    }

    /// An address point in full. Keyed by a place, it has that place in place
    /// of a street.
    pub open spec fn addr_text(&self, p: AddrPoint) -> AddrMatchText {
        AddrMatchText {
            lat: p.lat,
            lng: p.lng,
            housenumber: self.text(p.housenumber_id),
            street: if is_place(p.flags) {
                Seq::empty()
            } else {
                self.text(p.street_or_place_id)
            },
            unit: if p.unit_id != 0 {
                self.text(p.unit_id)
            } else {
                Seq::empty()
            },
            floor: if p.floor_id != 0 {
                self.text(p.floor_id)
            } else {
                Seq::empty()
            },
            parent_place: if is_place(p.flags) {
                self.text(p.street_or_place_id)
            } else if p.parent_place_id != 0 {
                self.text(p.parent_place_id)
            } else {
                Seq::empty()
            },
            flags: p.flags,
        }
    }

    /// The address point with a number on a street that is nearest.
    pub open spec fn own_addr(
        &self,
        number: Seq<char>,
        street: Option<Seq<char>>,
        near: Seq<Candidate>,
    ) -> Option<AddrMatchText> {
        if trim_seq(number).len() == 0 {
            None
        } else {
            match nearest(near, self.addr_fit_marks(near, number, street)) {
                Some(i) => Some(
                    self.addr_text(addr_point_of(self.addr_points@, near[i].id as int)->0),
                ),
                None => None,
            }
        }
    }

    /// An address point in full.
    pub fn hydrate(&self, p: &AddrPoint) -> (r: AddrPointMatch<'a>)
        ensures
            r@ == self.addr_text(*p),
    {
        let place = has_place_flag(p.flags);
        let primary = self.get_string(p.street_or_place_id);
        AddrPointMatch {
            lat: p.lat,
            lng: p.lng,
            housenumber: self.get_string(p.housenumber_id),
            street: if place {
                empty_str()
            } else {
                primary
            },
            unit: if p.unit_id != 0 {
                self.get_string(p.unit_id)
            } else {
                empty_str()
            },
            floor: if p.floor_id != 0 {
                self.get_string(p.floor_id)
            } else {
                empty_str()
            },
            parent_place: if place {
                primary
            } else if p.parent_place_id != 0 {
                self.get_string(p.parent_place_id)
            } else {
                empty_str()
            },
            flags: p.flags,
        }
    }

    /// Whether the national dataset of Australia answers for a country hint.
    /// Without a hint it may.
    pub open spec fn tries_gnaf(&self, country_code: Option<[u8; 2]>) -> bool {
        self.gnaf is Some && (country_code matches Some(cc) ==> is_au(cc))
    }

    /// Whether to look in the national dataset of Australia.
    pub fn try_gnaf(&self, country_code: Option<&[u8; 2]>) -> (r: bool)
        ensures
            r == self.tries_gnaf(deref_code(country_code)),
    {
        let hinted = match country_code {
            Some(cc) => is_australia(cc),
            None => true,
        };
        self.gnaf.is_some() && hinted
    }

    /// Finds a house number near a point.
    ///
    /// `gnaf` and `open_addresses` are what the datasets found, `near` are the
    /// address points of a scan (see [`Index::addr_ids`]). The national
    /// dataset of Australia comes first, where the hint allows it; then the
    /// dataset of the hinted country, or those of all countries where there is
    /// no hint; then the points of this index.
    pub fn find_addr_point_in_country(
        &self,
        housenumber: &str,
        street_name_hint: Option<&str>,
        country_code: Option<&[u8; 2]>,
        gnaf: Option<AddressMatch<'a>>,
        open_addresses: Option<AddressMatch<'a>>,
        near: &[Candidate],
    ) -> (r: Option<AddrPointMatch<'a>>)
        ensures
            addr_match_view(r) == (if self.tries_gnaf(deref_code(country_code)) && gnaf is Some {
                Some(dataset_match(gnaf->0@))
            } else if self.open_addresses is Some && open_addresses is Some {
                Some(dataset_match(open_addresses->0@))
            } else {
                self.own_addr(housenumber@, opt_str_view(street_name_hint), near@)
            }),
    {
        if self.try_gnaf(country_code) {
            if let Some(m) = gnaf {
                return Some(from_dataset(&m));
            }
        }
        if self.open_addresses.is_some() {
            if let Some(m) = open_addresses {
                return Some(from_dataset(&m));
            }
        }
        self.find_own_addr(housenumber, street_name_hint, near)
    }

    /// Finds a house number near a point without a country hint.
    /// `open_addresses` is what the datasets of all countries found (see
    /// [`crate::openaddresses::OpenAddresses::find_by_housenumber_any`]).
    pub fn find_addr_point(
        &self,
        housenumber: &str,
        street_name_hint: Option<&str>,
        gnaf: Option<AddressMatch<'a>>,
        open_addresses: Option<AddressMatch<'a>>,
        near: &[Candidate],
    ) -> (r: Option<AddrPointMatch<'a>>)
        ensures
            addr_match_view(r) == (if self.gnaf is Some && gnaf is Some {
                Some(dataset_match(gnaf->0@))
            } else if self.open_addresses is Some && open_addresses is Some {
                Some(dataset_match(open_addresses->0@))
            } else {
                self.own_addr(housenumber@, opt_str_view(street_name_hint), near@)
            }),
    {
        self.find_addr_point_in_country(
            housenumber,
            street_name_hint,
            None,
            gnaf,
            open_addresses,
            near,
        )
    }

    /// Whether each open dataset has a list of points.
    pub open spec fn has_lists(&self, lists: Seq<Vec<Candidate>>) -> bool {
        self.open_addresses matches Some(all) ==> all.wf() && lists.len() == all.shards@.len()
    }

    /// The address with a house number that the points of a scan give: that of
    /// the national dataset of Australia, where the hint allows it; else that
    /// of the dataset of the hinted country, or the nearest over the datasets
    /// of all countries where there is no hint; else that of this index.
    pub open spec fn located(
        &self,
        number: Seq<char>,
        street: Option<Seq<char>>,
        country_code: Option<[u8; 2]>,
        gnaf_near: Seq<Candidate>,
        oa_near: Seq<Vec<Candidate>>,
        near: Seq<Candidate>,
    ) -> Option<AddrMatchText> {
        let q = AddressQuery { housenumber: number, street, unit: None };
        let national = if self.tries_gnaf(country_code) {
            (self.gnaf->0).inner.search_result(q, gnaf_near)
        } else {
            None
        };
        let open = match self.open_addresses {
            Some(all) => all.found_near(q, country_code, oa_near),
            None => None,
        };
        if national is Some {
            Some(dataset_match(national->0))
        } else if open is Some {
            Some(dataset_match(open->0))
        } else {
            self.own_addr(number, street, near)
        }
    }

    /// Finds a house number near a point: asks the datasets that the hint
    /// allows, and then the points of this index.
    ///
    /// `gnaf_near` are the points of the national dataset of Australia in a
    /// scan, `oa_near` those of each open dataset (see
    /// [`crate::openaddresses::OpenAddresses::asks_shard`]), and `near` those of
    /// this index.
    pub fn locate_addr_point(
        &self,
        housenumber: &str,
        street_name_hint: Option<&str>,
        country_code: Option<&[u8; 2]>,
        gnaf_near: &[Candidate],
        oa_near: &[Vec<Candidate>],
        near: &[Candidate],
    ) -> (r: Option<AddrPointMatch<'a>>)
        requires
            self.has_lists(oa_near@),
        ensures
            addr_match_view(r) == self.located(
                housenumber@,
                opt_str_view(street_name_hint),
                deref_code(country_code),
                gnaf_near@,
                oa_near@,
                near@,
            ),
    {
        let gnaf = if self.try_gnaf(country_code) {
            match &self.gnaf {
                Some(g) => g.find_by_housenumber(housenumber, street_name_hint, gnaf_near),
                None => None,
            }
        } else {
            None
        };
        let open_addresses = match self.open_addresses {
            Some(all) => all.find_near(housenumber, street_name_hint, country_code, oa_near),
            None => None,
        };
        self.find_addr_point_in_country(
            housenumber,
            street_name_hint,
            country_code,
            gnaf,
            open_addresses,
            near,
        )
    }

    fn find_own_addr(
        &self,
        housenumber: &str,
        street_name_hint: Option<&str>,
        near: &[Candidate],
    ) -> (r: Option<AddrPointMatch<'a>>)
        ensures
            addr_match_view(r) == self.own_addr(
                housenumber@,
                opt_str_view(street_name_hint),
                near@,
            ),
    {
        let number = trim_chars(&chars_of(housenumber));
        if number.len() == 0 {
            return None;
        }
        let street = needle_of(street_name_hint);
        let ghost all = self.addr_fit_marks(near@, housenumber@, opt_str_view(street_name_hint));
        let mut marks: Vec<bool> = Vec::new();
        for i in 0..near.len()
            invariant
                number@ == trim_seq(housenumber@),
                opt_view(street) == hint(opt_str_view(street_name_hint)),
                all == self.addr_fit_marks(near@, housenumber@, opt_str_view(street_name_hint)),
                marks@ == all.take(i as int),
        {
            let mut fits = false;
            if let Some(p) = read_addr_point(self.addr_points, near[i].id) {
                if chars_eq_ignore_case(&chars_of(self.get_string(p.housenumber_id)), &number) {
                    fits = match &street {
                        Some(s) => contains_ignore_ascii_case(
                            self.get_string(p.street_or_place_id),
                            s.as_str(),
                        ),
                        None => true,
                    };
                }
            }
            marks.push(fits);
            assert(marks@ =~= all.take(i + 1));
        }
        assert(marks@ =~= all);
        match pick_nearest(near, &marks) {
            Some(i) => match read_addr_point(self.addr_points, near[i].id) {
                Some(p) => Some(self.hydrate(&p)),
                None => None,
            },
            None => None,
        }
    }
}

/// The country code behind an optional reference.
pub open spec fn deref_code(cc: Option<&[u8; 2]>) -> Option<[u8; 2]> {
    match cc {
        Some(c) => Some(*c),
        None => None,
    }
}

/// The candidates without the positions along their ways.
pub open spec fn plain(cands: Seq<InterpCandidate>) -> Seq<Candidate> {
    Seq::new(cands.len(), |i: int| Candidate { id: cands[i].id, dist: cands[i].dist })
}

/// The empty string.
pub(crate) fn empty_str() -> (r: &'static str)
    ensures
        r@ == Seq::<char>::empty(),
{
    proof {
        reveal_strlit("");
    }
    assert(""@ =~= Seq::<char>::empty());
    ""
}

fn from_dataset<'a>(m: &AddressMatch<'a>) -> (r: AddrPointMatch<'a>)
    ensures
        r@ == dataset_match(m@),
{
    AddrPointMatch {
        lat: m.lat,
        lng: m.lng,
        housenumber: m.housenumber,
        street: m.street,
        unit: empty_str(),
        floor: empty_str(),
        parent_place: empty_str(),
        flags: 0,
    }
}

} // verus!
