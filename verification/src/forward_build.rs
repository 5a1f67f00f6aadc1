//! What goes into the forward indexes: one document for each place and street.
use vstd::hash_map::StringHashMap;
use vstd::prelude::*;
use vstd::utf8::{decode_utf8, valid_utf8};
use crate::admin::AdminResult;
use crate::bytes::utf8_str;
use crate::forward::{canonicalise_phrase, indexed_name};
use crate::forward_search::{KIND_PLACE, KIND_STREET};
use crate::index::Index;
use crate::name_build::{make_street_key, street_key};
use crate::name_candidates::{midpoint, street_midpoint, STREET_RANK};
use crate::openaddresses::{code_text, lower_code, normalise_code};
use crate::paths::{join_path, joined};
use crate::records::{node_coord_of, PlacePoint, WayHeader};
use crate::text::{append_str, opt_str_view, string_of};

verus! {

broadcast use vstd::seq::group_seq_axioms;

/// How many documents an index has.
#[derive(Clone, Copy, Debug, PartialEq, Eq, Structural)]
pub struct BuildStats {
    pub places: usize,
    pub streets: usize,
}

impl Default for BuildStats {
    fn default() -> (r: BuildStats)
        ensures
            r.places == 0,
            r.streets == 0,
    {
        BuildStats { places: 0, streets: 0 }
    }
}

/// A document. The coordinates are bit patterns (binary32). What is not known
/// is empty.
pub struct ForwardDoc {
    pub name: String,
    /// The name as it is shown.
    pub name_raw: String,
    pub suburb: String,
    pub state: String,
    pub country_code: String,
    pub kind: u64,
    pub rank: u64,
    pub lat: u32,
    pub lng: u32,
}

/// A name as it is indexed; empty where there is none.
pub open spec fn indexed_or_empty(s: Option<&str>) -> Seq<char> {
    match s {
        Some(t) => indexed_name(t@),
        None => Seq::empty(),
    }
}

/// A country code as text; empty where it is none or no UTF-8.
pub open spec fn country_text(cc: Option<[u8; 2]>) -> Seq<char> {
    match cc {
        Some(c) => if valid_utf8(c@) {
            decode_utf8(c@)
        } else {
            Seq::empty()
        },
        None => Seq::empty(),
    }
}

impl ForwardDoc {
    /// Whether this is the document of a feature.
    pub open spec fn describes(
        &self,
        name: Seq<char>,
        kind: u64,
        rank: u64,
        lat: u32,
        lng: u32,
        admin: AdminResult<'_>,
    ) -> bool {
        &&& self.name@ == indexed_name(name)
        &&& self.name_raw@ == name
        &&& self.suburb@ == indexed_or_empty(admin.city)
        &&& self.state@ == indexed_or_empty(admin.state)
        &&& self.country_code@ == country_text(admin.country_code)
        &&& self.kind == kind
        &&& self.rank == rank
        &&& self.lat == lat
        &&& self.lng == lng
    }
}

fn phrase_or_empty(s: Option<&str>) -> (r: String)
    ensures
        r@ == indexed_or_empty(s),
{
    match s {
        Some(t) => canonicalise_phrase(t),
        None => String::new(),
    }
}

fn forward_doc(
    name: &str,
    kind: u64,
    rank: u64,
    lat: u32,
    lng: u32,
    admin: &AdminResult<'_>,
) -> (r: ForwardDoc)
    ensures
        r.describes(name@, kind, rank, lat, lng, *admin),
{
    let country_code = match admin.country_code {
        Some(c) => {
            let bytes = c.as_slice();
            match utf8_str(bytes) {
                Some(s) => s.to_owned(),
                None => String::new(),
            }
        },
        None => String::new(),
    };
    ForwardDoc {
        name: canonicalise_phrase(name),
        name_raw: name.to_owned(),
        suburb: phrase_or_empty(admin.city),
        state: phrase_or_empty(admin.state),
        country_code,
        kind,
        rank,
        lat,
        lng,
    }
}

/// Whether `r` is what becomes of a place.
pub open spec fn is_place_doc(
    index: Index<'_>,
    place: PlacePoint,
    admin: AdminResult<'_>,
    r: Option<ForwardDoc>,
) -> bool {
    match r {
        Some(d) => index.text(place.name_id).len() > 0 && d.describes(
            index.text(place.name_id),
            KIND_PLACE,
            place.rank as u64,
            place.lat,
            place.lng,
            admin,
        ),
        None => index.text(place.name_id).len() == 0,
    }
}

/// The document of a place; none for a place without a name.
pub fn place_doc(index: &Index<'_>, place: &PlacePoint, admin: &AdminResult<'_>) -> (r: Option<
    ForwardDoc,
>)
    ensures
        is_place_doc(*index, *place, *admin, r),
{
    let name = index.get_string(place.name_id);
    if name.is_empty() {
        return None;
    }
    Some(forward_doc(name, KIND_PLACE, place.rank as u64, place.lat, place.lng, admin))
}

/// Whether `r` is what becomes of a street.
pub open spec fn is_street_doc(
    index: Index<'_>,
    way: WayHeader,
    admin: AdminResult<'_>,
    r: Option<ForwardDoc>,
) -> bool {
    match r {
        Some(d) => index.text(way.name_id).len() > 0 && (midpoint(index, way) matches Some(mid)
            && d.describes(
            index.text(way.name_id),
            KIND_STREET,
            STREET_RANK as u64,
            mid.lat,
            mid.lng,
            admin,
        )),
        None => index.text(way.name_id).len() == 0 || midpoint(index, way) is None,
    }
}

/// The document of a street; none for a street without a name or without its
/// nodes. `admin` is what the midpoint of the street lies in.
pub fn street_doc(index: &Index<'_>, way: &WayHeader, admin: &AdminResult<'_>) -> (r: Option<
    ForwardDoc,
>)
    ensures
        is_street_doc(*index, *way, *admin, r),
{
    let name = index.get_string(way.name_id);
    if name.is_empty() {
        return None;
    }
    match street_midpoint(index, way) {
        Some(mid) => Some(
            forward_doc(name, KIND_STREET, STREET_RANK as u64, mid.lat, mid.lng, admin),
        ),
        None => None,
    }
}

// --- One index of everything ---
/// An index of everything under construction.
pub struct WholeBuild {
    pub stats: BuildStats,
    /// The streets that were taken.
    pub streets: StringHashMap<bool>,
}

/// The country that streets repeat each other in, where countries do not
/// count.
pub open spec fn no_country() -> Seq<u8> {
    seq![0u8, 0u8]
}

impl WholeBuild {
    pub fn new() -> (r: WholeBuild)
        ensures
            r.stats.places == 0,
            r.stats.streets == 0,
            r.streets@ == Map::<Seq<char>, bool>::empty(),
    {
        WholeBuild { stats: BuildStats::default(), streets: StringHashMap::new() }
    }

    /// Counts a place.
    pub fn take_place(&mut self)
        requires
            old(self).stats.places < usize::MAX,
        ensures
            final(self).stats.places == old(self).stats.places + 1,
            final(self).stats.streets == old(self).stats.streets,
            final(self).streets == old(self).streets,
    {
        self.stats.places = self.stats.places + 1;
    }

    /// Takes a street, unless one with the same name and suburb was taken.
    pub fn take_street(&mut self, name_id: u32, suburb: Option<&str>) -> (r: bool)
        requires
            old(self).stats.streets < usize::MAX,
        ensures
            ({
                let key = street_key(name_id, opt_str_view(suburb), no_country());
                &&& r == !old(self).streets@.contains_key(key)
                &&& final(self).streets@ == (if r {
                    old(self).streets@.insert(key, true)
                } else {
                    old(self).streets@
                })
                &&& final(self).stats.streets == old(self).stats.streets + (if r {
                    1int
                } else {
                    0
                })
                &&& final(self).stats.places == old(self).stats.places
            }),
    {
        let none = [0u8, 0u8];
        assert(none@ =~= no_country());
        let key = make_street_key(name_id, suburb, &none);
        if self.streets.contains_key(key.as_str()) {
            return false;
        }
        self.streets.insert(key, true);
        self.stats.streets = self.stats.streets + 1;
        true
    }
}

// --- An index for each country ---
/// The indexes of the countries under construction.
pub struct PartitionedBuild {
    /// The countries met so far, in the order in which they came.
    pub codes: Vec<[u8; 2]>,
    pub stats: Vec<BuildStats>,
    /// The streets that were taken.
    pub streets: StringHashMap<bool>,
}

/// Whether a code is that of a country.
pub open spec fn is_country(cc: [u8; 2]) -> bool {
    cc[0] != 0 && cc[1] != 0
}

/// Where a document goes.
#[derive(Clone, Copy, Debug, PartialEq, Eq, Structural)]
pub struct Slot {
    pub at: usize,
    /// Whether the index has to be created first.
    pub fresh: bool,
}

impl PartitionedBuild {
    pub open spec fn wf(&self) -> bool {
        &&& self.stats@.len() == self.codes@.len()
        &&& forall|i: int, j: int|
            0 <= i < j < self.codes@.len() ==> (#[trigger] self.codes@[i])@ != (
            #[trigger] self.codes@[j])@
    }

    /// The counts of a country.
    pub open spec fn count(&self, cc: Seq<u8>) -> BuildStats {
        if exists|i: int| 0 <= i < self.codes@.len() && (#[trigger] self.codes@[i])@ == cc {
            let i = choose|i: int| 0 <= i < self.codes@.len() && (#[trigger] self.codes@[i])@ == cc;
            self.stats@[i]
        } else {
            BuildStats { places: 0, streets: 0 }
        }
    }

    pub fn new() -> (r: PartitionedBuild)
        ensures
            r.wf(),
            r.codes@.len() == 0,
            r.streets@ == Map::<Seq<char>, bool>::empty(),
    {
        PartitionedBuild { codes: Vec::new(), stats: Vec::new(), streets: StringHashMap::new() }
    }

    proof fn lemma_count(&self, i: int)
        requires
            self.wf(),
            0 <= i < self.codes@.len(),
        ensures
            self.count(self.codes@[i]@) == self.stats@[i],
    {
        let cc = self.codes@[i]@;
        assert(exists|k: int| 0 <= k < self.codes@.len() && (#[trigger] self.codes@[k])@ == cc);
        let k = choose|k: int| 0 <= k < self.codes@.len() && (#[trigger] self.codes@[k])@ == cc;
        if k < i {
            assert(self.codes@[k]@ != self.codes@[i]@);
        } else if i < k {
            assert(self.codes@[i]@ != self.codes@[k]@);
        }
    }

    /// The slot of a country. One that was not met yet gets the next.
    fn slot(&mut self, cc: [u8; 2]) -> (r: Slot)
        requires
            old(self).wf(),
        ensures
            final(self).wf(),
            final(self).streets == old(self).streets,
            r.at < final(self).codes@.len(),
            final(self).codes@[r.at as int]@ == cc@,
            r.fresh == !has_code_of(old(self).codes@, cc@),
            final(self).codes@ == (if r.fresh {
                old(self).codes@.push(final(self).codes@[r.at as int])
            } else {
                old(self).codes@
            }),
            forall|c: Seq<u8>| #[trigger] final(self).count(c) == old(self).count(c),
    {
        let n: usize = self.codes.len();
        for i in 0..n
            invariant
                *self == *old(self),
                n == self.codes@.len(),
                self.wf(),
                forall|j: int| 0 <= j < i ==> (#[trigger] self.codes@[j])@ != cc@,
        {
            if self.codes[i][0] == cc[0] && self.codes[i][1] == cc[1] {
                assert(self.codes@[i as int]@ =~= cc@);
                return Slot { at: i, fresh: false };
            }
            assert(self.codes@[i as int]@[0] != cc@[0] || self.codes@[i as int]@[1] != cc@[1]);
        }
        let ghost before = *self;
        self.codes.push(cc);
        self.stats.push(BuildStats { places: 0, streets: 0 });
        proof {
            assert forall|i: int, j: int| 0 <= i < j < self.codes@.len() implies (
            #[trigger] self.codes@[i])@ != (#[trigger] self.codes@[j])@ by {
                assert(self.codes@[i] == before.codes@[i]);
                if j < n {
                    assert(self.codes@[j] == before.codes@[j]);
                }
            }
            assert forall|c: Seq<u8>| #[trigger] self.count(c) == before.count(c) by {
                if exists|i: int| 0 <= i < before.codes@.len() && (#[trigger] before.codes@[i])@ == c {
                    let i = choose|i: int|
                        0 <= i < before.codes@.len() && (#[trigger] before.codes@[i])@ == c;
                    assert(self.codes@[i] == before.codes@[i]);
                    before.lemma_count(i);
                    self.lemma_count(i);
                } else if exists|i: int| 0 <= i < self.codes@.len() && (#[trigger] self.codes@[i])@ == c {
                    let i = choose|i: int|
                        0 <= i < self.codes@.len() && (#[trigger] self.codes@[i])@ == c;
                    if i < n {
                        assert(before.codes@[i] == self.codes@[i]);
                    }
                    self.lemma_count(i);
                }
            }
        }
        Slot { at: n, fresh: true }
    }

    fn bump(&mut self, at: usize, place: bool)
        requires
            old(self).wf(),
            at < old(self).codes@.len(),
            old(self).stats@[at as int].places < usize::MAX,
            old(self).stats@[at as int].streets < usize::MAX,
        ensures
            final(self).wf(),
            final(self).codes == old(self).codes,
            final(self).streets == old(self).streets,
            forall|c: Seq<u8>| #[trigger]
                final(self).count(c) == (if c == old(self).codes@[at as int]@ {
                    bumped(old(self).count(c), place)
                } else {
                    old(self).count(c)
                }),
    {
        let ghost before = *self;
        let mut s = self.stats[at];
        if place {
            s.places = s.places + 1;
        } else {
            s.streets = s.streets + 1;
        }
        self.stats.set(at, s);
        proof {
            before.lemma_count(at as int);
            self.lemma_count(at as int);
            assert forall|c: Seq<u8>| #[trigger] self.count(c) == (if c == before.codes@[at as int]@ {
                bumped(before.count(c), place)
            } else {
                before.count(c)
            }) by {
                if c != before.codes@[at as int]@ {
                    if exists|i: int| 0 <= i < before.codes@.len() && (#[trigger] before.codes@[i])@ == c {
                        let i = choose|i: int|
                            0 <= i < before.codes@.len() && (#[trigger] before.codes@[i])@ == c;
                        before.lemma_count(i);
                        self.lemma_count(i);
                    }
                }
            }
        }
    }

    /// Takes the document of a place into the index of its country. Documents
    /// without a country are dropped.
    pub fn take_place(&mut self, cc: Option<[u8; 2]>) -> (r: Option<Slot>)
        requires
            old(self).wf(),
            forall|i: int|
                0 <= i < old(self).stats@.len() ==> (#[trigger] old(self).stats@[i]).places
                    < usize::MAX && old(self).stats@[i].streets < usize::MAX,
        ensures
            final(self).wf(),
            match r {
                Some(slot) => {
                    &&& cc is Some && is_country(cc->0)
                    &&& slot.at < final(self).codes@.len()
                    &&& final(self).codes@[slot.at as int]@ == cc->0@
                    &&& slot.fresh == !has_code_of(old(self).codes@, cc->0@)
                    &&& forall|c: Seq<u8>| #[trigger]
                        final(self).count(c) == (if c == cc->0@ {
                            bumped(old(self).count(c), true)
                        } else {
                            old(self).count(c)
                        })
                },
                None => (cc is None || !is_country(cc->0)) && *final(self) == *old(self),
            },
            final(self).streets == old(self).streets,
    {
        match cc {
            Some(code) => {
                if code[0] == 0 || code[1] == 0 {
                    return None;
                }
                let ghost before = *self;
                let slot = self.slot(code);
                proof {
                    self.lemma_count(slot.at as int);
                    before.lemma_bound(code@);
                }
                self.bump(slot.at, true);
                Some(slot)
            },
            None => None,
        }
    }

    proof fn lemma_bound(&self, cc: Seq<u8>)
        requires
            self.wf(),
            forall|i: int|
                0 <= i < self.stats@.len() ==> (#[trigger] self.stats@[i]).places < usize::MAX
                    && self.stats@[i].streets < usize::MAX,
        ensures
            self.count(cc).places < usize::MAX,
            self.count(cc).streets < usize::MAX,
    {
        if exists|i: int| 0 <= i < self.codes@.len() && (#[trigger] self.codes@[i])@ == cc {
            let i = choose|i: int| 0 <= i < self.codes@.len() && (#[trigger] self.codes@[i])@ == cc;
            self.lemma_count(i);
        }
    }

    /// Takes the document of a street into the index of its country, unless it
    /// has none, or a street with the same name and suburb was taken there.
    pub fn take_street(&mut self, name_id: u32, suburb: Option<&str>, cc: Option<[u8; 2]>) -> (r:
        Option<Slot>)
        requires
            old(self).wf(),
            forall|i: int|
                0 <= i < old(self).stats@.len() ==> (#[trigger] old(self).stats@[i]).places
                    < usize::MAX && old(self).stats@[i].streets < usize::MAX,
        ensures
            final(self).wf(),
            match r {
                Some(slot) => {
                    let key = street_key(name_id, opt_str_view(suburb), cc->0@);
                    &&& cc is Some && is_country(cc->0)
                    &&& !old(self).streets@.contains_key(key)
                    &&& final(self).streets@ == old(self).streets@.insert(key, true)
                    &&& slot.at < final(self).codes@.len()
                    &&& final(self).codes@[slot.at as int]@ == cc->0@
                    &&& slot.fresh == !has_code_of(old(self).codes@, cc->0@)
                    &&& forall|c: Seq<u8>| #[trigger]
                        final(self).count(c) == (if c == cc->0@ {
                            bumped(old(self).count(c), false)
                        } else {
                            old(self).count(c)
                        })
                },
                None => {
                    &&& cc is None || !is_country(cc->0) || old(self).streets@.contains_key(
                        street_key(name_id, opt_str_view(suburb), cc->0@),
                    )
                    &&& final(self).codes == old(self).codes
                    &&& final(self).stats == old(self).stats
                    &&& final(self).streets@ == old(self).streets@
                },
            },
    {
        match cc {
            Some(code) => {
                if code[0] == 0 || code[1] == 0 {
                    return None;
                }
                let key = make_street_key(name_id, suburb, &code);
                if self.streets.contains_key(key.as_str()) {
                    return None;
                }
                let ghost before = *self;
                self.streets.insert(key, true);
                proof {
                    assert forall|c: Seq<u8>| #[trigger] self.count(c) == before.count(c) by {
                        if has_code_of(before.codes@, c) {
                            let i = choose|i: int|
                                0 <= i < before.codes@.len() && (#[trigger] before.codes@[i])@ == c;
                            before.lemma_count(i);
                            self.lemma_count(i);
                        }
                    }
                }
                let slot = self.slot(code);
                proof {
                    self.lemma_count(slot.at as int);
                    before.lemma_bound(code@);
                }
                self.bump(slot.at, false);
                Some(slot)
            },
            None => None,
        }
    }
}

/// Whether a list has a code.
pub open spec fn has_code_of(codes: Seq<[u8; 2]>, cc: Seq<u8>) -> bool {
    exists|i: int| 0 <= i < codes.len() && (#[trigger] codes[i])@ == cc
}

/// The counts with one document more.
pub open spec fn bumped(s: BuildStats, place: bool) -> BuildStats {
    if place {
        BuildStats { places: (s.places + 1) as usize, streets: s.streets }
    } else {
        BuildStats { places: s.places, streets: (s.streets + 1) as usize }
    }
}

/// The directory of the index of a country.
pub fn country_index_dir(root: &str, cc: &[u8; 2]) -> (r: String)
    ensures
        r@ == joined(root@, "tantivy_"@ + code_text(lower_code(*cc))),
{
    let low = normalise_code(cc);
    let mut name: Vec<char> = Vec::new();
    append_str(&mut name, "tantivy_");
    name.push(low[0] as char);
    name.push(low[1] as char);
    assert(name@ =~= "tantivy_"@ + code_text(lower_code(*cc)));
    join_path(root, string_of(&name).as_str())
}

// --- Laws ---
/// A place with a name gets a document: its name as it is shown, the city and
/// the state that it lies in, its country, its rank and where it is.
pub proof fn law_place_is_documented(
    index: Index<'_>,
    place: PlacePoint,
    admin: AdminResult<'_>,
    r: Option<ForwardDoc>,
)
    requires
        is_place_doc(index, place, admin, r),
    ensures
        r is Some <==> index.text(place.name_id).len() > 0,
        r matches Some(d) ==> {
            &&& d.name_raw@ == index.text(place.name_id)
            &&& d.name@ == indexed_name(d.name_raw@)
            &&& d.kind == 1
            &&& d.rank == place.rank
            &&& d.lat == place.lat
            &&& d.lng == place.lng
            &&& admin.city matches Some(c) ==> d.suburb@ == indexed_name(c@)
            &&& admin.city is None ==> d.suburb@.len() == 0
            &&& admin.state matches Some(s) ==> d.state@ == indexed_name(s@)
            &&& admin.state is None ==> d.state@.len() == 0
            &&& admin.country_code matches Some(c) ==> (valid_utf8(c@) ==> d.country_code@
                == decode_utf8(c@))
            &&& admin.country_code is None ==> d.country_code@.len() == 0
        },
{
}

/// A street with a name and nodes gets a document: its name as it is shown, the
/// city and the state that it lies in, its country, and its middle node for a
/// place.
pub proof fn law_street_is_documented(
    index: Index<'_>,
    way: WayHeader,
    admin: AdminResult<'_>,
    r: Option<ForwardDoc>,
)
    requires
        is_street_doc(index, way, admin, r),
    ensures
        r is Some <==> index.text(way.name_id).len() > 0 && way.node_count > 0 && 8 * (
        way.node_offset + way.node_count) <= index.street_nodes@.len(),
        r matches Some(d) ==> {
            let middle = node_coord_of(
                index.street_nodes@,
                way.node_offset + (way.node_count as int) / 2,
            );
            &&& d.name_raw@ == index.text(way.name_id)
            &&& d.name@ == indexed_name(d.name_raw@)
            &&& d.kind == 2
            &&& middle matches Some(m) && m.lat == d.lat && m.lng == d.lng
            &&& admin.city matches Some(c) ==> d.suburb@ == indexed_name(c@)
            &&& admin.city is None ==> d.suburb@.len() == 0
            &&& admin.state matches Some(s) ==> d.state@ == indexed_name(s@)
            &&& admin.state is None ==> d.state@.len() == 0
            &&& admin.country_code matches Some(c) ==> (valid_utf8(c@) ==> d.country_code@
                == decode_utf8(c@))
            &&& admin.country_code is None ==> d.country_code@.len() == 0
        },
{
}

/// A document more of a kind is counted with that kind, and only there.
pub proof fn law_documents_are_counted_by_kind(s: BuildStats)
    requires
        s.places < usize::MAX,
        s.streets < usize::MAX,
    ensures
        bumped(s, true).places == s.places + 1,
        bumped(s, true).streets == s.streets,
        bumped(s, false).streets == s.streets + 1,
        bumped(s, false).places == s.places,
{
}

} // verus!
