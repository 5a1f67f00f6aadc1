//! Which places, streets and points of interest go into the autocomplete
//! indexes.
use vstd::prelude::*;
use crate::admin::AdminResult;
use crate::autocomplete::{KIND_PLACE, KIND_POI, KIND_STREET};
use crate::country_list::CountryFilter;
use crate::h3_cell::{debug_string, debug_text};
use crate::i18n::{ENTITY_PLACE, ENTITY_POI};
use crate::index::Index;
use crate::name_index::NameCandidate;
use crate::records::{
    node_coord_of, read_node_coord, NodeCoord, PlacePoint, PoiPoint, WayHeader,
};
use crate::text::{append_str, opt_str_view, str_eq, string_of};

verus! {

broadcast use vstd::seq::group_seq_axioms;

/// The rank of a street.
pub const STREET_RANK: u8 = 26;

/// The highest rank at which a point of interest is indexed.
pub const MAX_POI_RANK: u8 = 10;

// --- What to build ---
/// Which indexes to write.
#[derive(Clone, Copy, Debug, PartialEq, Eq, Structural)]
pub enum Layout {
    PerCountry,
    Unified,
    Both,
}

/// What a `--layout` argument stands for.
pub open spec fn layout_named(arg: Option<Seq<char>>) -> Result<Layout, Seq<char>> {
    match arg {
        None => Ok(Layout::Both),
        Some(s) => if s == "both"@ {
            Ok(Layout::Both)
        } else if s == "per-country"@ {
            Ok(Layout::PerCountry)
        } else if s == "unified"@ {
            Ok(Layout::Unified)
        } else {
            Err(
                "unknown --layout value "@ + debug_text(s)
                    + "; expected per-country|unified|both"@,
            )
        },
    }
}

impl Layout {
    /// Reads a `--layout` argument.
    pub fn parse(arg: Option<&str>) -> (r: Result<Layout, String>)
        ensures
            match r {
                Ok(l) => layout_named(opt_str_view(arg)) == Ok::<Layout, Seq<char>>(l),
                Err(e) => layout_named(opt_str_view(arg)) == Err::<Layout, Seq<char>>(e@),
            },
    {
        match arg {
            None => Ok(Layout::Both),
            Some(s) => {
                if str_eq(s, "both") {
                    Ok(Layout::Both)
                } else if str_eq(s, "per-country") {
                    Ok(Layout::PerCountry)
                } else if str_eq(s, "unified") {
                    Ok(Layout::Unified)
                } else {
                    let mut m: Vec<char> = Vec::new();
                    append_str(&mut m, "unknown --layout value ");
                    append_str(&mut m, debug_string(s).as_str());
                    append_str(&mut m, "; expected per-country|unified|both");
                    assert(m@ =~= "unknown --layout value "@ + debug_text(s@)
                        + "; expected per-country|unified|both"@);
                    Err(string_of(&m))
                }
            },
        }
    }

    /// The name of the layout.
    pub fn name(&self) -> (r: &'static str)
        ensures
            r@ == (match *self {
                Layout::PerCountry => "per-country"@,
                Layout::Unified => "unified"@,
                Layout::Both => "both"@,
            }),
    {
        match self {
            Layout::PerCountry => "per-country",
            Layout::Unified => "unified",
            Layout::Both => "both",
        }
    }

    pub fn per_country(&self) -> (r: bool)
        ensures
            r == (*self != Layout::Unified),
    {
        match self {
            Layout::Unified => false,
            _ => true,
        }
    }

    pub fn unified(&self) -> (r: bool)
        ensures
            r == (*self != Layout::PerCountry),
    {
        match self {
            Layout::PerCountry => false,
            _ => true,
        }
    }
}

/// Reading the name of a layout gives back the layout.
pub proof fn law_layout_name_reads_back(l: Layout)
    ensures
        layout_named(
            Some(
                match l {
                    Layout::PerCountry => "per-country"@,
                    Layout::Unified => "unified"@,
                    Layout::Both => "both"@,
                },
            ),
        ) == Ok::<Layout, Seq<char>>(l),
{
    reveal_strlit("both");
    reveal_strlit("per-country");
    reveal_strlit("unified");
    assert("both"@.len() == 4);
    assert("per-country"@.len() == 11);
    assert("unified"@.len() == 7);
}

// --- Candidates ---
/// A candidate and the country whose index it goes into.
pub struct Classified<'a> {
    /// In lower case.
    pub cc: [u8; 2],
    pub cand: NameCandidate<'a>,
    /// Where the name stands in the string pool.
    pub name_id: u32,
}

/// The names at some offsets that are neither empty nor `name`.
pub open spec fn alias_texts(
    index: Index<'_>,
    alternates: Seq<(u8, u16, u32)>,
    name: Seq<char>,
) -> Seq<Seq<char>>
    decreases alternates.len(),
{
    if alternates.len() == 0 {
        Seq::empty()
    } else {
        let done = alias_texts(index, alternates.drop_last(), name);
        let alt = index.text(alternates.last().2);
        if alt.len() > 0 && alt != name {
            done.push(alt)
        } else {
            done
        }
    }
}

/// Whether `aliases` are the other names of an entity.
pub open spec fn are_aliases(
    index: Index<'_>,
    entity_type: u8,
    entity_id: u32,
    name: Seq<char>,
    aliases: Seq<Seq<char>>,
) -> bool {
    match index.i18n_names {
        Some(names) => exists|from: int, to: int| #[trigger]
            names.is_run(from, to, entity_type, entity_id) && aliases == alias_texts(
                index,
                names.names(from, to),
                name,
            ),
        None => aliases.len() == 0,
    }
}

pub open spec fn str_views(v: Seq<&str>) -> Seq<Seq<char>> {
    Seq::new(v.len(), |i: int| v[i]@)
}

fn aliases_of<'a>(index: &Index<'a>, entity_type: u8, entity_id: u32, name: &str) -> (r: Vec<
    &'a str,
>)
    ensures
        are_aliases(*index, entity_type, entity_id, name@, str_views(r@)),
{
    let mut out: Vec<&'a str> = Vec::new();
    match &index.i18n_names {
        Some(names) => {
            let alternates = names.alternates_for(entity_type, entity_id);
            for i in 0..alternates.len()
                invariant
                    str_views(out@) == alias_texts(*index, alternates@.take(i as int), name@),
            {
                assert(alternates@.take(i + 1).drop_last() =~= alternates@.take(i as int));
                let ghost before = str_views(out@);
                let alt = index.get_string(alternates[i].2);
                if !alt.is_empty() && !str_eq(alt, name) {
                    out.push(alt);
                    assert(str_views(out@) =~= before.push(alt@));
                }
            }
            assert(alternates@.take(alternates@.len() as int) =~= alternates@);
        },
        None => {},
    }
    out
}

/// Whether `r` is what becomes of a place.
pub open spec fn is_place_candidate(
    r: Option<Classified<'_>>,
    index: Index<'_>,
    place_id: u32,
    place: PlacePoint,
    admin: AdminResult<'_>,
    filter: CountryFilter,
) -> bool {
    let name = index.text(place.name_id);
    match r {
        None => name.len() == 0 || filter.owner(admin.country_code) is None,
        Some(c) => {
            &&& name.len() > 0
            &&& filter.owner(admin.country_code) == Some(c.cc@)
            &&& c.name_id == place.name_id
            &&& c.cand@.name == name
            &&& are_aliases(index, ENTITY_PLACE, place_id, name, c.cand@.aliases)
            &&& c.cand@.spellings.len() == 0
            &&& c.cand@.kind == KIND_PLACE
            &&& c.cand@.rank == place.rank
            &&& c.cand@.lat == place.lat
            &&& c.cand@.lng == place.lng
            &&& c.cand@.suburb == opt_str_view(admin.city)
        },
    }
}

/// Classifies a place: it has a name, and lies in a country that is to be
/// built.
pub fn place_candidate<'a>(
    index: &Index<'a>,
    place_id: u32,
    place: &PlacePoint,
    admin: &AdminResult<'a>,
    filter: &CountryFilter,
) -> (r: Option<Classified<'a>>)
    ensures
        is_place_candidate(r, *index, place_id, *place, *admin, *filter),
{
    let name = index.get_string(place.name_id);
    if name.is_empty() {
        return None;
    }
    match filter.owning_country(admin.country_code) {
        None => None,
        Some(cc) => {
            let aliases = aliases_of(index, ENTITY_PLACE, place_id, name);
            let ghost texts = str_views(aliases@);
            let cand = NameCandidate {
                name,
                aliases,
                spellings: Vec::new(),
                kind: KIND_PLACE,
                rank: place.rank,
                lat: place.lat,
                lng: place.lng,
                suburb: admin.city,
            };
            assert(cand@.aliases =~= texts);
            Some(Classified { cc, cand, name_id: place.name_id })
        },
    }
}

/// The node that stands for a street: the one in the middle. None where the
/// nodes are not all there.
pub open spec fn midpoint(index: Index<'_>, way: WayHeader) -> Option<NodeCoord> {
    if way.node_count == 0 || way.node_offset + way.node_count > index.street_nodes@.len() / 8 {
        None
    } else {
        node_coord_of(index.street_nodes@, way.node_offset + way.node_count / 2)
    }
}

/// The node that stands for a street.
pub fn street_midpoint(index: &Index<'_>, way: &WayHeader) -> (r: Option<NodeCoord>)
    ensures
        r == midpoint(*index, *way),
{
    let nodes: u64 = (index.street_nodes.len() / 8) as u64;
    let off: u64 = way.node_offset as u64;
    let count: u64 = way.node_count as u64;
    if count == 0 || off + count > nodes {
        None
    } else {
        let at: u64 = off + count / 2;
        assert(at < index.street_nodes.len() / 8);
        read_node_coord(index.street_nodes, at as usize)
    }
}

/// Whether `r` is what becomes of a street.
pub open spec fn is_street_candidate(
    r: Option<Classified<'_>>,
    index: Index<'_>,
    way: WayHeader,
    admin: AdminResult<'_>,
    filter: CountryFilter,
) -> bool {
    let name = index.text(way.name_id);
    match r {
        None => name.len() == 0 || midpoint(index, way) is None || filter.owner(
            admin.country_code,
        ) is None,
        Some(c) => {
            &&& name.len() > 0
            &&& midpoint(index, way) == Some(NodeCoord { lat: c.cand@.lat, lng: c.cand@.lng })
            &&& filter.owner(admin.country_code) == Some(c.cc@)
            &&& c.name_id == way.name_id
            &&& c.cand@.name == name
            &&& c.cand@.aliases.len() == 0
            &&& c.cand@.spellings.len() == 0
            &&& c.cand@.kind == KIND_STREET
            &&& c.cand@.rank == STREET_RANK
            &&& c.cand@.suburb == opt_str_view(admin.city)
        },
    }
}

/// Classifies a street. `admin` is what its midpoint lies in.
pub fn street_candidate<'a>(
    index: &Index<'a>,
    way: &WayHeader,
    admin: &AdminResult<'a>,
    filter: &CountryFilter,
) -> (r: Option<Classified<'a>>)
    ensures
        is_street_candidate(r, *index, *way, *admin, *filter),
{
    let name = index.get_string(way.name_id);
    if name.is_empty() {
        return None;
    }
    match (street_midpoint(index, way), filter.owning_country(admin.country_code)) {
        (Some(mid), Some(cc)) => {
            let cand = NameCandidate {
                name,
                aliases: Vec::new(),
                spellings: Vec::new(),
                kind: KIND_STREET,
                rank: STREET_RANK,
                lat: mid.lat,
                lng: mid.lng,
                suburb: admin.city,
            };
            Some(Classified { cc, cand, name_id: way.name_id })
        },
        _ => None,
    }
}

/// Whether `r` is what becomes of a point of interest.
pub open spec fn is_poi_candidate(
    r: Option<Classified<'_>>,
    index: Index<'_>,
    poi_id: u32,
    poi: PoiPoint,
    admin: AdminResult<'_>,
    filter: CountryFilter,
) -> bool {
    let name = index.text(poi.name_id);
    match r {
        None => poi.rank > MAX_POI_RANK || name.len() == 0 || filter.owner(
            admin.country_code,
        ) is None,
        Some(c) => {
            &&& poi.rank <= MAX_POI_RANK
            &&& name.len() > 0
            &&& filter.owner(admin.country_code) == Some(c.cc@)
            &&& c.name_id == poi.name_id
            &&& c.cand@.name == name
            &&& are_aliases(index, ENTITY_POI, poi_id, name, c.cand@.aliases)
            &&& c.cand@.spellings.len() == 0
            &&& c.cand@.kind == KIND_POI
            &&& c.cand@.rank == poi.rank
            &&& c.cand@.lat == poi.lat
            &&& c.cand@.lng == poi.lng
            &&& c.cand@.suburb == (if poi.parent_place_id != 0 {
                Some(index.text(poi.parent_place_id))
            } else {
                opt_str_view(admin.city)
            })
        },
    }
}

/// Classifies a point of interest. Only the most prominent ones are indexed.
pub fn poi_candidate<'a>(
    index: &Index<'a>,
    poi_id: u32,
    poi: &PoiPoint,
    admin: &AdminResult<'a>,
    filter: &CountryFilter,
) -> (r: Option<Classified<'a>>)
    ensures
        is_poi_candidate(r, *index, poi_id, *poi, *admin, *filter),
{
    if poi.rank > MAX_POI_RANK {
        return None;
    }
    let name = index.get_string(poi.name_id);
    if name.is_empty() {
        return None;
    }
    match filter.owning_country(admin.country_code) {
        None => None,
        Some(cc) => {
            let aliases = aliases_of(index, ENTITY_POI, poi_id, name);
            let ghost texts = str_views(aliases@);
            let suburb = if poi.parent_place_id != 0 {
                Some(index.get_string(poi.parent_place_id))
            } else {
                admin.city
            };
            let cand = NameCandidate {
                name,
                aliases,
                spellings: Vec::new(),
                kind: KIND_POI,
                rank: poi.rank,
                lat: poi.lat,
                lng: poi.lng,
                suburb,
            };
            assert(cand@.aliases =~= texts);
            Some(Classified { cc, cand, name_id: poi.name_id })
        },
    }
}

} // verus!
