//! The regions that map extracts are published for.
//!
//! There are nine continents, some countries, the planet as a whole, and all
//! continents together.
use vstd::prelude::*;
use crate::text::{
    append_str, chars_of, opt_str_view, opt_view, str_eq, string_of, string_views, strip_suffix, strip_suffix_seq,
};

verus! {

broadcast use vstd::seq::group_seq_axioms;

// --- URLs ---
/// The host of a URL.
pub uninterp spec fn url_host(url: Seq<char>) -> Option<Seq<char>>;

/// A URL in its normal form.
pub uninterp spec fn url_form(url: Seq<char>) -> Option<Seq<char>>;

/// The last segment of the path of a URL.
pub uninterp spec fn url_basename(url: Seq<char>) -> Option<Seq<char>>;

/// `url::Url::parse` and `Url::host_str`; nothing where the text is no URL or
/// the URL has no host.
#[verifier::external_body]
fn host_of(url: &str) -> (r: Option<String>)
    ensures
        opt_view(r) == url_host(url@),
{
    let parsed = url::Url::parse(url).ok()?;
    parsed.host_str().map(|h| h.to_owned())
}

/// `url::Url::parse`, and the URL as text (`Url::as_str`); nothing where the
/// text is no URL.
#[verifier::external_body]
pub(crate) fn normal_url(url: &str) -> (r: Option<String>)
    ensures
        opt_view(r) == url_form(url@),
{
    url::Url::parse(url).ok().map(|u| u.as_str().to_owned())
}

/// `url::Url::parse`, and the last of `Url::path_segments`; nothing where the
/// text is no URL or the URL has no segments.
#[verifier::external_body]
pub(crate) fn basename_of(url: &str) -> (r: Option<String>)
    ensures
        opt_view(r) == url_basename(url@),
{
    let parsed = url::Url::parse(url).ok()?;
    parsed.path_segments()?.last().map(|s| s.to_owned())
}

// --- Regions ---
/// A region.
#[derive(Clone, Copy, Debug, PartialEq, Eq, Structural)]
pub enum Region {
    Africa,
    Antarctica,
    Asia,
    AustraliaOceania,
    CentralAmerica,
    Europe,
    NorthAmerica,
    Russia,
    SouthAmerica,
    Australia,
    NewZealand,
    Niue,
    UnitedKingdom,
    Canada,
    Usa,
    Planet,
    AllContinents,
}

pub const PLANET: &'static str = "https://planet.openstreetmap.org/pbf/planet-latest.osm.pbf";

/// The continents, in alphabetical order.
pub open spec fn continents() -> Seq<Region> {
    seq![
        Region::Africa,
        Region::Antarctica,
        Region::Asia,
        Region::AustraliaOceania,
        Region::CentralAmerica,
        Region::Europe,
        Region::NorthAmerica,
        Region::Russia,
        Region::SouthAmerica,
    ]
}

/// The URL of the extract of a region; that of the planet for the planet, and
/// nothing where a region has several.
pub open spec fn extract_url(r: Region) -> Seq<char> {
    match r {
        Region::Africa => "https://download.geofabrik.de/africa-latest.osm.pbf"@,
        Region::Antarctica => "https://download.geofabrik.de/antarctica-latest.osm.pbf"@,
        Region::Asia => "https://download.geofabrik.de/asia-latest.osm.pbf"@,
        Region::AustraliaOceania =>
            "https://download.geofabrik.de/australia-oceania-latest.osm.pbf"@,
        Region::CentralAmerica => "https://download.geofabrik.de/central-america-latest.osm.pbf"@,
        Region::Europe => "https://download.geofabrik.de/europe-latest.osm.pbf"@,
        Region::NorthAmerica => "https://download.geofabrik.de/north-america-latest.osm.pbf"@,
        Region::Russia => "https://download.geofabrik.de/russia-latest.osm.pbf"@,
        Region::SouthAmerica => "https://download.geofabrik.de/south-america-latest.osm.pbf"@,
        Region::Australia =>
            "https://download.geofabrik.de/australia-oceania/australia-latest.osm.pbf"@,
        Region::NewZealand =>
            "https://download.geofabrik.de/australia-oceania/new-zealand-latest.osm.pbf"@,
        Region::Niue => "https://download.geofabrik.de/australia-oceania/niue-latest.osm.pbf"@,
        Region::UnitedKingdom =>
            "https://download.geofabrik.de/europe/united-kingdom-latest.osm.pbf"@,
        Region::Canada => "https://download.geofabrik.de/north-america/canada-latest.osm.pbf"@,
        Region::Usa => "https://download.geofabrik.de/north-america/us-latest.osm.pbf"@,
        Region::Planet => PLANET@,
        Region::AllContinents => Seq::empty(),
    }
}

/// The URLs of a region.
pub open spec fn extract_urls(r: Region) -> Seq<Seq<char>> {
    if r == Region::AllContinents {
        continents().map_values(|c: Region| extract_url(c))
    } else {
        seq![extract_url(r)]
    }
}

/// The region that a name stands for. Several names stand for a country.
pub open spec fn region_named(s: Seq<char>) -> Option<Region> {
    if s == "africa"@ {
        Some(Region::Africa)
    } else if s == "antarctica"@ {
        Some(Region::Antarctica)
    } else if s == "asia"@ {
        Some(Region::Asia)
    } else if s == "oceania"@ || s == "australia-oceania"@ {
        Some(Region::AustraliaOceania)
    } else if s == "central-america"@ {
        Some(Region::CentralAmerica)
    } else if s == "europe"@ {
        Some(Region::Europe)
    } else if s == "north-america"@ {
        Some(Region::NorthAmerica)
    } else if s == "russia"@ {
        Some(Region::Russia)
    } else if s == "south-america"@ {
        Some(Region::SouthAmerica)
    } else if s == "au"@ || s == "australia"@ {
        Some(Region::Australia)
    } else if s == "nz"@ || s == "new-zealand"@ {
        Some(Region::NewZealand)
    } else if s == "niue"@ {
        Some(Region::Niue)
    } else if s == "uk"@ || s == "gb"@ || s == "united-kingdom"@ {
        Some(Region::UnitedKingdom)
    } else if s == "ca"@ || s == "canada"@ {
        Some(Region::Canada)
    } else if s == "usa"@ || s == "us"@ {
        Some(Region::Usa)
    } else if s == "planet"@ {
        Some(Region::Planet)
    } else if s == "all-continents"@ {
        Some(Region::AllContinents)
    } else {
        None
    }
}

/// What is said of a name that stands for no region.
pub open spec fn unknown_region(s: Seq<char>) -> Seq<char> {
    "unknown region '"@ + s
        + "' (expected one of: africa, antarctica, asia, oceania, australia-oceania, central-america, europe, north-america, russia, south-america, au, nz, uk, ca, usa, planet, all-continents)"@
}

/// The URL of the checksum of an extract, before it is brought into normal
/// form.
pub open spec fn md5_text(host: Option<Seq<char>>, url: Seq<char>) -> Option<Seq<char>> {
    if host == Some("download.geofabrik.de"@) {
        Some(url + ".md5"@)
    } else {
        None
    }
}

/// The URL of the replication state of an extract, before it is brought into
/// normal form.
pub open spec fn state_text(url: Seq<char>) -> Option<Seq<char>> {
    if url == PLANET@ {
        Some("https://planet.openstreetmap.org/replication/day/state.txt"@)
    } else {
        match strip_suffix_seq(url, "-latest.osm.pbf"@) {
            Some(stem) => Some(stem + "-updates/state.txt"@),
            None => None,
        }
    }
}

/// A URL in its normal form, where there is one.
pub open spec fn form_of(url: Option<Seq<char>>) -> Option<Seq<char>> {
    match url {
        Some(u) => url_form(u),
        None => None,
    }
}

impl Region {
    /// The continents.
    pub fn all_continents() -> (r: [Region; 9])
        ensures
            r@ == continents(),
    {
        let r = [
            Region::Africa,
            Region::Antarctica,
            Region::Asia,
            Region::AustraliaOceania,
            Region::CentralAmerica,
            Region::Europe,
            Region::NorthAmerica,
            Region::Russia,
            Region::SouthAmerica,
        ];
        assert(r@ =~= continents());
        r
    }

    fn url(self) -> (r: &'static str)
        ensures
            r@ == extract_url(self),
    {
        match self {
            Region::Africa => "https://download.geofabrik.de/africa-latest.osm.pbf",
            Region::Antarctica => "https://download.geofabrik.de/antarctica-latest.osm.pbf",
            Region::Asia => "https://download.geofabrik.de/asia-latest.osm.pbf",
            Region::AustraliaOceania =>
                "https://download.geofabrik.de/australia-oceania-latest.osm.pbf",
            Region::CentralAmerica =>
                "https://download.geofabrik.de/central-america-latest.osm.pbf",
            Region::Europe => "https://download.geofabrik.de/europe-latest.osm.pbf",
            Region::NorthAmerica => "https://download.geofabrik.de/north-america-latest.osm.pbf",
            Region::Russia => "https://download.geofabrik.de/russia-latest.osm.pbf",
            Region::SouthAmerica => "https://download.geofabrik.de/south-america-latest.osm.pbf",
            Region::Australia =>
                "https://download.geofabrik.de/australia-oceania/australia-latest.osm.pbf",
            Region::NewZealand =>
                "https://download.geofabrik.de/australia-oceania/new-zealand-latest.osm.pbf",
            Region::Niue =>
                "https://download.geofabrik.de/australia-oceania/niue-latest.osm.pbf",
            Region::UnitedKingdom =>
                "https://download.geofabrik.de/europe/united-kingdom-latest.osm.pbf",
            Region::Canada =>
                "https://download.geofabrik.de/north-america/canada-latest.osm.pbf",
            Region::Usa => "https://download.geofabrik.de/north-america/us-latest.osm.pbf",
            Region::Planet => PLANET,
            Region::AllContinents => {
                proof {
                    reveal_strlit("");
                    assert(""@ =~= Seq::<char>::empty());
                }
                ""
            },
        }
    }

    /// The URLs to fetch for a region: one for each continent where all
    /// continents are asked for, and else one.
    pub fn urls(self) -> (r: Vec<String>)
        ensures
            string_views(r@) == extract_urls(self),
    {
        let mut out: Vec<String> = Vec::new();
        if self.is_all_continents() {
            let all = Region::all_continents();
            let ghost want = extract_urls(self);
            for i in 0..9usize
                invariant
                    all@ == continents(),
                    want == continents().map_values(|c: Region| extract_url(c)),
                    string_views(out@) == want.take(i as int),
            {
                let ghost before = string_views(out@);
                out.push(all[i].url().to_owned());
                assert(all@[i as int] == continents()[i as int]);
                assert(string_views(out@) =~= before.push(want[i as int]));
                assert(want.take(i + 1) =~= want.take(i as int).push(want[i as int]));
            }
            assert(want.take(9) =~= want);
        } else {
            out.push(self.url().to_owned());
            assert(string_views(out@) =~= extract_urls(self));
        }
        out
    }

    /// The URL of the checksum of an extract, as its host decides: only one
    /// publishes checksums.
    pub fn md5_for(host: Option<&str>, url: &str) -> (r: Option<String>)
        ensures
            opt_view(r) == md5_text(opt_str_view(host), url@),
    {
        match host {
            Some(h) if str_eq(h, "download.geofabrik.de") => {
                let mut text = chars_of(url);
                append_str(&mut text, ".md5");
                Some(string_of(&text))
            },
            _ => None,
        }
    }

    /// The URL of the checksum of an extract.
    pub fn md5_url(url: &str) -> (r: Option<String>)
        ensures
            opt_view(r) == form_of(md5_text(url_host(url@), url@)),
    {
        let host = host_of(url);
        let text = match &host {
            Some(h) => Region::md5_for(Some(h.as_str()), url),
            None => Region::md5_for(None, url),
        };
        match text {
            Some(t) => normal_url(t.as_str()),
            None => None,
        }
    }

    /// The text of the URL of the replication state of an extract.
    pub fn state_url_text(url: &str) -> (r: Option<String>)
        ensures
            opt_view(r) == state_text(url@),
    {
        if str_eq(url, PLANET) {
            return Some("https://planet.openstreetmap.org/replication/day/state.txt".to_owned());
        }
        match strip_suffix(&chars_of(url), &chars_of("-latest.osm.pbf")) {
            Some(stem) => {
                let mut text = stem;
                append_str(&mut text, "-updates/state.txt");
                Some(string_of(&text))
            },
            None => None,
        }
    }

    /// The URL of the replication state of an extract.
    pub fn state_url(url: &str) -> (r: Option<String>)
        ensures
            opt_view(r) == form_of(state_text(url@)),
    {
        match Region::state_url_text(url) {
            Some(t) => normal_url(t.as_str()),
            None => None,
        }
    }

    /// Whether the region is fetched as the planet.
    pub fn is_planet(self) -> (r: bool)
        ensures
            r == (self == Region::Planet),
    {
        matches!(self, Region::Planet)
    }

    /// Whether the region is fetched as several files.
    pub fn is_all_continents(self) -> (r: bool)
        ensures
            r == (self == Region::AllContinents),
    {
        matches!(self, Region::AllContinents)
    }

    /// Reads the name of a region.
    pub fn from_str(s: &str) -> (r: Result<Region, String>)
        ensures
            match r {
                Ok(region) => region_named(s@) == Some(region),
                Err(e) => region_named(s@) is None && e@ == unknown_region(s@),
            },
    {
        if str_eq(s, "africa") {
            Ok(Region::Africa)
        } else if str_eq(s, "antarctica") {
            Ok(Region::Antarctica)
        } else if str_eq(s, "asia") {
            Ok(Region::Asia)
        } else if str_eq(s, "oceania") || str_eq(s, "australia-oceania") {
            Ok(Region::AustraliaOceania)
        } else if str_eq(s, "central-america") {
            Ok(Region::CentralAmerica)
        } else if str_eq(s, "europe") {
            Ok(Region::Europe)
        } else if str_eq(s, "north-america") {
            Ok(Region::NorthAmerica)
        } else if str_eq(s, "russia") {
            Ok(Region::Russia)
        } else if str_eq(s, "south-america") {
            Ok(Region::SouthAmerica)
        } else if str_eq(s, "au") || str_eq(s, "australia") {
            Ok(Region::Australia)
        } else if str_eq(s, "nz") || str_eq(s, "new-zealand") {
            Ok(Region::NewZealand)
        } else if str_eq(s, "niue") {
            Ok(Region::Niue)
        } else if str_eq(s, "uk") || str_eq(s, "gb") || str_eq(s, "united-kingdom") {
            Ok(Region::UnitedKingdom)
        } else if str_eq(s, "ca") || str_eq(s, "canada") {
            Ok(Region::Canada)
        } else if str_eq(s, "usa") || str_eq(s, "us") {
            Ok(Region::Usa)
        } else if str_eq(s, "planet") {
            Ok(Region::Planet)
        } else if str_eq(s, "all-continents") {
            Ok(Region::AllContinents)
        } else {
            let mut m: Vec<char> = Vec::new();
            append_str(&mut m, "unknown region '");
            append_str(&mut m, s);
            append_str(
                &mut m,
                "' (expected one of: africa, antarctica, asia, oceania, australia-oceania, central-america, europe, north-america, russia, south-america, au, nz, uk, ca, usa, planet, all-continents)",
            );
            assert(m@ =~= unknown_region(s@));
            Err(string_of(&m))
        }
    }
}

// --- Laws ---
/// A name stands for the region whose extract is called after it. The words
/// `oceania`, `au`, `nz`, `uk`, `gb`, `ca` and `usa` stand for the same regions as
/// longer names do.
#[verifier::rlimit(60)]
pub proof fn law_extract_is_called_after_its_region(s: Seq<char>)
    ensures
        region_named(s) matches Some(r) ==> {
            ||| s == "planet"@ || s == "all-continents"@ || s == "oceania"@ || s == "au"@ || s
                == "nz"@ || s == "uk"@ || s == "gb"@ || s == "ca"@ || s == "usa"@
            ||| extract_url(r).len() > s.len() + 16 && extract_url(r).skip(
                extract_url(r).len() - s.len() - 16,
            ) == seq!['/'] + s + "-latest.osm.pbf"@
        },
{
    reveal_strlit("-latest.osm.pbf");
    if s == "africa"@ {
        reveal_strlit("africa");
        reveal_strlit("https://download.geofabrik.de/africa-latest.osm.pbf");
        let u = "https://download.geofabrik.de/africa-latest.osm.pbf"@;
        assert(u.skip(u.len() - 22) =~= seq!['/'] + s + "-latest.osm.pbf"@);
    }
    if s == "antarctica"@ {
        reveal_strlit("antarctica");
        reveal_strlit("https://download.geofabrik.de/antarctica-latest.osm.pbf");
        let u = "https://download.geofabrik.de/antarctica-latest.osm.pbf"@;
        assert(u.skip(u.len() - 26) =~= seq!['/'] + s + "-latest.osm.pbf"@);
    }
    if s == "asia"@ {
        reveal_strlit("asia");
        reveal_strlit("https://download.geofabrik.de/asia-latest.osm.pbf");
        let u = "https://download.geofabrik.de/asia-latest.osm.pbf"@;
        assert(u.skip(u.len() - 20) =~= seq!['/'] + s + "-latest.osm.pbf"@);
    }
    if s == "australia-oceania"@ {
        reveal_strlit("australia-oceania");
        reveal_strlit("https://download.geofabrik.de/australia-oceania-latest.osm.pbf");
        let u = "https://download.geofabrik.de/australia-oceania-latest.osm.pbf"@;
        assert(u.skip(u.len() - 33) =~= seq!['/'] + s + "-latest.osm.pbf"@);
    }
    if s == "central-america"@ {
        reveal_strlit("central-america");
        reveal_strlit("https://download.geofabrik.de/central-america-latest.osm.pbf");
        let u = "https://download.geofabrik.de/central-america-latest.osm.pbf"@;
        assert(u.skip(u.len() - 31) =~= seq!['/'] + s + "-latest.osm.pbf"@);
    }
    if s == "europe"@ {
        reveal_strlit("europe");
        reveal_strlit("https://download.geofabrik.de/europe-latest.osm.pbf");
        let u = "https://download.geofabrik.de/europe-latest.osm.pbf"@;
        assert(u.skip(u.len() - 22) =~= seq!['/'] + s + "-latest.osm.pbf"@);
    }
    if s == "north-america"@ {
        reveal_strlit("north-america");
        reveal_strlit("https://download.geofabrik.de/north-america-latest.osm.pbf");
        let u = "https://download.geofabrik.de/north-america-latest.osm.pbf"@;
        assert(u.skip(u.len() - 29) =~= seq!['/'] + s + "-latest.osm.pbf"@);
    }
    if s == "russia"@ {
        reveal_strlit("russia");
        reveal_strlit("https://download.geofabrik.de/russia-latest.osm.pbf");
        let u = "https://download.geofabrik.de/russia-latest.osm.pbf"@;
        assert(u.skip(u.len() - 22) =~= seq!['/'] + s + "-latest.osm.pbf"@);
    }
    if s == "south-america"@ {
        reveal_strlit("south-america");
        reveal_strlit("https://download.geofabrik.de/south-america-latest.osm.pbf");
        let u = "https://download.geofabrik.de/south-america-latest.osm.pbf"@;
        assert(u.skip(u.len() - 29) =~= seq!['/'] + s + "-latest.osm.pbf"@);
    }
    if s == "australia"@ {
        reveal_strlit("australia");
        reveal_strlit("https://download.geofabrik.de/australia-oceania/australia-latest.osm.pbf");
        let u = "https://download.geofabrik.de/australia-oceania/australia-latest.osm.pbf"@;
        assert(u.skip(u.len() - 25) =~= seq!['/'] + s + "-latest.osm.pbf"@);
    }
    if s == "new-zealand"@ {
        reveal_strlit("new-zealand");
        reveal_strlit("https://download.geofabrik.de/australia-oceania/new-zealand-latest.osm.pbf");
        let u = "https://download.geofabrik.de/australia-oceania/new-zealand-latest.osm.pbf"@;
        assert(u.skip(u.len() - 27) =~= seq!['/'] + s + "-latest.osm.pbf"@);
    }
    if s == "niue"@ {
        reveal_strlit("niue");
        reveal_strlit("https://download.geofabrik.de/australia-oceania/niue-latest.osm.pbf");
        let u = "https://download.geofabrik.de/australia-oceania/niue-latest.osm.pbf"@;
        assert(u.skip(u.len() - 20) =~= seq!['/'] + s + "-latest.osm.pbf"@);
    }
    if s == "united-kingdom"@ {
        reveal_strlit("united-kingdom");
        reveal_strlit("https://download.geofabrik.de/europe/united-kingdom-latest.osm.pbf");
        let u = "https://download.geofabrik.de/europe/united-kingdom-latest.osm.pbf"@;
        assert(u.skip(u.len() - 30) =~= seq!['/'] + s + "-latest.osm.pbf"@);
    }
    if s == "canada"@ {
        reveal_strlit("canada");
        reveal_strlit("https://download.geofabrik.de/north-america/canada-latest.osm.pbf");
        let u = "https://download.geofabrik.de/north-america/canada-latest.osm.pbf"@;
        assert(u.skip(u.len() - 22) =~= seq!['/'] + s + "-latest.osm.pbf"@);
    }
    if s == "us"@ {
        reveal_strlit("us");
        reveal_strlit("https://download.geofabrik.de/north-america/us-latest.osm.pbf");
        let u = "https://download.geofabrik.de/north-america/us-latest.osm.pbf"@;
        assert(u.skip(u.len() - 18) =~= seq!['/'] + s + "-latest.osm.pbf"@);
    }
}

/// Short names stand for what longer names stand for, and no two regions share a
/// name.
pub proof fn law_short_names_stand_for_long_ones()
    ensures
        region_named("oceania"@) == region_named("australia-oceania"@),
        region_named("au"@) == region_named("australia"@),
        region_named("nz"@) == region_named("new-zealand"@),
        region_named("uk"@) == region_named("united-kingdom"@),
        region_named("gb"@) == region_named("united-kingdom"@),
        region_named("ca"@) == region_named("canada"@),
        region_named("usa"@) == region_named("us"@),
        region_named("planet"@) == Some(Region::Planet),
        region_named("all-continents"@) == Some(Region::AllContinents),
        region_named("australia"@) == Some(Region::Australia),
        region_named("new-zealand"@) == Some(Region::NewZealand),
        region_named("united-kingdom"@) == Some(Region::UnitedKingdom),
        region_named("canada"@) == Some(Region::Canada),
        region_named("us"@) == Some(Region::Usa),
{
    reveal_strlit("africa");
    reveal_strlit("antarctica");
    reveal_strlit("asia");
    reveal_strlit("oceania");
    reveal_strlit("australia-oceania");
    reveal_strlit("central-america");
    reveal_strlit("europe");
    reveal_strlit("north-america");
    reveal_strlit("russia");
    reveal_strlit("south-america");
    reveal_strlit("au");
    reveal_strlit("australia");
    reveal_strlit("nz");
    reveal_strlit("new-zealand");
    reveal_strlit("niue");
    reveal_strlit("uk");
    reveal_strlit("gb");
    reveal_strlit("united-kingdom");
    reveal_strlit("ca");
    reveal_strlit("canada");
    reveal_strlit("usa");
    reveal_strlit("us");
    reveal_strlit("planet");
    reveal_strlit("all-continents");
    assert("africa"@.len() == 6 && "africa"@[0] == 'a' && "africa"@[1] == 'f');
    assert("antarctica"@.len() == 10 && "antarctica"@[0] == 'a' && "antarctica"@[1] == 'n');
    assert("asia"@.len() == 4 && "asia"@[0] == 'a' && "asia"@[1] == 's');
    assert("oceania"@.len() == 7 && "oceania"@[0] == 'o' && "oceania"@[1] == 'c');
    assert("australia-oceania"@.len() == 17 && "australia-oceania"@[0] == 'a' && "australia-oceania"@[1] == 'u');
    assert("central-america"@.len() == 15 && "central-america"@[0] == 'c' && "central-america"@[1] == 'e');
    assert("europe"@.len() == 6 && "europe"@[0] == 'e' && "europe"@[1] == 'u');
    assert("north-america"@.len() == 13 && "north-america"@[0] == 'n' && "north-america"@[1] == 'o');
    assert("russia"@.len() == 6 && "russia"@[0] == 'r' && "russia"@[1] == 'u');
    assert("south-america"@.len() == 13 && "south-america"@[0] == 's' && "south-america"@[1] == 'o');
    assert("au"@.len() == 2 && "au"@[0] == 'a' && "au"@[1] == 'u');
    assert("australia"@.len() == 9 && "australia"@[0] == 'a' && "australia"@[1] == 'u');
    assert("nz"@.len() == 2 && "nz"@[0] == 'n' && "nz"@[1] == 'z');
    assert("new-zealand"@.len() == 11 && "new-zealand"@[0] == 'n' && "new-zealand"@[1] == 'e');
    assert("niue"@.len() == 4 && "niue"@[0] == 'n' && "niue"@[1] == 'i');
    assert("uk"@.len() == 2 && "uk"@[0] == 'u' && "uk"@[1] == 'k');
    assert("gb"@.len() == 2 && "gb"@[0] == 'g' && "gb"@[1] == 'b');
    assert("united-kingdom"@.len() == 14 && "united-kingdom"@[0] == 'u' && "united-kingdom"@[1] == 'n');
    assert("ca"@.len() == 2 && "ca"@[0] == 'c' && "ca"@[1] == 'a');
    assert("canada"@.len() == 6 && "canada"@[0] == 'c' && "canada"@[1] == 'a');
    assert("usa"@.len() == 3 && "usa"@[0] == 'u' && "usa"@[1] == 's');
    assert("us"@.len() == 2 && "us"@[0] == 'u' && "us"@[1] == 's');
    assert("planet"@.len() == 6 && "planet"@[0] == 'p' && "planet"@[1] == 'l');
    assert("all-continents"@.len() == 14 && "all-continents"@[0] == 'a' && "all-continents"@[1] == 'l');
}

/// All continents are fetched one by one, each from its own extract; any other
/// region from one extract.
pub proof fn law_continents_are_fetched_one_by_one(r: Region, i: int)
    ensures
        r != Region::AllContinents ==> extract_urls(r) == seq![extract_url(r)],
        extract_urls(Region::AllContinents).len() == 9,
        0 <= i < 9 ==> extract_urls(Region::AllContinents)[i] == extract_url(continents()[i]),
        continents().no_duplicates(),
        r == Region::Africa || r == Region::Antarctica || r == Region::Asia || r
            == Region::AustraliaOceania || r == Region::CentralAmerica || r == Region::Europe || r
            == Region::NorthAmerica || r == Region::Russia || r == Region::SouthAmerica
            ==> continents().contains(r),
{
    let c = continents();
    assert(c[0] == Region::Africa && c[1] == Region::Antarctica && c[2] == Region::Asia && c[3]
        == Region::AustraliaOceania && c[4] == Region::CentralAmerica && c[5] == Region::Europe
        && c[6] == Region::NorthAmerica && c[7] == Region::Russia && c[8] == Region::SouthAmerica);
}

/// The replication state of an extract stands in a directory beside it, called
/// after it.
pub proof fn law_state_stands_beside_the_extract(stem: Seq<char>)
    ensures
        stem + "-latest.osm.pbf"@ != PLANET@ ==> state_text(stem + "-latest.osm.pbf"@) == Some(
            stem + "-updates/state.txt"@,
        ),
        state_text(PLANET@) == Some("https://planet.openstreetmap.org/replication/day/state.txt"@),
{
    let u = stem + "-latest.osm.pbf"@;
    let n = "-latest.osm.pbf"@.len();
    assert(u.skip(u.len() - n) =~= "-latest.osm.pbf"@);
    assert(u.take(u.len() - n) =~= stem);
}

/// Only one host publishes checksums: beside each extract, under its name with an
/// ending.
pub proof fn law_one_host_publishes_checksums(host: Option<Seq<char>>, url: Seq<char>)
    ensures
        host == Some("download.geofabrik.de"@) ==> md5_text(host, url) == Some(
            url + seq!['.', 'm', 'd', '5'],
        ),
        host != Some("download.geofabrik.de"@) ==> md5_text(host, url) is None,
{
    reveal_strlit(".md5");
    assert(".md5"@ =~= seq!['.', 'm', 'd', '5']);
}

} // verus!
