//! Which output field an administrative polygon fills, by country and level.
//!
//! A global default maps levels to fields; a country can override single
//! levels of it.
use vstd::hash_map::StringHashMap;
use vstd::prelude::*;
use crate::text::{
    chars_of, lower_seq, opt_str_view, parse_uint, parse_uint_seq, string_of, upper_char, upper_chars,
    upper_seq,
};

verus! {

broadcast use vstd::seq::group_seq_axioms;

/// The output field of a polygon.
#[derive(Clone, Copy, Debug, PartialEq, Eq, Structural)]
pub enum AdminField {
    Country,
    State,
    County,
    /// Fills the county only where nothing has.
    CountyIfEmpty,
    City,
    /// Fills the city only where nothing has.
    CityIfEmpty,
    Postcode,
    /// Fills nothing, and keeps the default from applying.
    Ignore,
}

/// The field of a level, and the largest area (a binary32 bit pattern, in
/// square degrees) with which a polygon still counts.
#[derive(Clone, Copy, Debug, PartialEq, Eq, Structural)]
pub struct AdminEntry {
    pub field: AdminField,
    pub max_area: Option<u32>,
}

/// An entry as a configuration file writes it: the field alone, or the field
/// with an area cap.
#[derive(Clone, Copy, Debug, PartialEq, Eq, Structural)]
pub enum RawAdminEntry {
    Field(AdminField),
    Detailed { field: AdminField, max_area: Option<u32> },
}

impl RawAdminEntry {
    pub open spec fn entry(self) -> AdminEntry {
        match self {
            RawAdminEntry::Field(field) => AdminEntry { field, max_area: None },
            RawAdminEntry::Detailed { field, max_area } => AdminEntry { field, max_area },
        }
    }

    /// The field and the area cap.
    pub fn parts(&self) -> (r: (AdminField, Option<u32>))
        ensures
            r.0 == self.entry().field,
            r.1 == self.entry().max_area,
    {
        match self {
            RawAdminEntry::Field(field) => (*field, None),
            RawAdminEntry::Detailed { field, max_area } => (*field, *max_area),
        }
    }
}

/// The levels of a section, in the order of the file.
pub struct RawAdminSection {
    pub admin: Vec<(String, RawAdminEntry)>,
}

/// The section of a country.
pub struct RawCountry {
    pub code: String,
    pub section: RawAdminSection,
}

/// A configuration file.
pub struct RawConfig {
    pub defaults: RawAdminSection,
    pub countries: Vec<RawCountry>,
}

/// The entries of all 256 levels.
pub struct LevelMap {
    pub levels: Vec<Option<AdminEntry>>,
}

impl LevelMap {
    pub open spec fn wf(&self) -> bool {
        self.levels@.len() == 256
    }

    pub open spec fn at(&self, level: u8) -> Option<AdminEntry> {
        self.levels@[level as int]
    }

    /// A map without entries.
    fn new() -> (r: LevelMap)
        ensures
            r.wf(),
            forall|l: u8| #[trigger] r.at(l) is None,
    {
        let mut levels: Vec<Option<AdminEntry>> = Vec::new();
        for i in 0..256usize
            invariant
                levels@.len() == i,
                forall|j: int| 0 <= j < i ==> levels@[j] is None,
        {
            levels.push(None);
        }
        LevelMap { levels }
    }

    fn put(&mut self, level: u8, field: AdminField, max_area: Option<u32>)
        requires
            old(self).wf(),
        ensures
            final(self).wf(),
            forall|l: u8| #[trigger]
                final(self).at(l) == (if l == level {
                    Some(AdminEntry { field, max_area })
                } else {
                    old(self).at(l)
                }),
    {
        self.levels.set(level as usize, Some(AdminEntry { field, max_area }));
    }
}

/// The entry that the first `n` lines of a section give a level. A line whose
/// key is not a level counts for nothing, and a later line for the same level
/// replaces an earlier one.
pub open spec fn section_entry(
    admin: Seq<(String, RawAdminEntry)>,
    level: u8,
    n: int,
) -> Option<AdminEntry>
    decreases n,
{
    if n <= 0 {
        None
    } else if parse_uint_seq(admin[n - 1].0@, 255) == Some(level as nat) {
        Some(admin[n - 1].1.entry())
    } else {
        section_entry(admin, level, n - 1)
    }
}

/// Resolves the lines of a section.
fn to_level_map(section: &RawAdminSection) -> (r: LevelMap)
    ensures
        r.wf(),
        forall|l: u8| #[trigger]
            r.at(l) == section_entry(section.admin@, l, section.admin@.len() as int),
{
    let mut map = LevelMap::new();
    for i in 0..section.admin.len()
        invariant
            map.wf(),
            forall|l: u8| #[trigger] map.at(l) == section_entry(section.admin@, l, i as int),
    {
        let ghost before = map;
        if let Some(level) = parse_uint(&chars_of(section.admin[i].0.as_str()), 255) {
            let (field, max_area) = section.admin[i].1.parts();
            map.levels.set(level as usize, Some(AdminEntry { field, max_area }));
        }
        assert forall|l: u8| #[trigger] map.at(l) == section_entry(section.admin@, l, i + 1) by {
            assert(before.at(l) == section_entry(section.admin@, l, i as int));
        }
    }
    map
}

/// The resolved configuration.
pub struct AdminConfig {
    pub defaults: LevelMap,
    /// By country code in upper case.
    pub by_country: StringHashMap<LevelMap>,
}

/// Which of the first `n` sections of a file is that of a country, given in
/// upper case: the last one with its code, in any case.
pub open spec fn country_section(countries: Seq<RawCountry>, code: Seq<char>, n: int) -> Option<int>
    decreases n,
{
    if n <= 0 {
        None
    } else if upper_seq(countries[n - 1].code@) == code {
        Some(n - 1)
    } else {
        country_section(countries, code, n - 1)
    }
}

pub proof fn lemma_country_section(countries: Seq<RawCountry>, code: Seq<char>, n: int)
    ensures
        country_section(countries, code, n) matches Some(i) ==> 0 <= i < n,
    decreases n,
{
    if n > 0 {
        lemma_country_section(countries, code, n - 1);
    }
}

/// The entry of a file for a country and a level, before opting out counts.
pub open spec fn raw_entry(raw: RawConfig, code: Option<Seq<char>>, level: u8) -> Option<AdminEntry> {
    let default = section_entry(raw.defaults.admin@, level, raw.defaults.admin@.len() as int);
    match code {
        Some(cc) => match country_section(
            raw.countries@,
            upper_seq(cc),
            raw.countries@.len() as int,
        ) {
            Some(i) => {
                let admin = raw.countries@[i].section.admin@;
                match section_entry(admin, level, admin.len() as int) {
                    Some(e) => Some(e),
                    None => default,
                }
            },
            None => default,
        },
        None => default,
    }
}

/// An entry that is not opted out.
pub open spec fn unless_ignored(e: Option<AdminEntry>) -> Option<AdminEntry> {
    match e {
        Some(entry) => if entry.field == AdminField::Ignore {
            None
        } else {
            Some(entry)
        },
        None => None,
    }
}

/// The area cap of Australian suburbs: 0.05 square degrees, so that a pastoral
/// station is no suburb.
pub const SUBURB_AREA: u32 = 0x3d4c_cccd;

/// An entry without an area cap.
pub open spec fn plain_entry(field: AdminField) -> Option<AdminEntry> {
    Some(AdminEntry { field, max_area: None })
}

/// The entry of the built-in configuration for a country, given in upper case,
/// where it has one of its own.
pub open spec fn builtin_override(code: Seq<char>, level: u8) -> Option<AdminEntry> {
    if code == "AU"@ {
        if level == 6 {
            plain_entry(AdminField::County)
        } else if level == 7 {
            plain_entry(AdminField::CountyIfEmpty)
        } else if level == 9 {
            Some(AdminEntry { field: AdminField::City, max_area: Some(SUBURB_AREA) })
        } else {
            None
        }
    } else if code == "NZ"@ {
        if level == 6 {
            plain_entry(AdminField::City)
        } else if level == 10 {
            plain_entry(AdminField::CountyIfEmpty)
        } else {
            None
        }
    } else {
        None
    }
}

/// The entry of the built-in configuration for all countries.
pub open spec fn builtin_default(level: u8) -> Option<AdminEntry> {
    if level == 2 {
        plain_entry(AdminField::Country)
    } else if level == 4 {
        plain_entry(AdminField::State)
    } else if level == 6 {
        plain_entry(AdminField::County)
    } else if level == 8 {
        plain_entry(AdminField::City)
    } else if level == 11 {
        plain_entry(AdminField::Postcode)
    } else {
        None
    }
}

/// The entry of the built-in configuration.
pub open spec fn builtin_entry(code: Option<Seq<char>>, level: u8) -> Option<AdminEntry> {
    match code {
        Some(cc) => match builtin_override(upper_seq(cc), level) {
            Some(e) => Some(e),
            None => builtin_default(level),
        },
        None => builtin_default(level),
    }
}

impl AdminConfig {
    /// The built-in configuration.
    pub fn embedded_default() -> (r: AdminConfig)
        ensures
            r.wf(),
            forall|code: Option<Seq<char>>, level: u8| #[trigger]
                r.entry(code, level) == builtin_entry(code, level),
    {
        let mut defaults = LevelMap::new();
        defaults.put(2, AdminField::Country, None);
        defaults.put(4, AdminField::State, None);
        defaults.put(6, AdminField::County, None);
        defaults.put(8, AdminField::City, None);
        defaults.put(11, AdminField::Postcode, None);
        let mut au = LevelMap::new();
        au.put(6, AdminField::County, None);
        au.put(7, AdminField::CountyIfEmpty, None);
        au.put(9, AdminField::City, Some(SUBURB_AREA));
        let mut nz = LevelMap::new();
        nz.put(6, AdminField::City, None);
        nz.put(10, AdminField::CountyIfEmpty, None);
        let mut by_country: StringHashMap<LevelMap> = StringHashMap::new();
        by_country.insert("AU".to_owned(), au);
        by_country.insert("NZ".to_owned(), nz);
        let r = AdminConfig { defaults, by_country };
        proof {
            reveal_strlit("AU");
            reveal_strlit("NZ");
            assert("AU"@[0] != "NZ"@[0]);
            assert forall|code: Option<Seq<char>>, level: u8| #[trigger]
                r.entry(code, level) == builtin_entry(code, level) by {
                assert(r.defaults.at(level) == builtin_default(level));
                if let Some(cc) = code {
                    let k = upper_seq(cc);
                    if k == "AU"@ {
                        assert(r.by_country@[k].at(level) == builtin_override(k, level));
                    } else if k == "NZ"@ {
                        assert(r.by_country@[k].at(level) == builtin_override(k, level));
                    }
                }
            }
        }
        r
    }

    pub open spec fn wf(&self) -> bool {
        &&& self.defaults.wf()
        &&& forall|k: Seq<char>| #[trigger]
            self.by_country@.contains_key(k) ==> self.by_country@[k].wf()
    }

    /// The override of a country, or else the default.
    pub open spec fn entry(&self, code: Option<Seq<char>>, level: u8) -> Option<AdminEntry> {
        match code {
            Some(cc) => if self.by_country@.contains_key(upper_seq(cc))
                && self.by_country@[upper_seq(cc)].at(level) is Some {
                self.by_country@[upper_seq(cc)].at(level)
            } else {
                self.defaults.at(level)
            },
            None => self.defaults.at(level),
        }
    }

    /// Resolves a configuration file.
    pub fn from_raw(raw: &RawConfig) -> (r: AdminConfig)
        ensures
            r.wf(),
            forall|code: Option<Seq<char>>, level: u8| #[trigger]
                r.entry(code, level) == raw_entry(*raw, code, level),
    {
        let defaults = to_level_map(&raw.defaults);
        let mut by_country: StringHashMap<LevelMap> = StringHashMap::new();
        for i in 0..raw.countries.len()
            invariant
                forall|k: Seq<char>| #[trigger]
                    by_country@.contains_key(k) <==> country_section(
                        raw.countries@,
                        k,
                        i as int,
                    ) is Some,
                forall|k: Seq<char>| #[trigger]
                    by_country@.contains_key(k) ==> by_country@[k].wf() && {
                        let admin = raw.countries@[country_section(
                            raw.countries@,
                            k,
                            i as int,
                        )->0].section.admin@;
                        forall|l: u8| #[trigger]
                            by_country@[k].at(l) == section_entry(admin, l, admin.len() as int)
                    },
        {
            let code = upper_chars(&chars_of(raw.countries[i].code.as_str()));
            by_country.insert(string_of(&code), to_level_map(&raw.countries[i].section));
        }
        let r = AdminConfig { defaults, by_country };
        assert forall|code: Option<Seq<char>>, level: u8| #[trigger]
            r.entry(code, level) == raw_entry(*raw, code, level) by {
            if let Some(cc) = code {
                let k = upper_seq(cc);
                assert(r.by_country@.contains_key(k) <==> country_section(
                    raw.countries@,
                    k,
                    raw.countries@.len() as int,
                ) is Some);
            }
        }
        r
    }

    /// The entry for a country and a level; none where there is no mapping or
    /// where it is opted out. The case of the code does not count.
    pub fn lookup(&self, country_code: Option<&str>, admin_level: u8) -> (r: Option<AdminEntry>)
        requires
            self.wf(),
        ensures
            r == unless_ignored(self.entry(opt_str_view(country_code), admin_level)),
    {
        if let Some(cc) = country_code {
            let code = string_of(&upper_chars(&chars_of(cc)));
            if let Some(map) = self.by_country.get(code.as_str()) {
                assert(self.by_country@.contains_key(code@));
                if let Some(entry) = map.levels[admin_level as usize] {
                    return if entry.field == AdminField::Ignore {
                        None
                    } else {
                        Some(entry)
                    };
                }
            }
        }
        match self.defaults.levels[admin_level as usize] {
            Some(entry) => if entry.field == AdminField::Ignore {
                None
            } else {
                Some(entry)
            },
            None => None,
        }
    }
}

// --- Laws ---
/// The case of a country code does not count.
pub proof fn law_country_case(config: AdminConfig, a: Seq<char>, b: Seq<char>, level: u8)
    requires
        lower_seq(a) == lower_seq(b),
    ensures
        config.entry(Some(a), level) == config.entry(Some(b), level),
{
    assert(lower_seq(a).len() == a.len() && lower_seq(b).len() == b.len());
    assert forall|i: int| 0 <= i < a.len() implies upper_char(a[i]) == upper_char(b[i]) by {
        assert(lower_seq(a)[i] == crate::text::lower_char(a[i]));
        assert(lower_seq(b)[i] == crate::text::lower_char(b[i]));
        crate::text::lemma_case_pair(a[i], b[i]);
    }
    assert(upper_seq(a) =~= upper_seq(b));
}

/// A country that opts out of a level gets no entry for it, whatever the
/// default is.
pub proof fn law_ignore_blocks_default(config: AdminConfig, code: Seq<char>, level: u8)
    requires
        config.by_country@.contains_key(upper_seq(code)),
        config.by_country@[upper_seq(code)].at(level) matches Some(e) && e.field
            == AdminField::Ignore,
    ensures
        unless_ignored(config.entry(Some(code), level)) is None,
{
}

/// A country without overrides gets the defaults.
pub proof fn law_unknown_country_gets_defaults(config: AdminConfig, code: Seq<char>, level: u8)
    requires
        !config.by_country@.contains_key(upper_seq(code)),
    ensures
        config.entry(Some(code), level) == config.entry(None, level),
{
}

/// Whether line `i` of a section is the last one for a level.
pub open spec fn last_line_for(admin: Seq<(String, RawAdminEntry)>, level: u8, i: int) -> bool {
    &&& 0 <= i < admin.len()
    &&& parse_uint_seq(admin[i].0@, 255) == Some(level as nat)
    &&& forall|j: int|
        i < j < admin.len() ==> parse_uint_seq((#[trigger] admin[j]).0@, 255) != Some(level as nat)
}

proof fn lemma_last_line_counts(
    admin: Seq<(String, RawAdminEntry)>,
    level: u8,
    i: int,
    n: int,
)
    requires
        last_line_for(admin, level, i),
        i < n <= admin.len(),
    ensures
        section_entry(admin, level, n) == Some(admin[i].1.entry()),
    decreases n,
{
    if n - 1 > i {
        assert(parse_uint_seq(admin[n - 1].0@, 255) != Some(level as nat));
        lemma_last_line_counts(admin, level, i, n - 1);
    }
}

proof fn lemma_no_line(admin: Seq<(String, RawAdminEntry)>, level: u8, n: int)
    requires
        forall|j: int|
            0 <= j < admin.len() ==> parse_uint_seq((#[trigger] admin[j]).0@, 255) != Some(
                level as nat,
            ),
        0 <= n <= admin.len(),
    ensures
        section_entry(admin, level, n) is None,
    decreases n,
{
    if n > 0 {
        assert(parse_uint_seq(admin[n - 1].0@, 255) != Some(level as nat));
        lemma_no_line(admin, level, n - 1);
    }
}

proof fn lemma_last_section_counts(countries: Seq<RawCountry>, code: Seq<char>, i: int, n: int)
    requires
        0 <= i < n <= countries.len(),
        upper_seq(countries[i].code@) == code,
        forall|j: int| i < j < countries.len() ==> upper_seq((#[trigger] countries[j]).code@) != code,
    ensures
        country_section(countries, code, n) == Some(i),
    decreases n,
{
    if n - 1 > i {
        assert(upper_seq(countries[n - 1].code@) != code);
        lemma_last_section_counts(countries, code, i, n - 1);
    }
}

/// The last line for a level in the section of a country settles the entry of
/// that level, over whatever the defaults say: its field, and its area cap.
/// Where the section has no line for the level, the last line of the defaults
/// does, and so it does where no country is known.
pub proof fn law_country_overrides_default(
    raw: RawConfig,
    code: Seq<char>,
    level: u8,
    c: int,
    line: int,
    d: int,
)
    requires
        0 <= c < raw.countries@.len(),
        upper_seq(raw.countries@[c].code@) == upper_seq(code),
        forall|j: int|
            c < j < raw.countries@.len() ==> upper_seq((#[trigger] raw.countries@[j]).code@)
                != upper_seq(code),
        last_line_for(raw.defaults.admin@, level, d),
    ensures
        ({
            let own = raw.countries@[c].section.admin@;
            let default = raw.defaults.admin@[d].1;
            &&& last_line_for(own, level, line) ==> match own[line].1 {
                RawAdminEntry::Field(f) => raw_entry(raw, Some(code), level) == Some(
                    AdminEntry { field: f, max_area: None },
                ),
                RawAdminEntry::Detailed { field, max_area } => raw_entry(raw, Some(code), level)
                    == Some(AdminEntry { field, max_area }),
            }
            &&& (forall|j: int|
                0 <= j < own.len() ==> parse_uint_seq((#[trigger] own[j]).0@, 255) != Some(
                    level as nat,
                )) ==> raw_entry(raw, Some(code), level) == raw_entry(raw, None, level)
            &&& match default {
                RawAdminEntry::Field(f) => raw_entry(raw, None, level) == Some(
                    AdminEntry { field: f, max_area: None },
                ),
                RawAdminEntry::Detailed { field, max_area } => raw_entry(raw, None, level)
                    == Some(AdminEntry { field, max_area }),
            }
        }),
{
    let own = raw.countries@[c].section.admin@;
    lemma_last_section_counts(raw.countries@, upper_seq(code), c, raw.countries@.len() as int);
    lemma_last_line_counts(raw.defaults.admin@, level, d, raw.defaults.admin@.len() as int);
    if last_line_for(own, level, line) {
        lemma_last_line_counts(own, level, line, own.len() as int);
    }
    if forall|j: int|
        0 <= j < own.len() ==> parse_uint_seq((#[trigger] own[j]).0@, 255) != Some(level as nat) {
        lemma_no_line(own, level, own.len() as int);
    }
}

/// The built-in configuration: the even levels from the country down to the
/// city, and a postcode, for any country; in Australia the suburb is the city
/// unless it is too large, and in New Zealand the district is.
pub proof fn law_builtin_levels(code: Seq<char>, level: u8)
    ensures
        ({
            let field = |l: u8, f: AdminField|
                builtin_entry(None, l) == Some(AdminEntry { field: f, max_area: None });
            &&& field(2, AdminField::Country)
            &&& field(4, AdminField::State)
            &&& field(6, AdminField::County)
            &&& field(8, AdminField::City)
            &&& field(11, AdminField::Postcode)
            &&& builtin_entry(None, level) is Some ==> level == 2 || level == 4 || level == 6
                || level == 8 || level == 11
        }),
        upper_seq(code) == seq!['A', 'U'] ==> {
            &&& builtin_entry(Some(code), 9) == Some(
                AdminEntry { field: AdminField::City, max_area: Some(0x3d4c_cccd) },
            )
            &&& builtin_entry(Some(code), 7) == Some(
                AdminEntry { field: AdminField::CountyIfEmpty, max_area: None },
            )
            &&& level != 7 && level != 9 ==> builtin_entry(Some(code), level) == builtin_entry(
                None,
                level,
            )
        },
        upper_seq(code) == seq!['N', 'Z'] ==> {
            &&& builtin_entry(Some(code), 6) == Some(
                AdminEntry { field: AdminField::City, max_area: None },
            )
            &&& builtin_entry(Some(code), 10) == Some(
                AdminEntry { field: AdminField::CountyIfEmpty, max_area: None },
            )
            &&& level != 6 && level != 10 ==> builtin_entry(Some(code), level) == builtin_entry(
                None,
                level,
            )
        },
        upper_seq(code) != seq!['A', 'U'] && upper_seq(code) != seq!['N', 'Z'] ==> builtin_entry(
            Some(code),
            level,
        ) == builtin_entry(None, level),
{
    reveal_strlit("AU");
    reveal_strlit("NZ");
    assert("AU"@ =~= seq!['A', 'U']);
    assert("NZ"@ =~= seq!['N', 'Z']);
    assert(seq!['A', 'U'][0] != seq!['N', 'Z'][0]);
}

} // verus!
