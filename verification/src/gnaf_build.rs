//! Joins the tables of the G-NAF address file into addresses.
//!
//! The tables are bar-separated: states, localities, streets, geocodes and
//! addresses. The addresses name the rows of the other tables by their ids.
use vstd::hash_map::StringHashMap;
use vstd::prelude::*;
use crate::postcode_build::state_entry;
use crate::text::{
    append_chars, append_str, chars_of, contains_chars, ends_with, has_infix, has_suffix, split_on,
    split_seq, str_eq, string_of, string_views, views,
};
use crate::unicode::{is_alpha, is_alphabetic, lower_of, to_lowercase, to_uppercase, upper_of};

verus! {

broadcast use vstd::seq::group_seq_axioms;

// --- Files ---
/// The tables.
#[derive(Clone, Copy, Debug, PartialEq, Eq, Structural)]
pub enum PsvTable {
    State,
    Locality,
    StreetLocality,
    DefaultGeocode,
    AddressDetail,
}

/// How the name of a file of a table ends.
pub open spec fn table_suffix(t: PsvTable) -> Seq<char> {
    match t {
        PsvTable::State => "_STATE_psv.psv"@,
        PsvTable::Locality => "_LOCALITY_psv.psv"@,
        PsvTable::StreetLocality => "_STREET_LOCALITY_psv.psv"@,
        PsvTable::DefaultGeocode => "_ADDRESS_DEFAULT_GEOCODE_psv.psv"@,
        PsvTable::AddressDetail => "_ADDRESS_DETAIL_psv.psv"@,
    }
}

/// Whether a file of a name belongs to a table.
pub open spec fn is_file_of(name: Seq<char>, table: PsvTable) -> bool {
    has_suffix(name, table_suffix(table)) && !(table == PsvTable::Locality && has_infix(
        name,
        "STREET_LOCALITY"@,
    ))
}

/// Whether a file belongs to a table. The files of streets are no files of
/// localities.
pub fn is_table_file(name: &str, table: PsvTable) -> (r: bool)
    ensures
        r == is_file_of(name@, table),
{
    let suffix = match table {
        PsvTable::State => "_STATE_psv.psv",
        PsvTable::Locality => "_LOCALITY_psv.psv",
        PsvTable::StreetLocality => "_STREET_LOCALITY_psv.psv",
        PsvTable::DefaultGeocode => "_ADDRESS_DEFAULT_GEOCODE_psv.psv",
        PsvTable::AddressDetail => "_ADDRESS_DETAIL_psv.psv",
    };
    let chars = chars_of(name);
    ends_with(&chars, &chars_of(suffix)) && !(table == PsvTable::Locality && contains_chars(
        &chars,
        &chars_of("STREET_LOCALITY"),
    ))
}

// --- Texts ---
/// Text with the first letter of each run of letters in upper case and the
/// others in lower case.
pub open spec fn title_seq(s: Seq<char>) -> Seq<char>
    decreases s.len(),
{
    if s.len() == 0 {
        Seq::empty()
    } else {
        let done = title_seq(s.drop_last());
        let c = s.last();
        if !is_alpha(c) {
            done.push(c)
        } else if s.len() >= 2 && is_alpha(s[s.len() - 2]) {
            done + lower_of(c)
        } else {
            done + upper_of(c)
        }
    }
}

/// Writes the words of a text with capitals: "BAULKHAM HILLS" becomes
/// "Baulkham Hills".
pub fn title_case(s: &str) -> (r: String)
    ensures
        r@ == title_seq(s@),
{
    let chars = chars_of(s);
    let mut out: Vec<char> = Vec::new();
    let mut prev_alpha = false;
    for i in 0..chars.len()
        invariant
            chars@ == s@,
            out@ == title_seq(s@.take(i as int)),
            prev_alpha == (i > 0 && is_alpha(s@[i - 1])),
    {
        assert(s@.take(i + 1).drop_last() =~= s@.take(i as int));
        let c = chars[i];
        if is_alphabetic(c) {
            if prev_alpha {
                append_chars(&mut out, &to_lowercase(c));
            } else {
                append_chars(&mut out, &to_uppercase(c));
            }
            prev_alpha = true;
        } else {
            out.push(c);
            prev_alpha = false;
        }
    }
    assert(s@.take(s@.len() as int) =~= s@);
    string_of(&out)
}

/// A field of a row; empty where the row is too short.
pub open spec fn field(row: Seq<Seq<char>>, i: int) -> Seq<char> {
    if 0 <= i < row.len() {
        row[i]
    } else {
        Seq::empty()
    }
}

/// The house number of a row of the address table: the first number, and the
/// last one of a range behind a hyphen. Each consists of a prefix, a number
/// and a suffix.
pub open spec fn row_housenumber(row: Seq<Seq<char>>) -> Seq<char> {
    let first = field(row, 16) + field(row, 17) + field(row, 18);
    let last = field(row, 19) + field(row, 20) + field(row, 21);
    if last.len() == 0 {
        first
    } else if first.len() == 0 {
        last
    } else {
        first + seq!['-'] + last
    }
}

fn append_field(out: &mut Vec<char>, fields: &[String], i: usize)
    ensures
        final(out)@ == old(out)@ + field(string_views(fields@), i as int),
{
    if i < fields.len() {
        append_str(out, fields[i].as_str());
    } else {
        assert(out@ =~= old(out)@ + Seq::<char>::empty());
    }
}

/// The house number of a row of the address table.
pub fn build_housenumber(fields: &[String]) -> (r: String)
    ensures
        r@ == row_housenumber(string_views(fields@)),
{
    let mut first: Vec<char> = Vec::new();
    append_field(&mut first, fields, 16);
    append_field(&mut first, fields, 17);
    append_field(&mut first, fields, 18);
    let mut last: Vec<char> = Vec::new();
    append_field(&mut last, fields, 19);
    append_field(&mut last, fields, 20);
    append_field(&mut last, fields, 21);
    let ghost row = string_views(fields@);
    assert(first@ =~= field(row, 16) + field(row, 17) + field(row, 18));
    assert(last@ =~= field(row, 19) + field(row, 20) + field(row, 21));
    if last.len() == 0 {
        return string_of(&first);
    }
    if first.len() == 0 {
        return string_of(&last);
    }
    first.push('-');
    append_chars(&mut first, &last);
    assert(first@ =~= row_housenumber(row));
    string_of(&first)
}

// --- Rows ---
/// What a row of the locality table says: the name of a current locality.
pub open spec fn locality_name_entry(row: Seq<Seq<char>>) -> Option<(Seq<char>, Seq<char>)> {
    if row.len() >= 4 && row[0].len() > 0 && row[3].len() > 0 && row[2].len() == 0 {
        Some((row[0], row[3]))
    } else {
        None
    }
}

/// What a row of the street table says: the name of a current street, with
/// its type behind it where it has one.
pub open spec fn street_entry(row: Seq<Seq<char>>) -> Option<(Seq<char>, Seq<char>)> {
    if row.len() >= 6 && row[0].len() > 0 && row[2].len() == 0 && row[4].len() > 0 {
        Some(
            (
                row[0],
                if row[5].len() == 0 {
                    title_seq(row[4])
                } else {
                    title_seq(row[4]) + seq![' '] + title_seq(row[5])
                },
            ),
        )
    } else {
        None
    }
}

/// Where a row of the geocode table places a current address: the id of the
/// address, the longitude and the latitude.
pub open spec fn geocode_entry(row: Seq<Seq<char>>) -> Option<(Seq<char>, Seq<char>, Seq<char>)> {
    if row.len() >= 7 && row[3].len() > 0 && row[2].len() == 0 {
        Some((row[3], row[5], row[6]))
    } else {
        None
    }
}

/// A row of the geocode table, with its numbers as they are written.
pub struct GeocodeRow {
    pub pid: String,
    pub lng: String,
    pub lat: String,
}

/// Reads a row of the geocode table.
pub fn geocode_row(fields: &[String]) -> (r: Option<GeocodeRow>)
    ensures
        match r {
            Some(g) => geocode_entry(string_views(fields@)) == Some((g.pid@, g.lng@, g.lat@)),
            None => geocode_entry(string_views(fields@)) is None,
        },
{
    let ghost row = string_views(fields@);
    if fields.len() < 7 {
        return None;
    }
    assert(row[2] == fields@[2]@ && row[3] == fields@[3]@ && row[5] == fields@[5]@ && row[6]
        == fields@[6]@);
    if fields[3].as_str().is_empty() || !fields[2].as_str().is_empty() {
        return None;
    }
    Some(GeocodeRow { pid: fields[3].clone(), lng: fields[5].clone(), lat: fields[6].clone() })
}

/// An address joined from the tables. The coordinates are bit patterns
/// (binary32).
pub struct JoinedAddress {
    pub lat: u32,
    pub lng: u32,
    pub housenumber: String,
    pub street: String,
    pub locality: String,
    pub postcode: String,
}

/// What becomes of a row of the address table.
pub enum JoinOutcome {
    Address(JoinedAddress),
    /// The geocode table does not have the address.
    NoGeocode,
    /// The row is retired, or something else is missing.
    Skipped,
}

/// The tables read so far.
pub struct GnafTables {
    /// The ids of the states with their abbreviations.
    pub states: Vec<(String, String)>,
    pub localities: StringHashMap<String>,
    pub streets: StringHashMap<String>,
    /// Latitude and longitude of each address.
    pub geocodes: StringHashMap<(u32, u32)>,
}

/// The text that a table has under an id.
pub open spec fn text_under(m: Map<Seq<char>, String>, k: Seq<char>) -> Option<Seq<char>> {
    if m.contains_key(k) {
        Some(m[k]@)
    } else {
        None
    }
}

/// The abbreviation of a state.
pub open spec fn abbr_of(states: Seq<(String, String)>, pid: Seq<char>) -> Option<Seq<char>>
    decreases states.len(),
{
    if states.len() == 0 {
        None
    } else if states.last().0@ == pid {
        Some(states.last().1@)
    } else {
        abbr_of(states.drop_last(), pid)
    }
}

/// Whether some state has an abbreviation.
pub open spec fn is_abbr(states: Seq<(String, String)>, abbr: Seq<char>) -> bool {
    exists|i: int| 0 <= i < states.len() && (#[trigger] states[i]).1@ == abbr
}

pub open spec fn distinct_states(states: Seq<(String, String)>) -> bool {
    forall|i: int, j: int|
        0 <= i < j < states.len() ==> (#[trigger] states[i]).0@ != (#[trigger] states[j]).0@
}

proof fn lemma_abbr_of(states: Seq<(String, String)>, i: int)
    requires
        distinct_states(states),
        0 <= i < states.len(),
    ensures
        abbr_of(states, states[i].0@) == Some(states[i].1@),
    decreases states.len(),
{
    if i < states.len() - 1 {
        let front = states.drop_last();
        assert(distinct_states(front)) by {
            assert forall|a: int, b: int| 0 <= a < b < front.len() implies (#[trigger] front[a]).0@ != (
            #[trigger] front[b]).0@ by {
                assert(states[a].0@ != states[b].0@);
            }
        }
        assert(states[i].0@ != states[states.len() - 1].0@);
        assert(front[i] == states[i]);
        lemma_abbr_of(front, i);
    }
}

proof fn lemma_abbr_none(states: Seq<(String, String)>, pid: Seq<char>)
    requires
        forall|i: int| 0 <= i < states.len() ==> (#[trigger] states[i]).0@ != pid,
    ensures
        abbr_of(states, pid) is None,
    decreases states.len(),
{
    if states.len() > 0 {
        assert(states[states.len() - 1].0@ != pid);
        assert forall|i: int| 0 <= i < states.drop_last().len() implies (
        #[trigger] states.drop_last()[i]).0@ != pid by {
            assert(states.drop_last()[i] == states[i]);
        }
        lemma_abbr_none(states.drop_last(), pid);
    }
}

proof fn lemma_abbr_found(states: Seq<(String, String)>, pid: Seq<char>)
    requires
        abbr_of(states, pid) is Some,
    ensures
        exists|i: int| 0 <= i < states.len() && (#[trigger] states[i]).0@ == pid,
{
    if forall|i: int| 0 <= i < states.len() ==> (#[trigger] states[i]).0@ != pid {
        lemma_abbr_none(states, pid);
    }
}

impl GnafTables {
    pub open spec fn wf(&self) -> bool {
        distinct_states(self.states@)
    }

    pub fn new() -> (r: GnafTables)
        ensures
            r.wf(),
            r.states@.len() == 0,
            r.localities@ == Map::<Seq<char>, String>::empty(),
            r.streets@ == Map::<Seq<char>, String>::empty(),
            r.geocodes@ == Map::<Seq<char>, (u32, u32)>::empty(),
    {
        GnafTables {
            states: Vec::new(),
            localities: StringHashMap::new(),
            streets: StringHashMap::new(),
            geocodes: StringHashMap::new(),
        }
    }

    /// Reads a row of the state table.
    pub fn add_state(&mut self, fields: &[String])
        requires
            old(self).wf(),
        ensures
            final(self).wf(),
            forall|p: Seq<char>| #[trigger]
                abbr_of(final(self).states@, p) == (match state_entry(string_views(fields@)) {
                    Some((pid, abbr)) if p == pid => Some(abbr),
                    _ => abbr_of(old(self).states@, p),
                }),
            final(self).localities == old(self).localities,
            final(self).streets == old(self).streets,
            final(self).geocodes == old(self).geocodes,
    {
        let ghost row = string_views(fields@);
        if fields.len() < 5 {
            return ;
        }
        assert(row[0] == fields@[0]@ && row[4] == fields@[4]@);
        if fields[0].as_str().is_empty() || fields[4].as_str().is_empty() {
            return ;
        }
        let ghost before = self.states@;
        let ghost pid = fields@[0]@;
        let n: usize = self.states.len();
        for i in 0..n
            invariant
                n == before.len(),
                self.states@ == before,
                *self == *old(self),
                fields@.len() >= 5,
                pid == fields@[0]@,
                row == string_views(fields@),
                state_entry(row) == Some((pid, fields@[4]@)),
                distinct_states(before),
                before == old(self).states@,
                forall|j: int| 0 <= j < i ==> (#[trigger] before[j]).0@ != pid,
        {
            if str_eq(self.states[i].0.as_str(), fields[0].as_str()) {
                let entry = (fields[0].clone(), fields[4].clone());
                self.states.set(i, entry);
                proof {
                    let now = self.states@;
                    assert(now == before.update(i as int, entry));
                    assert(distinct_states(now)) by {
                        assert forall|a: int, b: int| 0 <= a < b < now.len() implies (#[trigger] now[a]).0@ != (
                        #[trigger] now[b]).0@ by {
                            assert(before[a].0@ != before[b].0@);
                            assert(now[a].0@ == before[a].0@);
                            assert(now[b].0@ == before[b].0@);
                        }
                    }
                    assert forall|p: Seq<char>| #[trigger] abbr_of(now, p) == (if p == pid {
                        Some(fields@[4]@)
                    } else {
                        abbr_of(before, p)
                    }) by {
                        lemma_abbr_of(now, i as int);
                        if p != pid {
                            if abbr_of(before, p) is Some {
                                lemma_abbr_found(before, p);
                                let j = choose|j: int|
                                    0 <= j < before.len() && (#[trigger] before[j]).0@ == p;
                                lemma_abbr_of(before, j);
                                lemma_abbr_of(now, j);
                                assert(now[j] == before[j]);
                            } else if abbr_of(now, p) is Some {
                                lemma_abbr_found(now, p);
                                let j = choose|j: int|
                                    0 <= j < now.len() && (#[trigger] now[j]).0@ == p;
                                assert(now[j] == before[j]);
                                lemma_abbr_of(before, j);
                            }
                        }
                    }
                }
                return ;
            }
        }
        let entry = (fields[0].clone(), fields[4].clone());
        self.states.push(entry);
        proof {
            let now = self.states@;
            assert(now.drop_last() =~= before);
            assert(distinct_states(now)) by {
                assert forall|a: int, b: int| 0 <= a < b < now.len() implies (#[trigger] now[a]).0@ != (
                #[trigger] now[b]).0@ by {
                    assert(now[a] == before[a]);
                    if b < before.len() {
                        assert(now[b] == before[b]);
                        assert(before[a].0@ != before[b].0@);
                    }
                }
            }
        }
    }

    /// The state that a file of addresses is of: what its name begins with, if
    /// that is the abbreviation of a state.
    pub fn state_abbr_for_file(&self, name: &str) -> (r: Option<String>)
        ensures
            ({
                let prefix = split_seq(name@, '_')[0];
                match r {
                    Some(abbr) => abbr@ == prefix && is_abbr(self.states@, prefix),
                    None => !is_abbr(self.states@, prefix),
                }
            }),
    {
        let pieces = split_on(&chars_of(name), '_');
        proof {
            crate::text::lemma_split_nonempty(name@, crate::text::is_char('_'));
            assert(views(pieces@)[0] == pieces@[0]@);
        }
        let prefix = string_of(&pieces[0]);
        for i in 0..self.states.len()
            invariant
                prefix@ == split_seq(name@, '_')[0],
                forall|j: int| 0 <= j < i ==> (#[trigger] self.states@[j]).1@ != prefix@,
        {
            if str_eq(self.states[i].1.as_str(), prefix.as_str()) {
                return Some(prefix);
            }
        }
        None
    }

    /// Reads a row of the locality table.
    pub fn add_locality(&mut self, fields: &[String])
        ensures
            forall|p: Seq<char>| #[trigger]
                text_under(final(self).localities@, p) == (match locality_name_entry(
                    string_views(fields@),
                ) {
                    Some((pid, name)) if p == pid => Some(name),
                    _ => text_under(old(self).localities@, p),
                }),
            final(self).states == old(self).states,
            final(self).streets == old(self).streets,
            final(self).geocodes == old(self).geocodes,
    {
        let ghost row = string_views(fields@);
        if fields.len() < 4 {
            return ;
        }
        assert(row[0] == fields@[0]@ && row[2] == fields@[2]@ && row[3] == fields@[3]@);
        if !fields[0].as_str().is_empty() && !fields[3].as_str().is_empty()
            && fields[2].as_str().is_empty() {
            self.localities.insert(fields[0].clone(), fields[3].clone());
        }
    }

    /// Reads a row of the street table.
    pub fn add_street(&mut self, fields: &[String])
        ensures
            forall|p: Seq<char>| #[trigger]
                text_under(final(self).streets@, p) == (match street_entry(string_views(fields@)) {
                    Some((pid, name)) if p == pid => Some(name),
                    _ => text_under(old(self).streets@, p),
                }),
            final(self).states == old(self).states,
            final(self).localities == old(self).localities,
            final(self).geocodes == old(self).geocodes,
    {
        let ghost row = string_views(fields@);
        if fields.len() < 6 {
            return ;
        }
        assert(row[0] == fields@[0]@ && row[2] == fields@[2]@ && row[4] == fields@[4]@ && row[5]
            == fields@[5]@);
        if fields[0].as_str().is_empty() || !fields[2].as_str().is_empty()
            || fields[4].as_str().is_empty() {
            return ;
        }
        let mut display = chars_of(title_case(fields[4].as_str()).as_str());
        if !fields[5].as_str().is_empty() {
            display.push(' ');
            append_str(&mut display, title_case(fields[5].as_str()).as_str());
            assert(display@ =~= title_seq(row[4]) + seq![' '] + title_seq(row[5]));
        }
        self.streets.insert(fields[0].clone(), string_of(&display));
    }

    /// Places an address.
    pub fn add_geocode(&mut self, pid: String, lat: u32, lng: u32)
        ensures
            final(self).geocodes@ == old(self).geocodes@.insert(pid@, (lat, lng)),
            final(self).states == old(self).states,
            final(self).localities == old(self).localities,
            final(self).streets == old(self).streets,
    {
        self.geocodes.insert(pid, (lat, lng));
    }

    /// Whether `r` is what becomes of a row of the address table: it is not
    /// retired, it is placed, and it has a postcode, a house number, a street
    /// and a locality.
    pub open spec fn is_join(&self, row: Seq<Seq<char>>, r: JoinOutcome) -> bool {
        if row.len() <= 26 || row[0].len() == 0 || row[3].len() > 0 {
            r is Skipped
        } else if !self.geocodes@.contains_key(row[0]) {
            r is NoGeocode
        } else if row[26].len() == 0 || row_housenumber(row).len() == 0 || text_under(
            self.streets@,
            row[22],
        ) is None || text_under(self.localities@, row[24]) is None {
            r is Skipped
        } else {
            match r {
                JoinOutcome::Address(a) => {
                    &&& (a.lat, a.lng) == self.geocodes@[row[0]]
                    &&& a.housenumber@ == row_housenumber(row)
                    &&& Some(a.street@) == text_under(self.streets@, row[22])
                    &&& a.locality@ == title_seq(self.localities@[row[24]]@)
                    &&& a.postcode@ == row[26]
                },
                _ => false,
            }
        }
    }

    /// Joins a row of the address table with the other tables.
    pub fn join(&self, fields: &[String]) -> (r: JoinOutcome)
        ensures
            self.is_join(string_views(fields@), r),
    {
        let ghost row = string_views(fields@);
        if fields.len() <= 26 {
            return JoinOutcome::Skipped;
        }
        assert(row[0] == fields@[0]@ && row[3] == fields@[3]@ && row[22] == fields@[22]@ && row[24]
            == fields@[24]@ && row[26] == fields@[26]@);
        if fields[0].as_str().is_empty() || !fields[3].as_str().is_empty() {
            return JoinOutcome::Skipped;
        }
        let (lat, lng): (u32, u32) = match self.geocodes.get(fields[0].as_str()) {
            Some(g) => *g,
            None => return JoinOutcome::NoGeocode,
        };
        if fields[26].as_str().is_empty() {
            return JoinOutcome::Skipped;
        }
        let housenumber = build_housenumber(fields);
        if housenumber.as_str().is_empty() {
            return JoinOutcome::Skipped;
        }
        match (
            self.streets.get(fields[22].as_str()),
            self.localities.get(fields[24].as_str()),
        ) {
            (Some(street), Some(locality)) => JoinOutcome::Address(
                JoinedAddress {
                    lat,
                    lng,
                    housenumber,
                    street: street.clone(),
                    locality: title_case(locality.as_str()),
                    postcode: fields[26].clone(),
                },
            ),
            _ => JoinOutcome::Skipped,
        }
    }
}

// --- Laws ---
/// A current row of the address table that has a place, a postcode, a house
/// number, a street and a locality becomes an address: its place is that of its
/// id, its street and its locality are those whose ids it names, and its
/// postcode is its own. The columns are those of the table's definition.
pub proof fn law_row_is_joined_by_its_ids(t: GnafTables, row: Seq<Seq<char>>, r: JoinOutcome)
    requires
        t.is_join(row, r),
        row.len() >= 27,
    ensures
        ({
            let (pid, retired, street, locality, postcode) = (row[0], row[3], row[22], row[24], row[26]);
            &&& pid.len() == 0 || retired.len() > 0 ==> r is Skipped
            &&& pid.len() > 0 && retired.len() == 0 && !t.geocodes@.contains_key(pid)
                ==> r is NoGeocode
            &&& pid.len() > 0 && retired.len() == 0 && t.geocodes@.contains_key(pid)
                && t.streets@.contains_key(street) && t.localities@.contains_key(locality)
                && postcode.len() > 0 && row[17].len() > 0 ==> (r matches JoinOutcome::Address(a)
                && {
                &&& a.lat == t.geocodes@[pid].0
                &&& a.lng == t.geocodes@[pid].1
                &&& a.street@ == t.streets@[street]@
                &&& a.locality@ == title_seq(t.localities@[locality]@)
                &&& a.postcode@ == postcode
                &&& a.housenumber@.len() > 0
            })
        }),
{
}

/// The house number of a row is its first number, between its prefix and its
/// suffix; a row with a last number too is a range of the two.
pub proof fn law_housenumber_is_a_number_or_a_range(row: Seq<Seq<char>>)
    requires
        row.len() >= 22,
    ensures
        row[19].len() == 0 && row[20].len() == 0 && row[21].len() == 0 ==> row_housenumber(row)
            == row[16] + row[17] + row[18],
        row[17].len() > 0 && row[20].len() > 0 ==> row_housenumber(row) == (row[16] + row[17]
            + row[18]).push('-') + (row[19] + row[20] + row[21]),
{
    let first = row[16] + row[17] + row[18];
    let last = row[19] + row[20] + row[21];
    assert(first + seq!['-'] + last =~= first.push('-') + last);
    if row[19].len() == 0 && row[20].len() == 0 && row[21].len() == 0 {
        assert(last.len() == 0);
    }
}

/// What rows say of streets and localities, and where they place addresses: a
/// row with a date of retirement says nothing; any other says what stands in
/// the columns of the id, the name and the type, or of the id, the longitude and
/// the latitude.
pub proof fn law_rows_say_what_they_hold(row: Seq<Seq<char>>)
    requires
        row.len() >= 7,
    ensures
        row[2].len() > 0 ==> street_entry(row) is None && locality_name_entry(row) is None
            && geocode_entry(row) is None,
        row[2].len() == 0 && row[0].len() > 0 && row[3].len() > 0 ==> locality_name_entry(row)
            == Some((row[0], row[3])),
        row[2].len() == 0 && row[3].len() > 0 ==> geocode_entry(row) == Some(
            (row[3], row[5], row[6]),
        ),
        row[2].len() == 0 && row[0].len() > 0 && row[4].len() > 0 ==> (street_entry(row) matches Some(
            e,
        ) && e.0 == row[0] && if row[5].len() == 0 {
            e.1 == title_seq(row[4])
        } else {
            e.1 == title_seq(row[4]).push(' ') + title_seq(row[5])
        }),
{
    assert(title_seq(row[4]) + seq![' '] + title_seq(row[5]) =~= title_seq(row[4]).push(' ')
        + title_seq(row[5]));
}

/// Putting an ASCII text into title case keeps its characters up to their case:
/// a letter is a capital just where no letter stands before it.
pub proof fn law_title_case_sets_capitals(s: Seq<char>)
    requires
        forall|i: int| 0 <= i < s.len() ==> (#[trigger] s[i] as u32) < 128,
    ensures
        title_seq(s).len() == s.len(),
        forall|i: int|
            0 <= i < s.len() ==> #[trigger] title_seq(s)[i] == if i > 0
                && crate::text::is_ascii_letter(s[i - 1]) {
                crate::text::lower_char(s[i])
            } else {
                crate::text::upper_char(s[i])
            },
    decreases s.len(),
{
    if s.len() > 0 {
        let front = s.drop_last();
        assert forall|i: int| 0 <= i < front.len() implies (#[trigger] front[i] as u32) < 128 by {
            assert(front[i] == s[i]);
        }
        law_title_case_sets_capitals(front);
        let n = s.len() - 1;
        assert((s[n] as u32) < 128);
        if n > 0 {
            assert((s[n - 1] as u32) < 128);
        }
        assert(title_seq(s).len() == s.len());
        assert forall|i: int| 0 <= i < s.len() implies #[trigger] title_seq(s)[i] == if i > 0
            && crate::text::is_ascii_letter(s[i - 1]) {
            crate::text::lower_char(s[i])
        } else {
            crate::text::upper_char(s[i])
        } by {
            if i < n {
                assert(title_seq(s)[i] == title_seq(front)[i]);
                assert(front[i] == s[i]);
                if i > 0 {
                    assert(front[i - 1] == s[i - 1]);
                }
            }
        }
    }
}

} // verus!
