//! Tallies address rows into the postcode of each locality.
//!
//! The rows come from bar-separated tables: the states, the localities, and
//! the addresses. A locality gets the postcode that most of its addresses
//! have.
use vstd::hash_map::StringHashMap;
use vstd::prelude::*;
use crate::postcode::{key_of, lookup_hash, PostcodeRecord};
use crate::text::{
    chars_of, lemma_lex_total, lemma_lex_transitive, lex_less, lex_lt, split_on, split_seq, str_eq,
    string_of, string_views, views,
};

verus! {

broadcast use vstd::seq::group_seq_axioms;

/// The fields of a bar-separated line.
pub fn psv_fields(line: &str) -> (r: Vec<String>)
    ensures
        string_views(r@) == split_seq(line@, '|'),
{
    let pieces = split_on(&chars_of(line), '|');
    let mut out: Vec<String> = Vec::new();
    for i in 0..pieces.len()
        invariant
            out@.len() == i,
            forall|j: int| 0 <= j < i ==> out@[j]@ == #[trigger] pieces@[j]@,
    {
        out.push(string_of(&pieces[i]));
    }
    assert(string_views(out@) =~= views(pieces@));
    out
}

/// How often a postcode occurs.
pub struct CodeCount {
    pub code: String,
    pub count: u32,
}

/// The postcodes of a locality.
pub struct LocalityTally {
    pub locality: String,
    pub codes: Vec<CodeCount>,
}

/// The name of a locality and the id of its state.
pub struct Locality {
    pub name: String,
    pub state_pid: String,
}

/// The tables read so far.
pub struct PostcodeBuilder {
    pub states: StringHashMap<String>,
    pub localities: StringHashMap<Locality>,
    pub tallies: Vec<LocalityTally>,
    pub positions: StringHashMap<usize>,
    /// How many address rows were tallied.
    pub rows: u32,
}

/// What a row of the state table says: the abbreviation of a state.
pub open spec fn state_entry(row: Seq<Seq<char>>) -> Option<(Seq<char>, Seq<char>)> {
    if row.len() >= 5 && row[0].len() > 0 && row[4].len() > 0 {
        Some((row[0], row[4]))
    } else {
        None
    }
}

/// What a row of the locality table says: the name of a current locality and
/// its state.
pub open spec fn locality_entry(row: Seq<Seq<char>>) -> Option<(Seq<char>, (Seq<char>, Seq<char>))> {
    if row.len() >= 7 && row[0].len() > 0 && row[3].len() > 0 && row[6].len() > 0 && row[2].len()
        == 0 {
        Some((row[0], (row[3], row[6])))
    } else {
        None
    }
}

/// What a row of the address table says: the locality and the postcode of a
/// current address.
pub open spec fn address_entry(row: Seq<Seq<char>>) -> Option<(Seq<char>, Seq<char>)> {
    if row.len() > 26 && row[24].len() > 0 && row[26].len() > 0 && row[3].len() == 0 {
        Some((row[24], row[26]))
    } else {
        None
    }
}

/// How often `code` was counted.
pub open spec fn code_count(codes: Seq<CodeCount>, code: Seq<char>) -> nat
    decreases codes.len(),
{
    if codes.len() == 0 {
        0
    } else if codes.last().code@ == code {
        codes.last().count as nat
    } else {
        code_count(codes.drop_last(), code)
    }
}

pub open spec fn distinct_codes(codes: Seq<CodeCount>) -> bool {
    forall|i: int, j: int|
        0 <= i < j < codes.len() ==> #[trigger] codes[i].code@ != #[trigger] codes[j].code@
}

/// Whether `m` is the modal postcode: no other is more frequent, and of those
/// that are as frequent it is the first in the order of strings.
pub open spec fn is_modal(codes: Seq<CodeCount>, m: int) -> bool {
    &&& 0 <= m < codes.len()
    &&& forall|j: int|
        0 <= j < codes.len() ==> #[trigger] codes[j].count < codes[m].count || (codes[j].count
            == codes[m].count && (codes[j].code@ == codes[m].code@ || lex_lt(
            codes[m].code@,
            codes[j].code@,
        )))
}

proof fn lemma_code_count_at(codes: Seq<CodeCount>, i: int)
    requires
        distinct_codes(codes),
        0 <= i < codes.len(),
    ensures
        code_count(codes, codes[i].code@) == codes[i].count,
    decreases codes.len(),
{
    if i < codes.len() - 1 {
        assert(codes.drop_last()[i] == codes[i]);
        assert(codes[codes.len() - 1].code@ != codes[i].code@);
        assert forall|a: int, b: int| 0 <= a < b < codes.drop_last().len() implies #[trigger]
            codes.drop_last()[a].code@ != #[trigger] codes.drop_last()[b].code@ by {
            assert(codes[a].code@ != codes[b].code@);
        }
        lemma_code_count_at(codes.drop_last(), i);
    }
}

/// Whether each postcode in a list was counted at least once.
pub open spec fn all_counted(codes: Seq<CodeCount>) -> bool {
    forall|j: int| 0 <= j < codes.len() ==> (#[trigger] codes[j]).count > 0
}

proof fn lemma_code_count_absent(codes: Seq<CodeCount>, code: Seq<char>)
    requires
        forall|i: int| 0 <= i < codes.len() ==> #[trigger] codes[i].code@ != code,
    ensures
        code_count(codes, code) == 0,
    decreases codes.len(),
{
    if codes.len() > 0 {
        assert(codes[codes.len() - 1].code@ != code);
        assert forall|i: int| 0 <= i < codes.drop_last().len() implies #[trigger]
            codes.drop_last()[i].code@ != code by {
            assert(codes[i].code@ != code);
        }
        lemma_code_count_absent(codes.drop_last(), code);
    }
}

proof fn lemma_code_count_update(codes: Seq<CodeCount>, more: Seq<CodeCount>, i: int, code: Seq<char>)
    requires
        codes.len() == more.len(),
        0 <= i < codes.len(),
        more[i].code@ == codes[i].code@,
        codes[i].code@ != code,
        forall|j: int| 0 <= j < codes.len() && j != i ==> more[j] == #[trigger] codes[j],
    ensures
        code_count(more, code) == code_count(codes, code),
    decreases codes.len(),
{
    let n = codes.len() - 1;
    if i < n {
        assert(more[n] == codes[n]);
        assert forall|j: int| 0 <= j < codes.drop_last().len() && j != i implies more.drop_last()[j]
            == #[trigger] codes.drop_last()[j] by {
            assert(more[j] == codes[j]);
        }
        lemma_code_count_update(codes.drop_last(), more.drop_last(), i, code);
    } else {
        assert forall|j: int| 0 <= j < n implies more.drop_last()[j] == codes.drop_last()[j] by {
            assert(more[j] == codes[j]);
        }
        assert(more.drop_last() =~= codes.drop_last());
    }
}

impl LocalityTally {
    /// Counts one address with the given postcode.
    fn add(&mut self, code: &str)
        requires
            distinct_codes(old(self).codes@),
            code_count(old(self).codes@, code@) < u32::MAX,
        ensures
            final(self).locality == old(self).locality,
            distinct_codes(final(self).codes@),
            all_counted(old(self).codes@) ==> all_counted(final(self).codes@),
            final(self).codes@.len() > 0,
            code_count(final(self).codes@, code@) == code_count(old(self).codes@, code@) + 1,
            forall|c: Seq<char>|
                c != code@ ==> code_count(final(self).codes@, c) == code_count(old(self).codes@, c),
    {
        let ghost before = self.codes@;
        let mut i: usize = 0;
        while i < self.codes.len()
            invariant
                self == old(self),
                before == self.codes@,
                i <= self.codes@.len(),
                distinct_codes(self.codes@),
                code_count(self.codes@, code@) < u32::MAX,
                forall|j: int| 0 <= j < i ==> #[trigger] self.codes@[j].code@ != code@,
            decreases self.codes@.len() - i,
        {
            if str_eq(self.codes[i].code.as_str(), code) {
                proof {
                    lemma_code_count_at(before, i as int);
                }
                let kept = self.codes[i].code.clone();
                let count: u32 = self.codes[i].count + 1;
                self.codes.set(i, CodeCount { code: kept, count });
                proof {
                    let after = self.codes@;
                    assert(forall|j: int|
                        0 <= j < before.len() ==> (#[trigger] after[j]).code@ == before[j].code@);
                    assert forall|a: int, b: int| 0 <= a < b < after.len() implies #[trigger]
                        after[a].code@ != #[trigger] after[b].code@ by {
                        assert(before[a].code@ != before[b].code@);
                    }
                    lemma_code_count_at(after, i as int);
                    assert forall|c: Seq<char>| c != code@ implies code_count(after, c)
                        == code_count(before, c) by {
                        lemma_code_count_update(before, after, i as int, c);
                    }
                }
                return ;
            }
            i += 1;
        }
        self.codes.push(CodeCount { code: code.to_owned(), count: 1 });
        proof {
            let after = self.codes@;
            lemma_code_count_absent(before, code@);
            assert(after.drop_last() =~= before);
            assert forall|a: int, b: int| 0 <= a < b < after.len() implies #[trigger]
                after[a].code@ != #[trigger] after[b].code@ by {
                if b < before.len() {
                    assert(before[a].code@ != before[b].code@);
                } else {
                    assert(before[a].code@ != code@);
                }
            }
        }
    }
}

/// The modal postcode.
pub fn modal_code(codes: &[CodeCount]) -> (r: Option<usize>)
    ensures
        match r {
            Some(m) => is_modal(codes@, m as int),
            None => codes@.len() == 0,
        },
{
    if codes.len() == 0 {
        return None;
    }
    let mut m: usize = 0;
    for i in 1..codes.len()
        invariant
            codes@.len() > 0,
            m < i,
            is_modal(codes@.take(i as int), m as int),
    {
        let ghost before = codes@.take(i as int);
        let ghost after = codes@.take(i + 1);
        assert(is_modal(before, m as int));
        assert(after.drop_last() =~= before);
        assert(forall|j: int| 0 <= j < i ==> after[j] == before[j]);
        let better = codes[i].count > codes[m].count || (codes[i].count == codes[m].count && lex_less(
            &chars_of(codes[i].code.as_str()),
            &chars_of(codes[m].code.as_str()),
        ));
        let ghost m0 = m;
        if better {
            m = i;
        }
        proof {
            let old_code = codes@[m0 as int].code@;
            let new_code = codes@[i as int].code@;
            lemma_lex_total(old_code, new_code);
            assert(after[i as int] == codes@[i as int]);
            assert(after[m0 as int] == codes@[m0 as int]);
            assert forall|j: int| 0 <= j < after.len() implies #[trigger] after[j].count
                < after[m as int].count || (after[j].count == after[m as int].count && (
            after[j].code@ == after[m as int].code@ || lex_lt(
                after[m as int].code@,
                after[j].code@,
            ))) by {
                if j < i {
                    assert(before[j].count <= before[m0 as int].count);
                    if better && codes@[i as int].count == before[m0 as int].count && before[j].count
                        == before[m0 as int].count && before[j].code@ != old_code {
                        lemma_lex_transitive(new_code, old_code, before[j].code@);
                    }
                }
            }
        }
    }
    assert(codes@.take(codes@.len() as int) =~= codes@);
    Some(m)
}

impl PostcodeBuilder {
    pub open spec fn wf(&self) -> bool {
        &&& forall|i: int|
            0 <= i < self.tallies@.len() ==> {
                &&& self.positions@.contains_key(#[trigger] self.tallies@[i].locality@)
                &&& self.positions@[self.tallies@[i].locality@] == i
                &&& distinct_codes(self.tallies@[i].codes@)
                &&& all_counted(self.tallies@[i].codes@)
                &&& self.tallies@[i].codes@.len() > 0
            }
        &&& forall|k: Seq<char>| #[trigger]
            self.positions@.contains_key(k) ==> self.positions@[k] < self.tallies@.len()
                && self.tallies@[self.positions@[k] as int].locality@ == k
        &&& forall|l: Seq<char>, c: Seq<char>| #[trigger] self.tally(l, c) <= self.rows
    }

    /// The abbreviation of a state.
    pub open spec fn state(&self, pid: Seq<char>) -> Option<Seq<char>> {
        if self.states@.contains_key(pid) {
            Some(self.states@[pid]@)
        } else {
            None
        }
    }

    /// The name of a locality and the id of its state.
    pub open spec fn locality(&self, pid: Seq<char>) -> Option<(Seq<char>, Seq<char>)> {
        if self.localities@.contains_key(pid) {
            Some((self.localities@[pid].name@, self.localities@[pid].state_pid@))
        } else {
            None
        }
    }

    /// How many addresses of a locality have a postcode.
    pub open spec fn tally(&self, locality: Seq<char>, code: Seq<char>) -> nat {
        if self.positions@.contains_key(locality) {
            code_count(self.tallies@[self.positions@[locality] as int].codes@, code)
        } else {
            0
        }
    }

    /// A builder that has read nothing.
    pub fn new() -> (r: PostcodeBuilder)
        ensures
            r.wf(),
            r.rows == 0,
            r.tallies@.len() == 0,
            forall|p: Seq<char>| #[trigger] r.state(p) is None,
            forall|p: Seq<char>| #[trigger] r.locality(p) is None,
            forall|l: Seq<char>, c: Seq<char>| #[trigger] r.tally(l, c) == 0,
    {
        PostcodeBuilder {
            states: StringHashMap::new(),
            localities: StringHashMap::new(),
            tallies: Vec::new(),
            positions: StringHashMap::new(),
            rows: 0,
        }
    }

    /// Reads a row of the state table.
    pub fn add_state(&mut self, fields: &[String])
        requires
            old(self).wf(),
        ensures
            final(self).wf(),
            forall|p: Seq<char>| #[trigger]
                final(self).state(p) == (match state_entry(string_views(fields@)) {
                    Some((pid, abbr)) if p == pid => Some(abbr),
                    _ => old(self).state(p),
                }),
            final(self).localities == old(self).localities,
            final(self).tallies == old(self).tallies,
            final(self).positions == old(self).positions,
            final(self).rows == old(self).rows,
    {
        let ghost row = string_views(fields@);
        if fields.len() >= 5 {
            assert(row[0] == fields@[0]@ && row[4] == fields@[4]@);
            if !fields[0].as_str().is_empty() && !fields[4].as_str().is_empty() {
                self.states.insert(fields[0].clone(), fields[4].clone());
            }
        }
        assert(forall|l: Seq<char>, c: Seq<char>| #[trigger]
            self.tally(l, c) == old(self).tally(l, c));
    }

    /// Reads a row of the locality table.
    pub fn add_locality(&mut self, fields: &[String])
        requires
            old(self).wf(),
        ensures
            final(self).wf(),
            forall|p: Seq<char>| #[trigger]
                final(self).locality(p) == (match locality_entry(string_views(fields@)) {
                    Some((pid, entry)) if p == pid => Some(entry),
                    _ => old(self).locality(p),
                }),
            final(self).states == old(self).states,
            final(self).tallies == old(self).tallies,
            final(self).positions == old(self).positions,
            final(self).rows == old(self).rows,
    {
        let ghost row = string_views(fields@);
        if fields.len() >= 7 {
            assert(row[0] == fields@[0]@ && row[2] == fields@[2]@ && row[3] == fields@[3]@ && row[6]
                == fields@[6]@);
            if !fields[0].as_str().is_empty() && !fields[3].as_str().is_empty()
                && !fields[6].as_str().is_empty() && fields[2].as_str().is_empty() {
                self.localities.insert(
                    fields[0].clone(),
                    Locality { name: fields[3].clone(), state_pid: fields[6].clone() },
                );
            }
        }
        assert(forall|l: Seq<char>, c: Seq<char>| #[trigger]
            self.tally(l, c) == old(self).tally(l, c));
    }

    /// Reads a row of the address table.
    pub fn add_address(&mut self, fields: &[String])
        requires
            old(self).wf(),
            old(self).rows < u32::MAX,
        ensures
            final(self).wf(),
            forall|l: Seq<char>, c: Seq<char>| #[trigger]
                final(self).tally(l, c) == (match address_entry(string_views(fields@)) {
                    Some((pid, code)) if l == pid && c == code => old(self).tally(l, c) + 1,
                    _ => old(self).tally(l, c),
                }),
            final(self).rows == (if address_entry(string_views(fields@)) is Some {
                old(self).rows + 1
            } else {
                old(self).rows as int
            }),
            address_entry(string_views(fields@)) is None ==> *final(self) == *old(self),
            final(self).states == old(self).states,
            final(self).localities == old(self).localities,
    {
        let ghost row = string_views(fields@);
        if fields.len() <= 26 {
            return ;
        }
        assert(row[24] == fields@[24]@ && row[26] == fields@[26]@ && row[3] == fields@[3]@);
        if fields[24].as_str().is_empty() || fields[26].as_str().is_empty()
            || !fields[3].as_str().is_empty() {
            return ;
        }
        let pid = fields[24].as_str();
        let code = fields[26].as_str();
        let ghost before = *self;
        assert(self.tally(pid@, code@) <= self.rows);
        match self.positions.get(pid) {
            Some(at) => {
                let at: usize = *at;
                let ghost old_codes = self.tallies@[at as int].codes@;
                self.tallies[at].add(code);
                proof {
                    assert(forall|i: int|
                        0 <= i < self.tallies@.len() && i != at ==> #[trigger] self.tallies@[i]
                            == before.tallies@[i]);
                    assert(self.tallies@[at as int].locality@ == pid@);
                    assert forall|l: Seq<char>, c: Seq<char>| #[trigger] self.tally(l, c) == (if l
                        == pid@ && c == code@ {
                        before.tally(l, c) + 1
                    } else {
                        before.tally(l, c)
                    }) by {
                        if l != pid@ && self.positions@.contains_key(l) {
                            assert(self.positions@[l] != at);
                        }
                    }
                    assert forall|i: int| 0 <= i < self.tallies@.len() implies {
                        &&& self.positions@.contains_key(#[trigger] self.tallies@[i].locality@)
                        &&& self.positions@[self.tallies@[i].locality@] == i
                        &&& distinct_codes(self.tallies@[i].codes@)
                        &&& all_counted(self.tallies@[i].codes@)
                        &&& self.tallies@[i].codes@.len() > 0
                    } by {
                        assert(before.positions@.contains_key(before.tallies@[i].locality@));
                    }
                }
            },
            None => {
                let at: usize = self.tallies.len();
                let mut codes: Vec<CodeCount> = Vec::new();
                codes.push(CodeCount { code: code.to_owned(), count: 1 });
                let ghost fresh = codes@;
                self.tallies.push(LocalityTally { locality: pid.to_owned(), codes });
                self.positions.insert(pid.to_owned(), at);
                proof {
                    assert(fresh.drop_last() =~= Seq::<CodeCount>::empty());
                    assert(forall|i: int|
                        0 <= i < at ==> #[trigger] self.tallies@[i] == before.tallies@[i]);
                    assert forall|l: Seq<char>, c: Seq<char>| #[trigger] self.tally(l, c) == (if l
                        == pid@ && c == code@ {
                        before.tally(l, c) + 1
                    } else {
                        before.tally(l, c)
                    }) by {
                        assert(code_count(fresh.drop_last(), c) == 0);
                        if l != pid@ && self.positions@.contains_key(l) {
                            assert(before.positions@.contains_key(l));
                            assert(before.positions@[l] < at);
                        }
                    }
                    assert forall|i: int| 0 <= i < self.tallies@.len() implies {
                        &&& self.positions@.contains_key(#[trigger] self.tallies@[i].locality@)
                        &&& self.positions@[self.tallies@[i].locality@] == i
                        &&& distinct_codes(self.tallies@[i].codes@)
                        &&& all_counted(self.tallies@[i].codes@)
                        &&& self.tallies@[i].codes@.len() > 0
                    } by {
                        if i < at {
                            assert(before.positions@.contains_key(before.tallies@[i].locality@));
                        }
                    }
                    assert forall|k: Seq<char>| #[trigger] self.positions@.contains_key(k) implies self.positions@[k]
                        < self.tallies@.len() && self.tallies@[self.positions@[k] as int].locality@ == k by {
                        if k != pid@ {
                            assert(before.positions@.contains_key(k));
                        }
                    }
                }
            },
        }
        let ghost mid = *self;
        self.rows = self.rows + 1;
        proof {
            assert forall|l: Seq<char>, c: Seq<char>| #[trigger] self.tally(l, c) == (if l == pid@ && c
                == code@ {
                before.tally(l, c) + 1
            } else {
                before.tally(l, c)
            }) by {
                assert(self.tally(l, c) == mid.tally(l, c));
            }
            assert forall|l: Seq<char>, c: Seq<char>| #[trigger] self.tally(l, c) <= self.rows by {
                assert(before.tally(l, c) <= before.rows);
            }
        }
    }

    /// Whether record `r` says what tally `t` comes to: the modal postcode of
    /// a known locality in a known state, under the key of the two.
    pub open spec fn record_of(&self, t: LocalityTally, r: PostcodeRecord) -> bool {
        &&& self.locality(t.locality@) matches Some((name, pid))
        &&& self.state(pid) matches Some(abbr)
        &&& r.key_hash == key_of(abbr, name)
        &&& exists|m: int| #[trigger] is_modal(t.codes@, m) && t.codes@[m].code@ == r.postcode@
    }

    /// Whether the locality of a tally and its state are known.
    pub open spec fn resolves(&self, t: LocalityTally) -> bool {
        self.locality(t.locality@) matches Some((name, pid)) && self.state(pid) is Some
    }

    /// How many of the first `n` tallies resolve.
    pub open spec fn resolved(&self, n: int) -> nat
        decreases n,
    {
        if n <= 0 {
            0
        } else {
            self.resolved(n - 1) + if self.resolves(self.tallies@[n - 1]) {
                1nat
            } else {
                0nat
            }
        }
    }

    /// A locality has a tally exactly where an address of it counts.
    pub proof fn law_tallies_have_addresses(&self, locality: Seq<char>)
        requires
            self.wf(),
        ensures
            self.positions@.contains_key(locality) <==> exists|c: Seq<char>| #[trigger]
                self.tally(locality, c) > 0,
    {
        if self.positions@.contains_key(locality) {
            let t = self.tallies@[self.positions@[locality] as int];
            assert(self.positions@.contains_key(t.locality@));
            lemma_code_count_at(t.codes@, 0);
            assert(self.tally(locality, t.codes@[0].code@) > 0);
        }
    }

    /// The records to be written: one for each tally that resolves, in order.
    pub fn records(&self) -> (r: Vec<PostcodeRecord>)
        requires
            self.wf(),
        ensures
            r@.len() == self.resolved(self.tallies@.len() as int),
            forall|i: int|
                0 <= i < self.tallies@.len() && self.resolves(#[trigger] self.tallies@[i])
                    ==> self.record_of(self.tallies@[i], r@[self.resolved(i) as int]),
    {
        let mut out: Vec<PostcodeRecord> = Vec::new();
        for i in 0..self.tallies.len()
            invariant
                self.wf(),
                out@.len() == self.resolved(i as int),
                forall|j: int|
                    0 <= j < i && self.resolves(#[trigger] self.tallies@[j]) ==> self.resolved(j)
                        < out@.len() && self.record_of(
                        self.tallies@[j],
                        out@[self.resolved(j) as int],
                    ),
        {
            let t = &self.tallies[i];
            let ghost before = out@;
            assert(self.positions@.contains_key(self.tallies@[i as int].locality@));
            match self.localities.get(t.locality.as_str()) {
                Some(place) => match self.states.get(place.state_pid.as_str()) {
                    Some(abbr) => match modal_code(t.codes.as_slice()) {
                        Some(m) => {
                            let rec = PostcodeRecord {
                                key_hash: lookup_hash(abbr.as_str(), place.name.as_str()),
                                postcode: t.codes[m].code.clone(),
                            };
                            assert(is_modal(t.codes@, m as int));
                            out.push(rec);
                            assert(self.record_of(*t, rec));
                        },
                        None => {},
                    },
                    None => {},
                },
                None => {},
            }
            assert forall|j: int|
                0 <= j < i + 1 && self.resolves(#[trigger] self.tallies@[j]) implies self.resolved(j)
                < out@.len() && self.record_of(self.tallies@[j], out@[self.resolved(j) as int]) by {
                if j < i {
                    assert(out@[self.resolved(j) as int] == before[self.resolved(j) as int]);
                }
            }
        }
        out
    }
}

// --- Laws ---
/// A locality gets the postcode that most of its addresses have; of several that
/// are as frequent, the first in the order of texts. The key of its record is
/// that of its name and of the abbreviation of its state.
pub proof fn law_most_frequent_code_wins(b: PostcodeBuilder, i: int, r: PostcodeRecord)
    requires
        b.wf(),
        0 <= i < b.tallies@.len(),
        b.record_of(b.tallies@[i], r),
    ensures
        ({
            let pid = b.tallies@[i].locality@;
            &&& b.tally(pid, r.postcode@) > 0
            &&& forall|c: Seq<char>|
                c != r.postcode@ ==> (#[trigger] b.tally(pid, c) < b.tally(pid, r.postcode@) || (
                b.tally(pid, c) == b.tally(pid, r.postcode@) && lex_lt(r.postcode@, c)))
            &&& b.localities@.contains_key(pid)
            &&& b.states@.contains_key(b.localities@[pid].state_pid@)
            &&& r.key_hash == key_of(
                b.states@[b.localities@[pid].state_pid@]@,
                b.localities@[pid].name@,
            )
        }),
{
    let t = b.tallies@[i];
    let pid = t.locality@;
    assert(b.positions@.contains_key(pid) && b.positions@[pid] == i);
    let m = choose|m: int| #[trigger] is_modal(t.codes@, m) && t.codes@[m].code@ == r.postcode@;
    lemma_code_count_at(t.codes@, m);
    assert(t.codes@[m].count > 0);
    assert forall|c: Seq<char>| c != r.postcode@ implies (#[trigger] b.tally(pid, c) < b.tally(
        pid,
        r.postcode@,
    ) || (b.tally(pid, c) == b.tally(pid, r.postcode@) && lex_lt(r.postcode@, c))) by {
        if exists|j: int| 0 <= j < t.codes@.len() && #[trigger] t.codes@[j].code@ == c {
            let j = choose|j: int| 0 <= j < t.codes@.len() && #[trigger] t.codes@[j].code@ == c;
            lemma_code_count_at(t.codes@, j);
        } else {
            lemma_code_count_absent(t.codes@, c);
        }
    }
}

/// What rows say: a state has its id in the first column and its abbreviation in
/// the fifth; a locality its id in the first, its name in the fourth and the id
/// of its state in the seventh; an address the id of its locality in the
/// twenty-fifth and its postcode in the twenty-seventh. A row with a date of
/// retirement says nothing.
pub proof fn law_tables_have_their_columns(row: Seq<Seq<char>>)
    requires
        row.len() >= 27,
    ensures
        row[0].len() > 0 && row[4].len() > 0 ==> state_entry(row) == Some((row[0], row[4])),
        row[0].len() > 0 && row[3].len() > 0 && row[6].len() > 0 ==> locality_entry(row) == (if row[2].len()
            == 0 {
            Some((row[0], (row[3], row[6])))
        } else {
            None
        }),
        row[24].len() > 0 && row[26].len() > 0 ==> address_entry(row) == (if row[3].len() == 0 {
            Some((row[24], row[26]))
        } else {
            None
        }),
        row[24].len() == 0 || row[26].len() == 0 ==> address_entry(row) is None,
{
}

/// The lookup that is built of a builder's records gives back, for a locality in
/// its state, the postcode of its record, unless the keys of two localities
/// clash.
pub proof fn law_built_lookup_answers(
    b: PostcodeBuilder,
    records: Seq<PostcodeRecord>,
    entries: Seq<u8>,
    strings: Seq<u8>,
    i: int,
    k: int,
)
    requires
        b.wf(),
        0 <= i < b.tallies@.len(),
        0 <= k < records.len(),
        b.record_of(b.tallies@[i], records[k]),
        crate::postcode::files_hold(entries, strings, records),
        forall|j: int|
            0 <= j < records.len() && j != k ==> (#[trigger] records[j]).key_hash
                != records[k].key_hash,
        forall|i: int, j: int|
            0 <= i < records.len() && 0 <= j < records[i].postcode@.len()
                ==> #[trigger] records[i].postcode@[j] != '\0',
    ensures
        ({
            let place = b.localities@[b.tallies@[i].locality@];
            crate::postcode::postcode_for(
                entries,
                strings,
                key_of(b.states@[place.state_pid@]@, place.name@),
            ) == Some(records[k].postcode@)
        }),
{
    law_most_frequent_code_wins(b, i, records[k]);
    let key = records[k].key_hash;
    crate::postcode::law_lookup_gives_back(entries, strings, records, key);
    assert(crate::postcode::first_with_key(records, k));
}

} // verus!
