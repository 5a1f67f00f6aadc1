//! Collects candidates into the autocomplete indexes of their countries.
use vstd::hash_map::StringHashMap;
use vstd::prelude::*;
use crate::abbreviations::name_key;
use crate::autocomplete::code_number;
use crate::name_candidates::Classified;
use crate::name_index::{cand_texts, indexed_under, CandText, NameIndex};
use crate::autocomplete::AutocompleteEntry;
use crate::string_pool::{total, with_texts};
use crate::name_unified::{countries_ok, CountryNames};
use crate::name_files::suburb_text;
use crate::openaddresses::{code_text, lower_code};
use crate::paths::{concat, join_path, joined};
use crate::text::{append_str, opt_str_view, string_of};

verus! {

broadcast use vstd::seq::group_seq_axioms;

/// The candidates of a country that have a key, in the order in which they
/// came.
pub open spec fn of_country(taken: Seq<(Seq<u8>, CandText)>, cc: Seq<u8>) -> Seq<CandText>
    decreases taken.len(),
{
    if taken.len() == 0 {
        Seq::empty()
    } else {
        let done = of_country(taken.drop_last(), cc);
        if taken.last().0 == cc && name_key(taken.last().1.name).len() > 0 {
            done.push(taken.last().1)
        } else {
            done
        }
    }
}

/// What two streets have in common where one repeats the other: the name, the
/// suburb and the country.
pub open spec fn street_key(name_id: u32, suburb: Option<Seq<char>>, cc: Seq<u8>) -> Seq<char> {
    seq![
        (name_id % 256) as u8 as char,
        (name_id / 256 % 256) as u8 as char,
        (name_id / 65536 % 256) as u8 as char,
        (name_id / 16777216) as u8 as char,
        cc[0] as char,
        cc[1] as char,
    ] + match suburb {
        Some(s) => s,
        None => Seq::empty(),
    }
}

pub(crate) fn make_street_key(name_id: u32, suburb: Option<&str>, cc: &[u8; 2]) -> (r: String)
    ensures
        r@ == street_key(name_id, opt_str_view(suburb), cc@),
{
    let mut out: Vec<char> = Vec::new();
    out.push((name_id % 256) as u8 as char);
    out.push((name_id / 256 % 256) as u8 as char);
    out.push((name_id / 65536 % 256) as u8 as char);
    out.push((name_id / 16777216) as u8 as char);
    out.push(cc[0] as char);
    out.push(cc[1] as char);
    if let Some(s) = suburb {
        append_str(&mut out, s);
    }
    assert(out@ =~= street_key(name_id, opt_str_view(suburb), cc@));
    string_of(&out)
}

/// Streets repeat each other exactly where name, suburb and country are the
/// same. No suburb is the same as an empty one.
pub proof fn law_street_key_distinguishes(
    name_a: u32,
    suburb_a: Option<Seq<char>>,
    cc_a: Seq<u8>,
    name_b: u32,
    suburb_b: Option<Seq<char>>,
    cc_b: Seq<u8>,
)
    requires
        cc_a.len() == 2,
        cc_b.len() == 2,
    ensures
        street_key(name_a, suburb_a, cc_a) == street_key(name_b, suburb_b, cc_b) <==> (name_a
            == name_b && suburb_text(suburb_a)
            == suburb_text(suburb_b) && cc_a == cc_b),
{
    let a = street_key(name_a, suburb_a, cc_a);
    let b = street_key(name_b, suburb_b, cc_b);
    if a == b {
        assert(a.skip(6) =~= suburb_text(suburb_a));
        assert(b.skip(6) =~= suburb_text(suburb_b));
        assert(a[0] == b[0] && a[1] == b[1] && a[2] == b[2] && a[3] == b[3] && a[4] == b[4] && a[5]
            == b[5]);
        assert(forall|x: u8, y: u8| #[trigger] (x as char) == #[trigger] (y as char) ==> x == y);
        assert(cc_a =~= cc_b);
    }
}

/// The indexes of all countries under construction.
pub struct CountryIndexes {
    /// In the order of their codes.
    pub countries: Vec<CountryNames>,
    /// The streets that were taken.
    pub streets: StringHashMap<bool>,
    /// The candidates that were taken, with their countries.
    pub taken: Ghost<Seq<(Seq<u8>, CandText)>>,
}

/// Whether there is an index for a country.
pub open spec fn has_index(countries: Seq<CountryNames>, cc: Seq<u8>) -> bool {
    exists|i: int| 0 <= i < countries.len() && (#[trigger] countries[i]).code@ == cc
}

/// The index of a country that has one.
pub open spec fn index_of(countries: Seq<CountryNames>, cc: Seq<u8>) -> NameIndex {
    let i = choose|i: int| 0 <= i < countries.len() && (#[trigger] countries[i]).code@ == cc;
    countries[i].index
}

/// The strings in the pool of a country. That of a new index has the empty one.
pub open spec fn texts_of(countries: Seq<CountryNames>, cc: Seq<u8>) -> Seq<Seq<char>> {
    if has_index(countries, cc) {
        index_of(countries, cc).pool.texts()
    } else {
        seq![Seq::empty()]
    }
}

/// The records of a country.
pub open spec fn entries_of(countries: Seq<CountryNames>, cc: Seq<u8>) -> Seq<AutocompleteEntry> {
    if has_index(countries, cc) {
        index_of(countries, cc).entries@
    } else {
        Seq::empty()
    }
}

/// The keys of a country, with their records.
pub open spec fn keys_of(countries: Seq<CountryNames>, cc: Seq<u8>) -> Map<Seq<char>, u64> {
    if has_index(countries, cc) {
        index_of(countries, cc).keys@
    } else {
        Map::empty()
    }
}

/// Whether a candidate fits into the index of a country.
pub open spec fn fits(countries: Seq<CountryNames>, cc: Seq<u8>, c: CandText) -> bool {
    total(with_texts(texts_of(countries, cc), cand_texts(c))) <= u32::MAX
}

/// Whether the indexes of the other countries are the same.
pub open spec fn others_stay(
    before: Seq<CountryNames>,
    after: Seq<CountryNames>,
    cc: Seq<u8>,
) -> bool {
    &&& forall|i: int|
        0 <= i < before.len() && (#[trigger] before[i]).code@ != cc ==> after.contains(before[i])
    &&& forall|i: int|
        0 <= i < after.len() && (#[trigger] after[i]).code@ != cc ==> before.contains(after[i])
}

/// Whether the indexes are those from before with a candidate more in one
/// country. A key that a record as prominent has stays with that record.
pub open spec fn took(
    before: Seq<CountryNames>,
    after: Seq<CountryNames>,
    cc: Seq<u8>,
    c: CandText,
) -> bool {
    &&& has_index(after, cc)
    &&& others_stay(before, after, cc)
    &&& texts_of(after, cc) == with_texts(texts_of(before, cc), cand_texts(c))
    &&& if name_key(c.name).len() == 0 {
        &&& entries_of(after, cc) == entries_of(before, cc)
        &&& keys_of(after, cc) == keys_of(before, cc)
    } else {
        &&& entries_of(after, cc).len() == entries_of(before, cc).len() + 1
        &&& entries_of(after, cc).drop_last() == entries_of(before, cc)
        &&& keys_of(after, cc) == NameIndex::keys_with(
            entries_of(after, cc),
            keys_of(before, cc),
            |k: Seq<char>| indexed_under(c, k),
        )
    }
}

impl CountryIndexes {
    pub open spec fn wf(&self) -> bool {
        &&& countries_ok(self.countries@)
        &&& forall|i: int|
            0 <= i < self.countries@.len() ==> (#[trigger] self.countries@[i]).index.complete()
                && self.countries@[i].index.sources@ == of_country(
                self.taken@,
                self.countries@[i].code@,
            )
        &&& forall|i: int|
            0 <= i < self.taken@.len() ==> has_index(
                self.countries@,
                (#[trigger] self.taken@[i]).0,
            )
    }

    pub fn new() -> (r: CountryIndexes)
        ensures
            r.wf(),
            r.taken@.len() == 0,
            r.streets@ == Map::<Seq<char>, bool>::empty(),
    {
        CountryIndexes {
            countries: Vec::new(),
            streets: StringHashMap::new(),
            taken: Ghost(Seq::empty()),
        }
    }

    /// Where the index of a country stands, or has to stand.
    fn position(&self, cc: &[u8; 2]) -> (r: usize)
        requires
            self.wf(),
        ensures
            r <= self.countries@.len(),
            forall|i: int|
                0 <= i < r ==> code_number((#[trigger] self.countries@[i]).code@) < code_number(cc@),
            r < self.countries@.len() ==> code_number(cc@) <= code_number(
                self.countries@[r as int].code@,
            ),
    {
        let want: u32 = cc[0] as u32 * 256 + cc[1] as u32;
        let mut i: usize = 0;
        while i < self.countries.len()
            invariant
                want == code_number(cc@),
                i <= self.countries@.len(),
                forall|j: int|
                    0 <= j < i ==> code_number((#[trigger] self.countries@[j]).code@) < code_number(
                        cc@,
                    ),
            decreases self.countries@.len() - i,
        {
            let code = self.countries[i].code;
            if code[0] as u32 * 256 + code[1] as u32 >= want {
                return i;
            }
            i = i + 1;
        }
        i
    }

    /// Takes a candidate into the index of its country. Nothing changes where
    /// its strings do not fit into the pool of the country.
    pub fn add(&mut self, c: &Classified<'_>) -> (r: bool)
        requires
            old(self).wf(),
            lower_code(c.cc)@ == c.cc@,
        ensures
            final(self).wf(),
            final(self).streets == old(self).streets,
            r == fits(old(self).countries@, c.cc@, c.cand@),
            r ==> took(old(self).countries@, final(self).countries@, c.cc@, c.cand@),
            final(self).taken@ == (if r {
                old(self).taken@.push((c.cc@, c.cand@))
            } else {
                old(self).taken@
            }),
            !r ==> final(self).countries@ == old(self).countries@,
    {
        let at: usize = self.position(&c.cc);
        let ghost before = *self;
        let ghost entry = (c.cc@, c.cand@);
        let present = at < self.countries.len() && self.countries[at].code[0] == c.cc[0]
            && self.countries[at].code[1] == c.cc[1];
        proof {
            lemma_position(self.countries@, c.cc@, at as int);
            if present {
                assert(self.countries@[at as int].code@ =~= c.cc@);
                lemma_index_of(self.countries@, at as int);
            }
        }
        if !present {
            assert(!has_index(self.countries@, c.cc@));
            let mut index = NameIndex::new();
            if !index.has_room(&c.cand) {
                return false;
            }
            let ghost fresh = index;
            index.ingest(&c.cand);
            let names = CountryNames { code: c.cc, index };
            self.countries.insert(at, names);
            self.taken = Ghost(self.taken@.push(entry));
            proof {
                let now = self.countries@;
                assert(now == before.countries@.insert(at as int, names));
                assert(of_country(before.taken@, c.cc@).len() == 0) by {
                    lemma_of_country_empty(before.taken@, c.cc@, before.countries@);
                }
                assert(self.taken@.drop_last() =~= before.taken@);
                assert(names.index.sources@ =~= of_country(self.taken@, c.cc@));
                lemma_insert_ok(before.countries@, names, at as int);
                assert(now[at as int].code@ == c.cc@);
                assert forall|i: int| 0 <= i < now.len() implies (#[trigger] now[i]).index.complete()
                    && now[i].index.sources@ == of_country(self.taken@, now[i].code@) by {
                    if i < at {
                        assert(now[i] == before.countries@[i]);
                        assert(before.countries@[i].code@ != c.cc@);
                    } else if i > at {
                        assert(now[i] == before.countries@[i - 1]);
                        assert(before.countries@[i - 1].code@ != c.cc@);
                    }
                }
                assert forall|i: int| 0 <= i < before.countries@.len() implies has_index(
                    now,
                    (#[trigger] before.countries@[i]).code@,
                ) by {
                    if i < at {
                        assert(now[i] == before.countries@[i]);
                    } else {
                        assert(now[i + 1] == before.countries@[i]);
                    }
                }
                self.lemma_taken(before, entry);
                assert(fresh.entries@ =~= Seq::empty());
                lemma_took_new(before.countries@, names, at as int, c.cand@);
            }
            return true;
        }
        if !self.countries[at].index.has_room(&c.cand) {
            return false;
        }
        assert(self.countries@[at as int].wf());
        self.countries[at].index.ingest(&c.cand);
        self.taken = Ghost(self.taken@.push(entry));
        proof {
            assert(self.taken@.drop_last() =~= before.taken@);
            let now = self.countries@;
            assert(forall|i: int| 0 <= i < now.len() && i != at ==> #[trigger] now[i] == before.countries@[i]);
            assert(now[at as int].code == before.countries@[at as int].code);
            assert(now.len() == before.countries@.len());
            assert forall|i: int| 0 <= i < now.len() implies (#[trigger] now[i]).index.complete()
                && now[i].index.sources@ == of_country(self.taken@, now[i].code@) by {
                assert(before.countries@[i].index.complete());
                if i != at {
                    assert(now[i] == before.countries@[i]);
                    if i < at {
                        assert(code_number(before.countries@[i].code@) < code_number(
                            before.countries@[at as int].code@,
                        ));
                    } else {
                        assert(code_number(before.countries@[at as int].code@) < code_number(
                            before.countries@[i].code@,
                        ));
                    }
                } else {
                    assert(now[i].index.sources@ =~= of_country(self.taken@, now[i].code@));
                }
            }
            assert forall|i: int| 0 <= i < now.len() implies (#[trigger] now[i]).wf() by {
                assert(before.countries@[i].wf());
            }
            assert forall|i: int, j: int| 0 <= i < j < now.len() implies code_number(
                (#[trigger] now[i]).code@,
            ) < code_number((#[trigger] now[j]).code@) by {
                assert(now[i].code == before.countries@[i].code);
                assert(now[j].code == before.countries@[j].code);
            }
            assert forall|i: int| 0 <= i < before.countries@.len() implies has_index(
                now,
                (#[trigger] before.countries@[i]).code@,
            ) by {
                assert(now[i].code == before.countries@[i].code);
            }
            self.lemma_taken(before, entry);
            lemma_took_old(before.countries@, now, at as int, c.cand@);
        }
        true
    }

    /// Takes a street, unless one with the same name and suburb was taken.
    pub fn add_street(&mut self, c: &Classified<'_>) -> (r: bool)
        requires
            old(self).wf(),
            lower_code(c.cc)@ == c.cc@,
        ensures
            final(self).wf(),
            ({
                let key = street_key(c.name_id, c.cand@.suburb, c.cc@);
                if old(self).streets@.contains_key(key) {
                    r && *final(self) == *old(self)
                } else {
                    &&& final(self).streets@ == old(self).streets@.insert(key, true)
                    &&& r == fits(old(self).countries@, c.cc@, c.cand@)
                    &&& r ==> took(old(self).countries@, final(self).countries@, c.cc@, c.cand@)
                    &&& !r ==> final(self).countries@ == old(self).countries@
                    &&& final(self).taken@ == (if r {
                        old(self).taken@.push((c.cc@, c.cand@))
                    } else {
                        old(self).taken@
                    })
                }
            }),
    {
        let key = make_street_key(c.name_id, c.cand.suburb, &c.cc);
        if self.streets.contains_key(key.as_str()) {
            return true;
        }
        self.streets.insert(key, true);
        self.add(c)
    }

    /// How many records and keys the indexes have in all.
    pub fn totals(&self) -> (r: (u128, u128))
        ensures
            r.0 == entry_total(self.countries@),
            r.1 == key_total(self.countries@),
    {
        let mut entries: u128 = 0;
        let mut keys: u128 = 0;
        for i in 0..self.countries.len()
            invariant
                entries == entry_total(self.countries@.take(i as int)),
                keys == key_total(self.countries@.take(i as int)),
                entries <= i * u64::MAX,
                keys <= i * u64::MAX,
        {
            assert(self.countries@.take(i + 1).drop_last() =~= self.countries@.take(i as int));
            let e: usize = self.countries[i].index.entries.len();
            let k: usize = self.countries[i].index.order.len();
            assert(i * u64::MAX + u64::MAX <= u128::MAX) by (nonlinear_arith)
                requires
                    i <= u64::MAX,
            ;
            assert((i + 1) * u64::MAX == i * u64::MAX + u64::MAX) by (nonlinear_arith);
            entries = entries + e as u128;
            keys = keys + k as u128;
        }
        assert(self.countries@.take(self.countries@.len() as int) =~= self.countries@);
        (entries, keys)
    }

    proof fn lemma_taken(&self, before: CountryIndexes, entry: (Seq<u8>, CandText))
        requires
            before.wf(),
            self.taken@ == before.taken@.push(entry),
            has_index(self.countries@, entry.0),
            forall|i: int|
                0 <= i < before.countries@.len() ==> has_index(
                    self.countries@,
                    (#[trigger] before.countries@[i]).code@,
                ),
        ensures
            forall|i: int|
                0 <= i < self.taken@.len() ==> has_index(
                    self.countries@,
                    (#[trigger] self.taken@[i]).0,
                ),
    {
    }
}

/// The records of some indexes.
pub open spec fn entry_total(countries: Seq<CountryNames>) -> nat
    decreases countries.len(),
{
    if countries.len() == 0 {
        0
    } else {
        entry_total(countries.drop_last()) + countries.last().index.entries@.len()
    }
}

/// The keys of some indexes.
pub open spec fn key_total(countries: Seq<CountryNames>) -> nat
    decreases countries.len(),
{
    if countries.len() == 0 {
        0
    } else {
        key_total(countries.drop_last()) + countries.last().index.order@.len()
    }
}

proof fn lemma_position(countries: Seq<CountryNames>, cc: Seq<u8>, at: int)
    requires
        countries_ok(countries),
        0 <= at <= countries.len(),
        forall|i: int|
            0 <= i < at ==> code_number((#[trigger] countries[i]).code@) < code_number(cc),
        at < countries.len() ==> code_number(cc) <= code_number(countries[at].code@),
    ensures
        has_index(countries, cc) ==> at < countries.len() && countries[at].code@ == cc,
{
    if has_index(countries, cc) {
        let i = choose|i: int| 0 <= i < countries.len() && (#[trigger] countries[i]).code@ == cc;
        if i > at {
            assert(code_number(countries[at].code@) < code_number(countries[i].code@));
        }
    }
}

proof fn lemma_index_of(countries: Seq<CountryNames>, at: int)
    requires
        countries_ok(countries),
        0 <= at < countries.len(),
    ensures
        has_index(countries, countries[at].code@),
        index_of(countries, countries[at].code@) == countries[at].index,
{
    let cc = countries[at].code@;
    assert(has_index(countries, cc));
    let i = choose|i: int| 0 <= i < countries.len() && (#[trigger] countries[i]).code@ == cc;
    if i < at {
        assert(code_number(countries[i].code@) < code_number(countries[at].code@));
    } else if i > at {
        assert(code_number(countries[at].code@) < code_number(countries[i].code@));
    }
}

/// What an index has to be for it to have taken a candidate.
spec fn grown(
    texts: Seq<Seq<char>>,
    entries: Seq<AutocompleteEntry>,
    keys: Map<Seq<char>, u64>,
    now: NameIndex,
    c: CandText,
) -> bool {
    &&& now.pool.texts() == with_texts(texts, cand_texts(c))
    &&& if name_key(c.name).len() == 0 {
        &&& now.entries@ == entries
        &&& now.keys@ == keys
    } else {
        &&& now.entries@.len() == entries.len() + 1
        &&& now.entries@.drop_last() == entries
        &&& now.keys@ == NameIndex::keys_with(
            now.entries@,
            keys,
            |k: Seq<char>| indexed_under(c, k),
        )
    }
}

proof fn lemma_took_new(
    countries: Seq<CountryNames>,
    names: CountryNames,
    at: int,
    c: CandText,
)
    requires
        countries_ok(countries.insert(at, names)),
        0 <= at <= countries.len(),
        !has_index(countries, names.code@),
        grown(seq![Seq::empty()], Seq::empty(), Map::empty(), names.index, c),
    ensures
        took(countries, countries.insert(at, names), names.code@, c),
{
    let now = countries.insert(at, names);
    assert(now[at] == names);
    lemma_index_of(now, at);
    assert forall|i: int| 0 <= i < countries.len() implies now.contains(
        #[trigger] countries[i],
    ) by {
        if i < at {
            assert(now[i] == countries[i]);
        } else {
            assert(now[i + 1] == countries[i]);
        }
    }
    assert forall|i: int| 0 <= i < now.len() && (#[trigger] now[i]).code@
        != names.code@ implies countries.contains(now[i]) by {
        if i < at {
            assert(now[i] == countries[i]);
        } else {
            assert(now[i] == countries[i - 1]);
        }
    }
}

proof fn lemma_took_old(
    countries: Seq<CountryNames>,
    now: Seq<CountryNames>,
    at: int,
    c: CandText,
)
    requires
        countries_ok(countries),
        countries_ok(now),
        0 <= at < countries.len(),
        now.len() == countries.len(),
        now[at].code == countries[at].code,
        forall|i: int| 0 <= i < now.len() && i != at ==> #[trigger] now[i] == countries[i],
        grown(
            countries[at].index.pool.texts(),
            countries[at].index.entries@,
            countries[at].index.keys@,
            now[at].index,
            c,
        ),
    ensures
        took(countries, now, countries[at].code@, c),
{
    lemma_index_of(countries, at);
    lemma_index_of(now, at);
    let cc = countries[at].code@;
    assert forall|i: int| 0 <= i < countries.len() && (#[trigger] countries[i]).code@
        != cc implies now.contains(countries[i]) by {
        assert(now[i] == countries[i]);
    }
    assert forall|i: int| 0 <= i < now.len() && (#[trigger] now[i]).code@
        != cc implies countries.contains(now[i]) by {
        assert(now[i] == countries[i]);
    }
}

proof fn lemma_of_country_empty(
    taken: Seq<(Seq<u8>, CandText)>,
    cc: Seq<u8>,
    countries: Seq<CountryNames>,
)
    requires
        !has_index(countries, cc),
        forall|i: int| 0 <= i < taken.len() ==> has_index(countries, (#[trigger] taken[i]).0),
    ensures
        of_country(taken, cc).len() == 0,
    decreases taken.len(),
{
    if taken.len() > 0 {
        assert(has_index(countries, taken[taken.len() - 1].0));
        assert forall|i: int| 0 <= i < taken.drop_last().len() implies has_index(
            countries,
            (#[trigger] taken.drop_last()[i]).0,
        ) by {
            assert(taken.drop_last()[i] == taken[i]);
        }
        lemma_of_country_empty(taken.drop_last(), cc, countries);
    }
}

proof fn lemma_insert_ok(countries: Seq<CountryNames>, names: CountryNames, at: int)
    requires
        countries_ok(countries),
        names.wf(),
        !has_index(countries, names.code@),
        0 <= at <= countries.len(),
        forall|i: int|
            0 <= i < at ==> code_number((#[trigger] countries[i]).code@) < code_number(names.code@),
        at < countries.len() ==> code_number(names.code@) <= code_number(countries[at].code@),
    ensures
        countries_ok(countries.insert(at, names)),
{
    let now = countries.insert(at, names);
    assert forall|i: int| at <= i < countries.len() implies code_number(names.code@) < code_number(
        (#[trigger] countries[i]).code@,
    ) by {
        if i > at {
            assert(code_number(countries[at].code@) < code_number(countries[i].code@));
        } else {
            if code_number(names.code@) == code_number(countries[at].code@) {
                assert(names.code@ =~= countries[at].code@);
            }
        }
    }
    assert forall|i: int| 0 <= i < now.len() implies (#[trigger] now[i]).wf() by {
        if i < at {
            assert(now[i] == countries[i]);
        } else if i > at {
            assert(now[i] == countries[i - 1]);
        }
    }
    assert forall|i: int, j: int| 0 <= i < j < now.len() implies code_number((#[trigger] now[i]).code@)
        < code_number((#[trigger] now[j]).code@) by {
        if j < at {
            assert(now[i] == countries[i] && now[j] == countries[j]);
        } else if j == at {
            assert(now[i] == countries[i]);
        } else if i < at {
            assert(now[i] == countries[i] && now[j] == countries[j - 1]);
        } else if i == at {
            assert(now[j] == countries[j - 1]);
        } else {
            assert(now[i] == countries[i - 1] && now[j] == countries[j - 1]);
        }
    }
}

// --- Files ---
/// The paths of the files of an index.
pub struct NameFilePaths {
    pub fst: String,
    pub entries: String,
    pub strings: String,
}

impl NameFilePaths {
    fn for_prefix(dir: &str, prefix: &str) -> (r: NameFilePaths)
        ensures
            r.fst@ == joined(dir@, prefix@ + ".fst"@),
            r.entries@ == joined(dir@, prefix@ + ".bin"@),
            r.strings@ == joined(dir@, prefix@ + "_strings.bin"@),
    {
        NameFilePaths {
            fst: join_path(dir, concat(prefix, ".fst").as_str()),
            entries: join_path(dir, concat(prefix, ".bin").as_str()),
            strings: join_path(dir, concat(prefix, "_strings.bin").as_str()),
        }
    }

    /// The files of a country.
    pub fn for_country(dir: &str, cc: &[u8; 2]) -> (r: NameFilePaths)
        ensures
            r.fst@ == joined(dir@, "fst_"@ + code_text(*cc) + ".fst"@),
            r.entries@ == joined(dir@, "fst_"@ + code_text(*cc) + ".bin"@),
            r.strings@ == joined(dir@, "fst_"@ + code_text(*cc) + "_strings.bin"@),
    {
        let mut prefix: Vec<char> = Vec::new();
        append_str(&mut prefix, "fst_");
        prefix.push(cc[0] as char);
        prefix.push(cc[1] as char);
        assert(prefix@ =~= "fst_"@ + code_text(*cc));
        Self::for_prefix(dir, string_of(&prefix).as_str())
    }

    /// The files of the unified index.
    pub fn unified(dir: &str) -> (r: NameFilePaths)
        ensures
            r.fst@ == joined(dir@, "fst_unified"@ + ".fst"@),
            r.entries@ == joined(dir@, "fst_unified"@ + ".bin"@),
            r.strings@ == joined(dir@, "fst_unified"@ + "_strings.bin"@),
    {
        Self::for_prefix(dir, "fst_unified")
    }
}

} // verus!
