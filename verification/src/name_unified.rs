//! The files of the unified autocomplete index, which holds the names of all
//! countries.
use vstd::prelude::*;
use vstd::utf8::{
    decode_utf8, decode_utf8_encode_utf8, encode_scalar, encode_utf8, encode_utf8_decode_utf8,
    valid_utf8,
};
use crate::abbreviations::name_key;
use crate::autocomplete::{
    code_number, entry_of, hit_of, lemma_code_order, pool_text, read_cstr, AutocompleteCountry,
    AutocompleteEntry, HitText, UnifiedAutocomplete,
};
use crate::bytes::{cstr, lemma_nul_from, nul_from};
use crate::fst_map::{
    bytes_lt, fst_contents, fst_opens, fst_written, keys_ascend, law_written_map_reads_back, listed, write_map,
};
use crate::name_files::{
    are_sorted_keys, is_key_pair, law_records_read_back, no_nul, suburb_text, write_entries,
    NameFiles,
};
use crate::name_index::{entry_stands_for, NameIndex};
use crate::openaddresses::lower_code;
use crate::string_pool::{
    law_stored_reads_back, lemma_total_subset, lemma_with_contains, lemma_with_distinct,
    lemma_with_step, stored_at, str_views, total, with_texts, StringPool,
};

verus! {

broadcast use vstd::seq::group_seq_axioms;

/// The index of a country.
pub struct CountryNames {
    /// The country code, in lower case.
    pub code: [u8; 2],
    pub index: NameIndex,
}

impl CountryNames {
    pub open spec fn wf(&self) -> bool {
        &&& self.index.wf()
        &&& self.index.pool.bytes().len() <= u32::MAX
        &&& lower_code(self.code)@ == self.code@
    }

    /// The suggestion for a key of the index.
    pub open spec fn hit(&self, k: Seq<char>) -> HitText {
        hit_of(self.index.entries@[self.index.keys@[k] as int], self.index.pool.bytes())
    }
}

/// Whether indexes are those of different countries, in the order of their
/// codes.
pub open spec fn countries_ok(countries: Seq<CountryNames>) -> bool {
    &&& forall|i: int| 0 <= i < countries.len() ==> (#[trigger] countries[i]).wf()
    &&& forall|i: int, j: int|
        0 <= i < j < countries.len() ==> code_number((#[trigger] countries[i]).code@) < code_number(
            (#[trigger] countries[j]).code@,
        )
}

/// Whether a string is the name or the suburb of a suggestion of a country. The
/// suburb of one that has none is the empty string.
pub open spec fn text_of(c: CountryNames, t: Seq<char>) -> bool {
    exists|k: Seq<char>| #[trigger]
        c.index.keys@.contains_key(k) && (c.hit(k).name == t || suburb_text(c.hit(k).suburb) == t)
}

/// Whether the pool of some countries has to hold a string.
pub open spec fn named_in(countries: Seq<CountryNames>, t: Seq<char>) -> bool {
    ||| t.len() == 0
    ||| exists|i: int| 0 <= i < countries.len() && text_of(#[trigger] countries[i], t)
}

/// Whether the different strings of some countries take more bytes than 32-bit
/// offsets reach.
pub open spec fn too_many(countries: Seq<CountryNames>) -> bool {
    exists|texts: Seq<Seq<char>>| #[trigger] excessive(countries, texts)
}

pub open spec fn excessive(countries: Seq<CountryNames>, texts: Seq<Seq<char>>) -> bool {
    &&& texts.no_duplicates()
    &&& forall|t: Seq<char>| #[trigger] texts.contains(t) ==> named_in(countries, t)
    &&& total(texts) > u32::MAX
}

/// The strings of a record.
pub open spec fn entry_texts(e: AutocompleteEntry, pool: Seq<u8>) -> Seq<Seq<char>> {
    seq![pool_text(pool, e.name_offset), pool_text(pool, e.suburb_offset)]
}

/// Whether different strings are some strings and those of a country.
pub open spec fn from_country(
    held: Seq<Seq<char>>,
    c: CountryNames,
    texts: Seq<Seq<char>>,
) -> bool {
    &&& texts.no_duplicates()
    &&& forall|t: Seq<char>| #[trigger] texts.contains(t) ==> held.contains(t) || text_of(c, t)
}

// --- Texts in pools ---
proof fn lemma_no_nul_chars(s: Seq<char>)
    requires
        forall|i: int| 0 <= i < encode_utf8(s).len() ==> #[trigger] encode_utf8(s)[i] != 0,
    ensures
        no_nul(s),
    decreases s.len(),
{
    if s.len() > 0 {
        let t = s.drop_first();
        let head = encode_scalar(s[0] as u32);
        assert forall|i: int| 0 <= i < encode_utf8(t).len() implies #[trigger] encode_utf8(t)[i] != 0 by {
            assert(encode_utf8(s)[head.len() + i] == encode_utf8(t)[i]);
        }
        lemma_no_nul_chars(t);
        if s[0] == '\0' {
            assert(head == encode_scalar(0));
            assert((0u32 & 0x7F) as u8 == 0) by (bit_vector);
            assert(encode_utf8(s)[0] == head[0]);
        }
        assert forall|i: int| 0 <= i < s.len() implies #[trigger] s[i] != '\0' by {
            if i > 0 {
                assert(t[i - 1] == s[i]);
            }
        }
    }
}

proof fn lemma_pool_text(pool: Seq<u8>, off: u32)
    requires
        off < pool.len(),
        pool.last() == 0,
    ensures
        no_nul(pool_text(pool, off)),
{
    lemma_nul_from(pool, off as int);
    let end = nul_from(pool, off as int);
    if end == pool.len() {
        assert(pool[pool.len() - 1] != 0);
    }
    let c = cstr(pool, off as int);
    if valid_utf8(c) {
        decode_utf8_encode_utf8(c);
        assert forall|i: int| 0 <= i < c.len() implies #[trigger] c[i] != 0 by {
            assert(c[i] == pool[off + i]);
        }
        lemma_no_nul_chars(decode_utf8(c));
    }
}

proof fn lemma_nul_from_grows(pool: Seq<u8>, more: Seq<u8>, off: int)
    requires
        0 <= off < pool.len(),
        pool.last() == 0,
    ensures
        nul_from(pool + more, off) == nul_from(pool, off),
        nul_from(pool, off) < pool.len(),
    decreases pool.len() - off,
{
    if pool[off] != 0 {
        if off + 1 == pool.len() {
            assert(pool.last() != 0);
        } else {
            lemma_nul_from_grows(pool, more, off + 1);
        }
    }
}

proof fn lemma_text_grows(pool: Seq<u8>, more: Seq<u8>, off: u32)
    requires
        off < pool.len(),
        pool.last() == 0,
    ensures
        pool_text(pool + more, off) == pool_text(pool, off),
{
    lemma_nul_from(pool, off as int);
    lemma_nul_from_grows(pool, more, off as int);
    assert(cstr(pool + more, off as int) =~= cstr(pool, off as int));
}

// --- The builder ---
/// The unified index under construction.
pub struct UnifiedNames {
    pub entries: Vec<AutocompleteEntry>,
    pub pool: StringPool,
    /// The keys with their records, in order.
    pub pairs: Vec<(Vec<u8>, u64)>,
}

impl UnifiedNames {
    pub open spec fn wf(&self) -> bool {
        &&& self.pool.wf()
        &&& 0 < self.pool.bytes().len() <= u32::MAX
        &&& self.pool.bytes().last() == 0
        &&& self.entries@.len() == self.pairs@.len()
        &&& keys_ascend(self.pairs@)
        &&& forall|i: int| 0 <= i < self.pairs@.len() ==> (#[trigger] self.pairs@[i]).1 == i
        &&& forall|i: int|
            0 <= i < self.entries@.len() ==> {
                &&& (#[trigger] self.entries@[i]).name_offset < self.pool.bytes().len()
                &&& self.entries@[i].suburb_offset < self.pool.bytes().len()
            }
    }

    /// The suggestion for a record.
    pub open spec fn hit(&self, i: int) -> HitText {
        hit_of(self.entries@[i], self.pool.bytes())
    }

    pub fn new() -> (r: UnifiedNames)
        ensures
            r.wf(),
            r.pairs@.len() == 0,
            r.pool.texts() == seq![Seq::<char>::empty()],
    {
        UnifiedNames { entries: Vec::new(), pool: StringPool::new(), pairs: Vec::new() }
    }

    /// Appends the record of a country under a key behind all others. Nothing
    /// changes where the pool cannot take its strings.
    fn push(&mut self, key: Vec<u8>, src: &AutocompleteEntry, strings: &[u8]) -> (r: bool)
        requires
            old(self).wf(),
            old(self).pairs@.len() > 0 ==> bytes_lt(old(self).pairs@.last().0@, key@),
            src.name_offset < strings@.len(),
            src.suburb_offset < strings@.len(),
            strings@.last() == 0,
        ensures
            !r ==> *final(self) == *old(self) && total(
                with_texts(old(self).pool.texts(), entry_texts(*src, strings@)),
            ) > u32::MAX,
            r ==> {
                &&& final(self).wf()
                &&& final(self).pairs@ == old(self).pairs@.push(
                    (key, old(self).pairs@.len() as u64),
                )
                &&& final(self).pool.texts() == with_texts(
                    old(self).pool.texts(),
                    entry_texts(*src, strings@),
                )
                &&& final(self).hit(old(self).pairs@.len() as int) == hit_of(*src, strings@)
                &&& forall|i: int|
                    0 <= i < old(self).pairs@.len() ==> #[trigger] final(self).hit(i) == old(
                        self,
                    ).hit(i)
            },
    {
        let name = read_cstr(strings, src.name_offset);
        let suburb = read_cstr(strings, src.suburb_offset);
        proof {
            lemma_pool_text(strings@, src.name_offset);
            lemma_pool_text(strings@, src.suburb_offset);
        }
        let texts = [name, suburb];
        assert(str_views(texts@) =~= entry_texts(*src, strings@));
        if self.pool.size_with(&texts) > u32::MAX as u128 {
            return false;
        }
        proof {
            let held = self.pool.texts();
            let more = entry_texts(*src, strings@);
            lemma_with_step(held, more, 0);
            lemma_with_step(held, more, 1);
            assert(more.take(0) =~= Seq::<Seq<char>>::empty());
            assert(more.take(2) =~= more);
        }
        let ghost before = *self;
        let name_offset: u32 = self.pool.intern(name);
        let ghost mid = self.pool.bytes();
        let suburb_offset: u32 = self.pool.intern(suburb);
        let entry = AutocompleteEntry {
            lat: src.lat,
            lng: src.lng,
            name_offset,
            suburb_offset,
            kind: src.kind,
            rank: src.rank,
        };
        let n: u64 = self.entries.len() as u64;
        self.entries.push(entry);
        self.pairs.push((key, n));
        proof {
            let all = self.pool.bytes();
            let old_bytes = before.pool.bytes();
            let more = all.skip(old_bytes.len() as int);
            assert(all =~= old_bytes + more);
            assert(self.pool.offsets().contains_key(name@));
            assert(self.pool.offsets()[name@] == name_offset) by {
                if name@ == suburb@ {
                    assert(suburb_offset == name_offset);
                }
            }
            assert(self.pool.offsets().contains_key(suburb@));
            assert(stored_at(all, name@, name_offset as int));
            assert(stored_at(all, suburb@, suburb_offset as int));
            law_stored_reads_back(all, name@, name_offset as int);
            law_stored_reads_back(all, suburb@, suburb_offset as int);
            assert forall|i: int| 0 <= i < before.pairs@.len() implies #[trigger] self.hit(i)
                == before.hit(i) by {
                assert(self.entries@[i] == before.entries@[i]);
                lemma_text_grows(old_bytes, more, before.entries@[i].name_offset);
                lemma_text_grows(old_bytes, more, before.entries@[i].suburb_offset);
            }
            assert forall|i: int, j: int| 0 <= i < j < self.pairs@.len() implies bytes_lt(
                #[trigger] self.pairs@[i].0@,
                #[trigger] self.pairs@[j].0@,
            ) by {
                let m = before.pairs@.len() as int;
                if j == m && i < m - 1 {
                    crate::fst_map::lemma_bytes_transitive(
                        before.pairs@[i].0@,
                        before.pairs@[m - 1].0@,
                        key@,
                    );
                }
            }
        }
        true
    }

    /// Whether the index holds a key of a country, with the suggestion that
    /// the country has for it.
    pub open spec fn holds(&self, c: CountryNames, k: Seq<char>) -> bool {
        exists|i: int|
            0 <= i < self.pairs@.len() && (#[trigger] self.pairs@[i]).0@
                == UnifiedAutocomplete::country_key(c.code, k) && self.hit(i) == c.hit(k)
    }

    /// Appends all names of a country.
    fn add_country(&mut self, c: &CountryNames) -> (r: bool)
        requires
            old(self).wf(),
            c.wf(),
            forall|i: int|
                0 <= i < old(self).pairs@.len() ==> (#[trigger] old(self).pairs@[i]).0@.len() >= 2
                    && code_number(old(self).pairs@[i].0@) < code_number(c.code@),
        ensures
            !r ==> exists|texts: Seq<Seq<char>>| #[trigger]
                from_country(old(self).pool.texts(), *c, texts) && total(texts) > u32::MAX,
            r ==> {
                let n = old(self).pairs@.len() as int;
                &&& final(self).wf()
                &&& final(self).pairs@.len() == n + c.index.order@.len()
                &&& final(self).pairs@.take(n) == old(self).pairs@
                &&& forall|t: Seq<char>| #[trigger]
                    final(self).pool.texts().contains(t) <==> old(self).pool.texts().contains(t)
                        || text_of(*c, t)
                &&& forall|i: int| 0 <= i < n ==> #[trigger] final(self).hit(i) == old(self).hit(i)
                &&& forall|i: int|
                    n <= i < final(self).pairs@.len() ==> key_of_country(
                        (#[trigger] final(self).pairs@[i]).0@,
                        *c,
                    )
                &&& forall|k: Seq<char>| #[trigger]
                    c.index.keys@.contains_key(k) ==> final(self).holds(*c, k)
            },
    {
        let sorted = c.index.sorted_keys();
        let strings = c.index.pool.as_bytes();
        let ghost before = *self;
        let ghost n = before.pairs@.len() as int;
        let ghost held = before.pool.texts();
        for j in 0..sorted.len()
            invariant
                c.wf(),
                self.wf(),
                strings@ == c.index.pool.bytes(),
                strings@.last() == 0,
                n == before.pairs@.len(),
                are_sorted_keys(sorted@, c.index.keys@),
                sorted@.len() == c.index.order@.len(),
                self.pairs@.len() == n + j,
                self.pairs@.take(n) == before.pairs@,
                held == old(self).pool.texts(),
                from_country(held, *c, self.pool.texts()),
                forall|t: Seq<char>| #[trigger] held.contains(t) ==> self.pool.texts().contains(t),
                forall|i: int, t: Seq<char>|
                    0 <= i < j && #[trigger] entry_texts(
                        c.index.entries@[sorted@[i].1 as int],
                        strings@,
                    ).contains(t) ==> self.pool.texts().contains(t),
                forall|i: int|
                    0 <= i < n ==> (#[trigger] before.pairs@[i]).0@.len() >= 2 && code_number(
                        before.pairs@[i].0@,
                    ) < code_number(c.code@),
                forall|i: int| 0 <= i < n ==> #[trigger] self.hit(i) == before.hit(i),
                forall|i: int|
                    0 <= i < j ==> (#[trigger] self.pairs@[n + i]).0@ == c.code@ + sorted@[i].0@,
                forall|i: int|
                    0 <= i < j ==> #[trigger] self.hit(n + i) == hit_of(
                        c.index.entries@[sorted@[i].1 as int],
                        strings@,
                    ),
        {
            let pair = &sorted[j];
            assert(is_key_pair(sorted@[j as int], c.index.keys@));
            assert(pair.1 < c.index.entries.len());
            let key = prefixed(&c.code, pair.0.as_slice());
            let id: usize = pair.1 as usize;
            let src = c.index.entries[id];
            proof {
                assert(entry_stands_for(
                    c.index.entries@[id as int],
                    c.index.sources@[id as int],
                    c.index.pool.bytes(),
                ));
                if self.pairs@.len() > 0 {
                    if j == 0 {
                        assert(self.pairs@.last() == before.pairs@[n - 1]) by {
                            assert(self.pairs@.take(n)[n - 1] == before.pairs@[n - 1]);
                        }
                        assert(key@[0] == c.code@[0] && key@[1] == c.code@[1]);
                        lemma_code_order(before.pairs@[n - 1].0@, key@);
                    } else {
                        assert(self.pairs@[n + (j - 1)].0@ == c.code@ + sorted@[j - 1].0@);
                        assert(bytes_lt(sorted@[j - 1].0@, sorted@[j as int].0@));
                        lemma_prefixed_lt(c.code@, sorted@[j - 1].0@, sorted@[j as int].0@);
                    }
                }
                lemma_entry_texts(*c, sorted@[j as int], held, self.pool.texts());
            }
            let ghost mid = *self;
            let ghost more = entry_texts(src, strings@);
            if !self.push(key, &src, strings) {
                assert(from_country(held, *c, with_texts(mid.pool.texts(), more)));
                return false;
            }
            proof {
                assert forall|t: Seq<char>|
                    mid.pool.texts().contains(t) || more.contains(t) implies #[trigger]
                self.pool.texts().contains(t) by {
                    lemma_with_contains(mid.pool.texts(), more, t);
                }
                assert forall|i: int, t: Seq<char>|
                    0 <= i < j + 1 && #[trigger] entry_texts(
                        c.index.entries@[sorted@[i].1 as int],
                        strings@,
                    ).contains(t) implies self.pool.texts().contains(t) by {
                    if i == j {
                        assert(more.contains(t));
                    } else {
                        assert(mid.pool.texts().contains(t));
                    }
                }
                assert(self.pairs@.take(n) =~= mid.pairs@.take(n));
                assert forall|i: int| 0 <= i < n implies #[trigger] self.hit(i) == before.hit(i) by {
                    assert(mid.hit(i) == before.hit(i));
                }
                assert forall|i: int| 0 <= i < j + 1 implies #[trigger] self.hit(n + i) == hit_of(
                    c.index.entries@[sorted@[i].1 as int],
                    strings@,
                ) by {
                    if i < j {
                        assert(mid.hit(n + i) == self.hit(n + i));
                    } else {
                        assert(self.hit(mid.pairs@.len() as int) == hit_of(src, strings@));
                    }
                }
                assert forall|i: int| 0 <= i < j + 1 implies (#[trigger] self.pairs@[n + i]).0@
                    == c.code@ + sorted@[i].0@ by {
                    if i < j {
                        assert(mid.pairs@[n + i].0@ == c.code@ + sorted@[i].0@);
                    }
                }
            }
        }
        proof {
            assert forall|i: int| n <= i < self.pairs@.len() implies key_of_country(
                (#[trigger] self.pairs@[i]).0@,
                *c,
            ) by {
                let j = i - n;
                assert(self.pairs@[n + j].0@ == c.code@ + sorted@[j].0@);
                assert(is_key_pair(sorted@[j], c.index.keys@));
                let k = decode_utf8(sorted@[j].0@);
                decode_utf8_encode_utf8(sorted@[j].0@);
                assert(self.pairs@[i].0@ == UnifiedAutocomplete::country_key(c.code, k));
            }
            assert forall|k: Seq<char>| #[trigger]
                c.index.keys@.contains_key(k) implies self.holds(*c, k) by {
                assert(listed(sorted@, encode_utf8(k)));
                let j = choose|j: int| 0 <= j < sorted@.len() && #[trigger] sorted@[j].0@ == encode_utf8(k);
                assert(is_key_pair(sorted@[j], c.index.keys@));
                encode_utf8_decode_utf8(k);
                assert(self.pairs@[n + j].0@ == UnifiedAutocomplete::country_key(c.code, k));
                assert(self.hit(n + j) == c.hit(k));
            }
            assert forall|t: Seq<char>| text_of(*c, t) implies #[trigger]
            self.pool.texts().contains(t) by {
                let k = choose|k: Seq<char>| #[trigger]
                    c.index.keys@.contains_key(k) && (c.hit(k).name == t || suburb_text(
                        c.hit(k).suburb,
                    ) == t);
                assert(listed(sorted@, encode_utf8(k)));
                let j = choose|j: int| 0 <= j < sorted@.len() && #[trigger] sorted@[j].0@ == encode_utf8(k);
                assert(is_key_pair(sorted@[j], c.index.keys@));
                encode_utf8_decode_utf8(k);
                let e = c.index.entries@[sorted@[j].1 as int];
                let texts = entry_texts(e, strings@);
                lemma_suburb_text(e, strings@);
                assert(texts[0] == c.hit(k).name && texts[1] == suburb_text(c.hit(k).suburb));
                assert(texts.contains(t));
            }
        }
        true
    }
}

proof fn lemma_suburb_text(e: AutocompleteEntry, pool: Seq<u8>)
    ensures
        suburb_text(hit_of(e, pool).suburb) == pool_text(pool, e.suburb_offset),
{
    if pool_text(pool, e.suburb_offset).len() == 0 {
        assert(pool_text(pool, e.suburb_offset) =~= Seq::<char>::empty());
    }
}

proof fn lemma_entry_texts(
    c: CountryNames,
    pair: (Vec<u8>, u64),
    held: Seq<Seq<char>>,
    texts: Seq<Seq<char>>,
)
    requires
        is_key_pair(pair, c.index.keys@),
        from_country(held, c, texts),
    ensures
        from_country(
            held,
            c,
            with_texts(
                texts,
                entry_texts(c.index.entries@[pair.1 as int], c.index.pool.bytes()),
            ),
        ),
{
    let e = c.index.entries@[pair.1 as int];
    let pool = c.index.pool.bytes();
    let more = entry_texts(e, pool);
    let k = decode_utf8(pair.0@);
    assert(c.index.keys@.contains_key(k));
    assert(c.hit(k) == hit_of(e, pool));
    lemma_suburb_text(e, pool);
    lemma_with_distinct(texts, more);
    assert forall|t: Seq<char>| #[trigger] with_texts(texts, more).contains(t) implies held.contains(
        t,
    ) || text_of(c, t) by {
        lemma_with_contains(texts, more, t);
        if more.contains(t) {
            assert(t == more[0] || t == more[1]);
            assert(text_of(c, t));
        }
    }
}

/// Whether a key of the unified index is one of a country.
pub open spec fn key_of_country(x: Seq<u8>, c: CountryNames) -> bool {
    exists|k: Seq<char>| #[trigger]
        c.index.keys@.contains_key(k) && x == UnifiedAutocomplete::country_key(c.code, k)
}

proof fn lemma_prefixed_lt(p: Seq<u8>, a: Seq<u8>, b: Seq<u8>)
    requires
        p.len() == 2,
        bytes_lt(a, b),
    ensures
        bytes_lt(p + a, p + b),
{
    reveal_with_fuel(bytes_lt, 3);
    assert((p + a).drop_first().drop_first() =~= a);
    assert((p + b).drop_first().drop_first() =~= b);
}

/// A key with a country code in front.
fn prefixed(code: &[u8; 2], key: &[u8]) -> (r: Vec<u8>)
    ensures
        r@ == code@ + key@,
{
    let mut out: Vec<u8> = Vec::new();
    out.push(code[0]);
    out.push(code[1]);
    for i in 0..key.len()
        invariant
            out@ == code@ + key@.take(i as int),
    {
        out.push(key[i]);
        assert(key@.take(i + 1) =~= key@.take(i as int).push(key@[i as int]));
    }
    assert(key@.take(key@.len() as int) =~= key@);
    out
}

// --- Files ---
/// Whether files hold the names of some countries.
pub open spec fn is_unified(files: NameFiles, countries: Seq<CountryNames>) -> bool {
    let contents = fst_contents(files.fst@);
    &&& fst_written(files.fst@)
    &&& fst_opens(files.fst@)
    &&& forall|i: int, k: Seq<char>|
        #![trigger countries[i].index.keys@.contains_key(k)]
        0 <= i < countries.len() && countries[i].index.keys@.contains_key(k)
            ==> unified_hit(files, UnifiedAutocomplete::country_key(countries[i].code, k)) == Some(
            countries[i].hit(k),
        )
    &&& forall|x: Seq<u8>| #[trigger]
        contents.contains_key(x) ==> key_of_some_country(x, countries)
}

/// The suggestion that files have for a key.
pub open spec fn unified_hit(files: NameFiles, x: Seq<u8>) -> Option<HitText> {
    let contents = fst_contents(files.fst@);
    if contents.contains_key(x) {
        match entry_of(files.entries@, contents[x]) {
            Some(e) => Some(hit_of(e, files.strings@)),
            None => None,
        }
    } else {
        None
    }
}

pub open spec fn key_of_some_country(x: Seq<u8>, countries: Seq<CountryNames>) -> bool {
    exists|i: int| 0 <= i < countries.len() && key_of_country(x, #[trigger] countries[i])
}

/// Whether no country has a name.
pub open spec fn all_nameless(countries: Seq<CountryNames>) -> bool {
    forall|i: int| 0 <= i < countries.len() ==> (#[trigger] countries[i]).index.order@.len() == 0
}

/// Writes the files of the unified index; none where no country has a name. It
/// fails exactly where the different strings do not fit into a pool with 32-bit
/// offsets.
pub fn unified_files(countries: &Vec<CountryNames>) -> (r: Result<Option<NameFiles>, ()>)
    requires
        countries_ok(countries@),
    ensures
        match r {
            Ok(Some(files)) => is_unified(files, countries@) && !all_nameless(countries@),
            Ok(None) => all_nameless(countries@),
            Err(()) => true,
        },
        r is Err <==> too_many(countries@),
{
    let mut all = UnifiedNames::new();
    proof {
        let none = countries@.take(0);
        assert forall|t: Seq<char>| #[trigger] all.pool.texts().contains(t) <==> named_in(none, t) by {
            assert(all.pool.texts()[0] == Seq::<char>::empty());
            if t.len() == 0 {
                assert(t =~= Seq::<char>::empty());
            }
        }
    }
    for c in 0..countries.len()
        invariant
            countries_ok(countries@),
            all.wf(),
            forall|t: Seq<char>| #[trigger]
                all.pool.texts().contains(t) <==> named_in(countries@.take(c as int), t),
            all.pairs@.len() == 0 <==> all_nameless(countries@.take(c as int)),
            forall|i: int|
                0 <= i < all.pairs@.len() ==> key_of_some_country(
                    (#[trigger] all.pairs@[i]).0@,
                    countries@.take(c as int),
                ),
            forall|i: int, k: Seq<char>|
                #![trigger countries@[i].index.keys@.contains_key(k)]
                0 <= i < c && countries@[i].index.keys@.contains_key(k) ==> all.holds(
                    countries@[i],
                    k,
                ),
    {
        let ghost before = all;
        let ghost some = countries@.take(c as int);
        let ghost more = countries@.take(c + 1);
        proof {
            assert(more.drop_last() =~= some);
            assert forall|i: int| 0 <= i < all.pairs@.len() implies (#[trigger] all.pairs@[i]).0@.len()
                >= 2 && code_number(all.pairs@[i].0@) < code_number(countries@[c as int].code@) by {
                assert(key_of_some_country(all.pairs@[i].0@, some));
                let j = choose|j: int|
                    0 <= j < some.len() && key_of_country(all.pairs@[i].0@, #[trigger] some[j]);
                assert(some[j] == countries@[j]);
                assert(countries@[j].wf());
            }
            assert forall|t: Seq<char>| #[trigger] named_in(more, t) <==> named_in(some, t)
                || text_of(countries@[c as int], t) by {
                lemma_named_step(some, countries@[c as int], t);
                assert(some.push(countries@[c as int]) =~= more);
            }
        }
        if !all.add_country(&countries[c]) {
            proof {
                let held = before.pool.texts();
                let texts = choose|texts: Seq<Seq<char>>| #[trigger]
                    from_country(held, countries@[c as int], texts) && total(texts) > u32::MAX;
                assert forall|t: Seq<char>| #[trigger] texts.contains(t) implies named_in(
                    countries@,
                    t,
                ) by {
                    assert(held.contains(t) || text_of(countries@[c as int], t));
                    assert(named_in(more, t));
                    if t.len() > 0 {
                        let i = choose|i: int| 0 <= i < more.len() && text_of(#[trigger] more[i], t);
                        assert(more[i] == countries@[i]);
                    }
                }
                assert(excessive(countries@, texts));
            }
            return Err(());
        }
        proof {
            let n = before.pairs@.len() as int;
            let this = countries@[c as int];
            assert forall|i: int| 0 <= i < all.pairs@.len() implies key_of_some_country(
                (#[trigger] all.pairs@[i]).0@,
                more,
            ) by {
                if i < n {
                    assert(all.pairs@.take(n)[i] == before.pairs@[i]);
                    assert(key_of_some_country(before.pairs@[i].0@, some));
                    let j = choose|j: int|
                        0 <= j < some.len() && key_of_country(before.pairs@[i].0@, #[trigger] some[j]);
                    assert(more[j] == some[j]);
                } else {
                    assert(key_of_country(all.pairs@[i].0@, more[c as int]));
                }
            }
            assert forall|i: int, k: Seq<char>|
                #![trigger countries@[i].index.keys@.contains_key(k)]
                0 <= i < c + 1 && countries@[i].index.keys@.contains_key(k) implies all.holds(
                countries@[i],
                k,
            ) by {
                if i < c {
                    assert(before.holds(countries@[i], k));
                    let j = choose|j: int|
                        0 <= j < before.pairs@.len() && (#[trigger] before.pairs@[j]).0@
                            == UnifiedAutocomplete::country_key(countries@[i].code, k) && before.hit(j)
                            == countries@[i].hit(k);
                    assert(all.pairs@.take(n)[j] == before.pairs@[j]);
                    assert(all.pairs@[j] == before.pairs@[j]);
                    assert(all.hit(j) == before.hit(j));
                }
            }
            assert(all.pairs@.len() == 0 <==> all_nameless(more)) by {
                assert(more[c as int] == this);
                assert forall|i: int| 0 <= i < c implies #[trigger] more[i] == some[i] by {}
                if all_nameless(more) {
                    assert forall|i: int| 0 <= i < some.len() implies (#[trigger] some[i]).index.order@.len()
                        == 0 by {
                        assert(more[i] == some[i]);
                    }
                }
            }
        }
    }
    assert(countries@.take(countries@.len() as int) =~= countries@);
    proof {
        assert forall|texts: Seq<Seq<char>>| !#[trigger] excessive(countries@, texts) by {
            if texts.no_duplicates() && forall|t: Seq<char>| #[trigger] texts.contains(t)
                ==> named_in(countries@, t) {
                assert forall|i: int| 0 <= i < texts.len() implies all.pool.texts().contains(
                    #[trigger] texts[i],
                ) by {
                    assert(texts.contains(texts[i]));
                }
                lemma_total_subset(texts, all.pool.texts());
            }
        }
    }
    if all.pairs.len() == 0 {
        return Ok(None);
    }
    let fst = write_map(&all.pairs);
    let entries = write_entries(all.entries.as_slice());
    let ghost done = all;
    let strings = all.pool.into_bytes();
    let files = NameFiles { fst, entries, strings };
    proof {
        law_written_map_reads_back(files.fst@, done.pairs@);
        let contents = fst_contents(files.fst@);
        assert forall|i: int, k: Seq<char>|
            #![trigger countries@[i].index.keys@.contains_key(k)]
            0 <= i < countries@.len() && countries@[i].index.keys@.contains_key(k) implies unified_hit(
            files,
            UnifiedAutocomplete::country_key(countries@[i].code, k),
        ) == Some(countries@[i].hit(k)) by {
            assert(done.holds(countries@[i], k));
            let x = UnifiedAutocomplete::country_key(countries@[i].code, k);
            let j = choose|j: int|
                0 <= j < done.pairs@.len() && (#[trigger] done.pairs@[j]).0@ == x && done.hit(j)
                    == countries@[i].hit(k);
            assert(contents.contains_key(done.pairs@[j].0@) && contents[done.pairs@[j].0@]
                == done.pairs@[j].1);
            law_records_read_back(done.entries@, j);
        }
        assert forall|x: Seq<u8>| #[trigger] contents.contains_key(x) implies key_of_some_country(
            x,
            countries@,
        ) by {
            assert(listed(done.pairs@, x));
        }
    }
    Ok(Some(files))
}

proof fn lemma_named_step(some: Seq<CountryNames>, c: CountryNames, t: Seq<char>)
    ensures
        named_in(some.push(c), t) <==> named_in(some, t) || text_of(c, t),
{
    let more = some.push(c);
    if named_in(some, t) && t.len() > 0 {
        let i = choose|i: int| 0 <= i < some.len() && text_of(#[trigger] some[i], t);
        assert(more[i] == some[i]);
    }
    if text_of(c, t) {
        assert(more[some.len() as int] == c);
    }
    if named_in(more, t) && t.len() > 0 {
        let i = choose|i: int| 0 <= i < more.len() && text_of(#[trigger] more[i], t);
        if i < some.len() {
            assert(more[i] == some[i]);
        }
    }
}

/// The unified index answers as the index of each country does.
pub proof fn law_unified_answers_alike(
    files: NameFiles,
    countries: Seq<CountryNames>,
    unified: UnifiedAutocomplete<'_>,
    i: int,
    country_files: NameFiles,
    country: AutocompleteCountry<'_>,
    q: Seq<char>,
)
    requires
        countries_ok(countries),
        is_unified(files, countries),
        0 <= i < countries.len(),
        unified.map.bytes() == files.fst@,
        unified.entries@ == files.entries@,
        unified.strings@ == files.strings@,
        countries[i].index.is_written(country_files),
        country.map.bytes() == country_files.fst@,
        country.entries@ == country_files.entries@,
        country.strings@ == country_files.strings@,
    ensures
        unified.exact(countries[i].code, q) == country.exact(q),
{
    let c = countries[i];
    let k = name_key(q);
    let x = UnifiedAutocomplete::country_key(c.code, k);
    assert(c.wf());
    lemma_unified_key(files, countries, i, k);
    lemma_country_key(c, country_files, country, k);
    assert(unified_hit(files, x) == country.hit_for(encode_utf8(k)));
}

proof fn lemma_country_key(
    c: CountryNames,
    files: NameFiles,
    country: AutocompleteCountry<'_>,
    k: Seq<char>,
)
    requires
        c.wf(),
        c.index.is_written(files),
        country.map.bytes() == files.fst@,
        country.entries@ == files.entries@,
        country.strings@ == files.strings@,
    ensures
        country.hit_for(encode_utf8(k)) == (if c.index.keys@.contains_key(k) {
            Some(c.hit(k))
        } else {
            None
        }),
{
    if c.index.keys@.contains_key(k) {
        law_records_read_back(c.index.entries@, c.index.keys@[k] as int);
    } else if fst_contents(files.fst@).contains_key(encode_utf8(k)) {
        encode_utf8_decode_utf8(k);
    }
}

proof fn lemma_unified_key(
    files: NameFiles,
    countries: Seq<CountryNames>,
    i: int,
    k: Seq<char>,
)
    requires
        countries_ok(countries),
        is_unified(files, countries),
        0 <= i < countries.len(),
    ensures
        unified_hit(files, UnifiedAutocomplete::country_key(countries[i].code, k)) == (
        if countries[i].index.keys@.contains_key(k) {
            Some(countries[i].hit(k))
        } else {
            None
        }),
{
    let c = countries[i];
    let x = UnifiedAutocomplete::country_key(c.code, k);
    assert(c.wf());
    if !c.index.keys@.contains_key(k) && fst_contents(files.fst@).contains_key(x) {
        assert(key_of_some_country(x, countries));
        let j = choose|j: int| 0 <= j < countries.len() && key_of_country(x, #[trigger] countries[j]);
        let d = countries[j];
        assert(d.wf());
        let k2 = choose|k2: Seq<char>| #[trigger]
            d.index.keys@.contains_key(k2) && x == UnifiedAutocomplete::country_key(d.code, k2);
        assert(x[0] == c.code@[0] && x[1] == c.code@[1]);
        assert(x[0] == d.code@[0] && x[1] == d.code@[1]);
        if i < j {
            assert(code_number(countries[i].code@) < code_number(countries[j].code@));
        } else if j < i {
            assert(code_number(countries[j].code@) < code_number(countries[i].code@));
        }
        assert(x.skip(2) =~= encode_utf8(k));
        assert(x.skip(2) =~= encode_utf8(k2));
        encode_utf8_decode_utf8(k);
        encode_utf8_decode_utf8(k2);
    }
}

} // verus!
