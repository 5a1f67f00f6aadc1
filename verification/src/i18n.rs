//! Localised and alternate names.
//!
//! The names file is a table of 16-byte records sorted by entity type, entity
//! id, alias type and language. Each record points into the string pool of the
//! index.
use vstd::prelude::*;
use crate::bytes::{
    bisect, lemma_record_bounds, read_u16, read_u32, record_count, u16_at, u32_at,
};
use crate::metrics::is_letter;
use crate::text::{chars_of, is_ascii_letter, lower_char, to_lower, trim_chars, trim_seq};

verus! {

broadcast use vstd::seq::group_seq_axioms;

/// A record of the names file.
#[derive(Clone, Copy)]
pub struct I18nRecord {
    pub entity_type: u8,
    pub alias_type: u8,
    /// Two ASCII letters, the first in the low byte; zero where the name has
    /// no language.
    pub lang_code: u16,
    pub entity_id: u32,
    pub name_id: u32,
    pub _pad1: u32,
}

pub const RECORD_SIZE: usize = 16;

pub const ENTITY_ADMIN: u8 = 0;

pub const ENTITY_PLACE: u8 = 1;

pub const ENTITY_POI: u8 = 2;

/// `name:<lang>`
pub const ALIAS_PRIMARY: u8 = 0;

/// `official_name`
pub const ALIAS_OFFICIAL: u8 = 1;

/// `alt_name`
pub const ALIAS_ALT: u8 = 2;

/// `short_name`
pub const ALIAS_SHORT: u8 = 3;

/// `old_name`
pub const ALIAS_OLD: u8 = 4;

/// `loc_name`
pub const ALIAS_LOC: u8 = 5;

/// `int_name`
pub const ALIAS_INT: u8 = 6;

/// `reg_name`
pub const ALIAS_REG: u8 = 7;

/// `ref`
pub const ALIAS_REF: u8 = 8;

/// `int_ref`
pub const ALIAS_INT_REF: u8 = 9;

/// `nat_ref`
pub const ALIAS_NAT_REF: u8 = 10;

/// The record at `off`.
pub open spec fn record_at(s: Seq<u8>, off: int) -> I18nRecord {
    I18nRecord {
        entity_type: s[off],
        alias_type: s[off + 1],
        lang_code: u16_at(s, off + 2),
        entity_id: u32_at(s, off + 4),
        name_id: u32_at(s, off + 8),
        _pad1: u32_at(s, off + 12),
    }
}

/// Where an entity stands in the order of the file.
pub open spec fn entity_key(entity_type: u8, entity_id: u32) -> int {
    entity_type * 0x1_0000_0000 + entity_id
}

/// Where a name stands in the order of the file.
pub open spec fn name_key(entity_type: u8, entity_id: u32, alias_type: u8, lang_code: u16) -> int {
    entity_key(entity_type, entity_id) * 0x100_0000 + alias_type * 0x1_0000 + lang_code
}

pub open spec fn record_key(r: I18nRecord) -> int {
    name_key(r.entity_type, r.entity_id, r.alias_type, r.lang_code)
}

/// The contents of the names file.
#[derive(Clone, Copy)]
pub struct I18nNames<'a> {
    pub data: &'a [u8],
}

/// Where an entity stands in the order of the file, as a number.
fn entity_number(entity_type: u8, entity_id: u32) -> (r: u64)
    ensures
        r == entity_key(entity_type, entity_id),
{
    entity_type as u64 * 0x1_0000_0000 + entity_id as u64
}

fn name_number(entity_type: u8, entity_id: u32, alias_type: u8, lang_code: u16) -> (r: u64)
    ensures
        r == name_key(entity_type, entity_id, alias_type, lang_code),
{
    entity_number(entity_type, entity_id) * 0x100_0000 + alias_type as u64 * 0x1_0000
        + lang_code as u64
}

impl<'a> I18nNames<'a> {
    pub open spec fn count(self) -> int {
        record_count(self.data@, 16)
    }

    pub open spec fn record(self, i: int) -> I18nRecord {
        record_at(self.data@, i * 16)
    }

    /// Whether the records stand in the order of the file format.
    pub open spec fn ordered(self) -> bool {
        forall|i: int, j: int|
            0 <= i <= j < self.count() ==> record_key(#[trigger] self.record(i)) <= record_key(
                #[trigger] self.record(j),
            )
    }

    /// Whether record `i` is the name asked for.
    pub open spec fn is_name(
        self,
        i: int,
        entity_type: u8,
        entity_id: u32,
        alias_type: u8,
        lang_code: u16,
    ) -> bool {
        &&& self.is_of(i, entity_type, entity_id)
        &&& self.record(i).alias_type == alias_type
        &&& self.record(i).lang_code == lang_code
    }

    /// Whether record `i` is a name of an entity.
    pub open spec fn is_of(self, i: int, entity_type: u8, entity_id: u32) -> bool {
        self.record(i).entity_type == entity_type && self.record(i).entity_id == entity_id
    }

    /// Opens the contents of a names file. An empty file is as good as none;
    /// one that is not a whole number of records is an error.
    pub fn open(data: &'a [u8]) -> (r: Result<Option<I18nNames<'a>>, ()>)
        ensures
            match r {
                Ok(None) => data@.len() == 0,
                Ok(Some(n)) => data@.len() > 0 && data@.len() % 16 == 0 && n.data@ == data@,
                Err(_) => data@.len() % 16 != 0,
            },
    {
        if data.len() == 0 {
            return Ok(None);
        }
        if data.len() % RECORD_SIZE != 0 {
            return Err(());
        }
        Ok(Some(I18nNames { data }))
    }

    /// The number of records.
    pub fn len(&self) -> (r: usize)
        ensures
            r == self.count(),
    {
        self.data.len() / RECORD_SIZE
    }

    /// The record with the given position.
    pub fn get(&self, i: usize) -> (r: I18nRecord)
        requires
            i < self.count(),
        ensures
            r == self.record(i as int),
    {
        proof {
            lemma_record_bounds(self.data@.len() as int, 16, i as int);
        }
        assert(i * 16 + 16 <= self.data.len());
        let off: usize = i * RECORD_SIZE;
        I18nRecord {
            entity_type: self.data[off],
            alias_type: self.data[off + 1],
            lang_code: read_u16(self.data, off + 2),
            entity_id: read_u32(self.data, off + 4),
            name_id: read_u32(self.data, off + 8),
            _pad1: read_u32(self.data, off + 12),
        }
    }

    /// The keys of the records.
    pub open spec fn keys(self) -> Seq<u64> {
        Seq::new(self.count() as nat, |i: int| record_key(self.record(i)) as u64)
    }

    /// The name that a bisection of the file meets for a key.
    pub open spec fn found(self, entity_type: u8, entity_id: u32, alias_type: u8, lang_code: u16) -> Option<
        u32,
    > {
        match bisect(
            self.keys(),
            name_key(entity_type, entity_id, alias_type, lang_code) as u64,
            0,
            self.count(),
        ) {
            Some(i) => Some(self.record(i).name_id),
            None => None,
        }
    }

    /// The name of an entity for an alias type and a language, as an offset
    /// into the string pool.
    pub fn lookup(&self, entity_type: u8, entity_id: u32, alias_type: u8, lang_code: u16) -> (r:
        Option<u32>)
        ensures
            r == self.found(entity_type, entity_id, alias_type, lang_code),
    {
        let key: u64 = name_number(entity_type, entity_id, alias_type, lang_code);
        let mut lo: usize = 0;
        let mut hi: usize = self.len();
        while lo < hi
            invariant
                key == name_key(entity_type, entity_id, alias_type, lang_code),
                lo <= hi <= self.count(),
                bisect(self.keys(), key, lo as int, hi as int) == bisect(
                    self.keys(),
                    key,
                    0,
                    self.count(),
                ),
            decreases hi - lo,
        {
            let mid: usize = lo + (hi - lo) / 2;
            let rec = self.get(mid);
            let found: u64 = name_number(
                rec.entity_type,
                rec.entity_id,
                rec.alias_type,
                rec.lang_code,
            );
            assert(self.keys()[mid as int] == found);
            if found == key {
                return Some(rec.name_id);
            } else if found < key {
                lo = mid + 1;
            } else {
                hi = mid;
            }
        }
        None
    }

    /// Whether `from..to` is the run of records of an entity.
    pub open spec fn is_run(self, from: int, to: int, entity_type: u8, entity_id: u32) -> bool {
        &&& 0 <= from <= to <= self.count()
        &&& forall|i: int| from <= i < to ==> #[trigger] self.is_of(i, entity_type, entity_id)
        &&& to < self.count() ==> !self.is_of(to, entity_type, entity_id)
        &&& self.ordered() ==> forall|i: int|
            0 <= i < self.count() && !(from <= i < to) ==> !#[trigger] self.is_of(
                i,
                entity_type,
                entity_id,
            )
    }

    /// The names of the records `from..to`.
    pub open spec fn names(self, from: int, to: int) -> Seq<(u8, u16, u32)> {
        Seq::new(
            (to - from) as nat,
            |k: int|
                (
                    self.record(from + k).alias_type,
                    self.record(from + k).lang_code,
                    self.record(from + k).name_id,
                ),
        )
    }

    /// All names of an entity: alias type, language, and offset into the
    /// string pool.
    pub fn alternates_for(&self, entity_type: u8, entity_id: u32) -> (r: Vec<(u8, u16, u32)>)
        ensures
            exists|from: int, to: int| #[trigger]
                self.is_run(from, to, entity_type, entity_id) && r@ == self.names(from, to),
    {
        let key: u64 = entity_number(entity_type, entity_id);
        let n: usize = self.len();
        let mut lo: usize = 0;
        let mut hi: usize = n;
        while lo < hi
            invariant
                key == entity_key(entity_type, entity_id),
                lo <= hi <= n,
                n == self.count(),
                self.ordered() ==> forall|i: int|
                    0 <= i < lo ==> entity_key(
                        #[trigger] self.record(i).entity_type,
                        self.record(i).entity_id,
                    ) < key,
                self.ordered() ==> forall|i: int|
                    hi <= i < n ==> entity_key(
                        #[trigger] self.record(i).entity_type,
                        self.record(i).entity_id,
                    ) >= key,
            decreases hi - lo,
        {
            let mid: usize = lo + (hi - lo) / 2;
            let rec = self.get(mid);
            let found: u64 = entity_number(rec.entity_type, rec.entity_id);
            if found < key {
                assert forall|i: int| self.ordered() && 0 <= i <= mid implies entity_key(
                    #[trigger] self.record(i).entity_type,
                    self.record(i).entity_id,
                ) < key by {
                    assert(record_key(self.record(i)) <= record_key(self.record(mid as int)));
                }
                lo = mid + 1;
            } else {
                assert forall|i: int| self.ordered() && mid <= i < n implies entity_key(
                    #[trigger] self.record(i).entity_type,
                    self.record(i).entity_id,
                ) >= key by {
                    assert(record_key(self.record(mid as int)) <= record_key(self.record(i)));
                }
                hi = mid;
            }
        }
        let from: usize = lo;
        let mut to: usize = lo;
        let mut out: Vec<(u8, u16, u32)> = Vec::new();
        while to < n
            invariant_except_break
                forall|i: int| from <= i < to ==> #[trigger] self.is_of(i, entity_type, entity_id),
            invariant
                from <= to <= n,
                n == self.count(),
                out@ == self.names(from as int, to as int),
            ensures
                forall|i: int| from <= i < to ==> #[trigger] self.is_of(i, entity_type, entity_id),
                to < n ==> !self.is_of(to as int, entity_type, entity_id),
            decreases n - to,
        {
            let rec = self.get(to);
            if rec.entity_type != entity_type || rec.entity_id != entity_id {
                break ;
            }
            out.push((rec.alias_type, rec.lang_code, rec.name_id));
            to += 1;
            assert(out@ =~= self.names(from as int, to as int));
        }
        proof {
            if self.ordered() {
                assert forall|i: int| 0 <= i < self.count() && !(from <= i < to) implies !#[trigger]
                    self.is_of(i, entity_type, entity_id) by {
                    if i < from {
                        assert(entity_key(self.record(i).entity_type, self.record(i).entity_id) < key);
                    } else {
                        assert(record_key(self.record(to as int)) <= record_key(self.record(i)));
                        assert(entity_key(
                            self.record(to as int).entity_type,
                            self.record(to as int).entity_id,
                        ) >= key);
                    }
                }
            }
            assert(self.is_run(from as int, to as int, entity_type, entity_id));
        }
        out
    }
}

/// The packed form of a language tag: its first two letters in lower case.
pub open spec fn lang_code(tag: Seq<char>) -> Option<u16> {
    let t = trim_seq(tag);
    if t.len() >= 2 && is_ascii_letter(t[0]) && is_ascii_letter(t[1]) {
        Some((lower_char(t[0]) as u32 + 256 * (lower_char(t[1]) as u32)) as u16)
    } else {
        None
    }
}

/// Packs a language tag (`"en"`, `"FR"`, `"en-US"`) into the form that the
/// names file stores.
pub fn pack_lang_code(lang: &str) -> (r: Option<u16>)
    ensures
        r == lang_code(lang@),
{
    let t = trim_chars(&chars_of(lang));
    if t.len() >= 2 && is_letter(t[0]) && is_letter(t[1]) {
        let a: u16 = to_lower(t[0]) as u16;
        let b: u16 = to_lower(t[1]) as u16;
        Some(a + 256 * b)
    } else {
        None
    }
}

proof fn lemma_name_key_bounds(entity_type: u8, entity_id: u32, alias_type: u8, lang_code: u16)
    ensures
        0 <= name_key(entity_type, entity_id, alias_type, lang_code) <= u64::MAX,
{
}

proof fn lemma_bisect_ordered(keys: Seq<u64>, key: u64, lo: int, hi: int)
    requires
        forall|i: int, j: int| 0 <= i <= j < keys.len() ==> keys[i] <= keys[j],
        0 <= lo <= hi <= keys.len(),
    ensures
        match bisect(keys, key, lo, hi) {
            Some(i) => lo <= i < hi && keys[i] == key,
            None => forall|i: int| lo <= i < hi ==> keys[i] != key,
        },
    decreases hi - lo,
{
    if lo < hi {
        let mid = lo + (hi - lo) / 2;
        if keys[mid] < key {
            lemma_bisect_ordered(keys, key, mid + 1, hi);
        } else if keys[mid] > key {
            lemma_bisect_ordered(keys, key, lo, mid);
        }
    }
}

/// In a file that is in order, a lookup finds a name of exactly the entity,
/// alias type and language asked for, and misses none.
pub proof fn law_lookup_is_exact(
    names: I18nNames<'_>,
    entity_type: u8,
    entity_id: u32,
    alias_type: u8,
    lang_code: u16,
)
    requires
        names.ordered(),
    ensures
        match names.found(entity_type, entity_id, alias_type, lang_code) {
            Some(id) => exists|i: int|
                0 <= i < names.count() && #[trigger] names.is_name(
                    i,
                    entity_type,
                    entity_id,
                    alias_type,
                    lang_code,
                ) && names.record(i).name_id == id,
            None => forall|i: int|
                0 <= i < names.count() ==> !#[trigger] names.is_name(
                    i,
                    entity_type,
                    entity_id,
                    alias_type,
                    lang_code,
                ),
        },
{
    let keys = names.keys();
    let key = name_key(entity_type, entity_id, alias_type, lang_code);
    lemma_name_key_bounds(entity_type, entity_id, alias_type, lang_code);
    assert forall|i: int| 0 <= i < names.count() implies keys[i] == record_key(names.record(i)) by {
        let r = names.record(i);
        lemma_name_key_bounds(r.entity_type, r.entity_id, r.alias_type, r.lang_code);
    }
    assert forall|i: int, j: int| 0 <= i <= j < keys.len() implies keys[i] <= keys[j] by {
        assert(record_key(names.record(i)) <= record_key(names.record(j)));
    }
    lemma_bisect_ordered(keys, key as u64, 0, names.count());
    match bisect(keys, key as u64, 0, names.count()) {
        Some(i) => {
            assert(record_key(names.record(i)) == key);
            assert(names.is_name(i, entity_type, entity_id, alias_type, lang_code));
        },
        None => {
            assert forall|i: int| 0 <= i < names.count() implies !#[trigger] names.is_name(
                i,
                entity_type,
                entity_id,
                alias_type,
                lang_code,
            ) by {
                assert(keys[i] != key as u64);
            }
        },
    }
}

/// Only the first two letters of a tag count: `en-US` is `en`.
pub proof fn law_subtags_do_not_count(lang: Seq<char>, rest: Seq<char>)
    requires
        lang.len() == 2,
        is_ascii_letter(lang[0]),
        is_ascii_letter(lang[1]),
    ensures
        lang_code(lang + rest) == lang_code(lang),
{
    let s = lang + rest;
    assert(trim_seq(lang) =~= lang);
    lemma_trim_end_keeps(s);
}

proof fn lemma_trim_end_keeps(s: Seq<char>)
    requires
        s.len() >= 2,
        is_ascii_letter(s[0]),
        is_ascii_letter(s[1]),
    ensures
        crate::text::trim_end_seq(s).len() >= 2,
        crate::text::trim_end_seq(s)[0] == s[0],
        crate::text::trim_end_seq(s)[1] == s[1],
    decreases s.len(),
{
    if crate::text::is_white_space(s.last()) {
        lemma_trim_end_keeps(s.drop_last());
    }
}

} // verus!
