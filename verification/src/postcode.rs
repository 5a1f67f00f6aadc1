//! Postcode by state and locality.
//!
//! The lookup file is a table of 16-byte records sorted by key: the hash of
//! the state and the locality (64 bits), the offset of the postcode in a pool
//! of NUL-terminated strings (32 bits), and padding (32 bits).
use std::collections::hash_map::DefaultHasher;
use std::hash::{Hash, Hasher};
use vstd::endian::{endianness, Endian};
use vstd::prelude::*;
use vstd::std_specs::hash::DefaultHasherAdditionalSpecFns;
use vstd::utf8::{decode_utf8, valid_utf8};
use crate::bytes::{
    ascending, bisect, cstr, cstr_at, find_record, le_digits, lemma_bisect_ascending,
    lemma_le_digits_len, lemma_le_round_trip, lemma_pow256, push_u32, push_u64, read_u32, record_count,
    table_keys, text_at, u32_at, u64_at, utf8_str,
};
use crate::fold::{law_case_insensitive, normalise, normalised, same_but_case};
use crate::sorting::{keyed, pair_lt, sort_positions};
use crate::string_pool::{law_growth_keeps_strings, law_stored_reads_back, stored_at, StringPool};
use crate::text::str_eq;

verus! {

broadcast use vstd::seq::group_seq_axioms;

/// Bytes of a record of the lookup file.
pub const ENTRY_SIZE: usize = 16;

/// What the hash of a string writes to a hasher.
pub uninterp spec fn text_writes(s: Seq<char>) -> Seq<Seq<u8>>;

/// What the hash of a byte array writes to a hasher, on a machine whose `usize`
/// has the given width and byte order: the length of the array is among it.
pub uninterp spec fn array_writes(bytes: Seq<u8>, usize_bits: u32, little: bool) -> Seq<Seq<u8>>;

/// `Hash::hash` of `str`: what it writes to the hasher is a function of the
/// string, for one release of the standard library.
#[verifier::external_body]
fn feed_text(hasher: &mut DefaultHasher, s: &str)
    ensures
        final(hasher)@ == old(hasher)@ + text_writes(s@),
{
    s.hash(hasher);
}

/// `Hash::hash` of an array of one byte: what it writes to the hasher is a
/// function of the byte and of the width and byte order of `usize`, for one
/// release of the standard library.
#[verifier::external_body]
fn feed_byte(hasher: &mut DefaultHasher, b: &[u8; 1])
    ensures
        final(hasher)@ == old(hasher)@ + array_writes(
            b@,
            usize::BITS,
            endianness() == Endian::Little,
        ),
{
    b.hash(hasher);
}

/// What the hash of a bar writes on this machine.
pub open spec fn bar_writes() -> Seq<Seq<u8>> {
    array_writes(seq!['|' as u8], usize::BITS, endianness() == Endian::Little)
}

/// The hash of a state and a locality that are both in normal form: that of a
/// hasher without a seed, fed with the one, a bar, and the other. Nothing is
/// known of what comes out; in particular two pairs may share a hash.
pub open spec fn pair_hash(state: Seq<char>, locality: Seq<char>) -> u64 {
    DefaultHasher::spec_finish(text_writes(state) + bar_writes() + text_writes(locality))
}

/// The key of a state and a locality.
pub open spec fn key_of(state: Seq<char>, locality: Seq<char>) -> u64 {
    pair_hash(normalised(state), normalised(locality))
}

/// Brings a locality name into normal form: diacritics folded, in lower case,
/// single spaces between runs of letters and digits.
pub fn normalise_locality(s: &str) -> (r: String)
    ensures
        r@ == normalised(s@),
{
    normalise(s)
}

/// The key of a state and a locality, the same at build and at query time.
pub fn lookup_hash(state_abbr: &str, locality: &str) -> (r: u64)
    ensures
        r == key_of(state_abbr@, locality@),
{
    let state = normalise_locality(state_abbr);
    let name = normalise_locality(locality);
    let mut hasher = DefaultHasher::new();
    feed_text(&mut hasher, state.as_str());
    feed_byte(&mut hasher, &[124u8]);
    feed_text(&mut hasher, name.as_str());
    proof {
        assert([124u8]@ =~= seq!['|' as u8]);
        assert(hasher@ =~= text_writes(state@) + bar_writes() + text_writes(name@));
    }
    hasher.finish()
}

/// The case of ASCII letters makes no difference to a key.
pub proof fn law_key_ignores_case(s: Seq<char>, t: Seq<char>, a: Seq<char>, b: Seq<char>)
    requires
        same_but_case(s, t),
        same_but_case(a, b),
    ensures
        key_of(s, a) == key_of(t, b),
{
    law_case_insensitive(s, t);
    law_case_insensitive(a, b);
}

// --- Lookup ---
/// The contents of the two lookup files.
#[derive(Clone, Copy)]
pub struct PostcodeLookup<'a> {
    pub entries: &'a [u8],
    pub strings: &'a [u8],
}

/// The text of the NUL-terminated string at `off`, if `off` lies in the pool
/// and the string is UTF-8.
pub open spec fn text_in(pool: Seq<u8>, off: int) -> Option<Seq<char>> {
    if off <= pool.len() && valid_utf8(cstr(pool, off)) {
        Some(decode_utf8(cstr(pool, off)))
    } else {
        None
    }
}

fn read_cstr(pool: &[u8], offset: usize) -> (r: Option<&str>)
    ensures
        match r {
            Some(s) => text_in(pool@, offset as int) == Some(s@),
            None => text_in(pool@, offset as int) is None,
        },
{
    if offset <= pool.len() {
        utf8_str(cstr_at(pool, offset))
    } else {
        None
    }
}

/// The postcode that a pair of lookup files has for a key.
pub open spec fn postcode_for(entries: Seq<u8>, strings: Seq<u8>, key: u64) -> Option<Seq<char>> {
    match bisect(table_keys(entries, 16), key, 0, record_count(entries, 16)) {
        Some(i) => text_in(strings, u32_at(entries, i * 16 + 8) as int),
        None => None,
    }
}

impl<'a> PostcodeLookup<'a> {
    /// Opens the lookup on the contents of its files. Fails where the table is
    /// not a whole number of records.
    pub fn open(entries: &'a [u8], strings: &'a [u8]) -> (r: Option<PostcodeLookup<'a>>)
        ensures
            match r {
                Some(l) => entries@.len() % 16 == 0 && l.entries@ == entries@ && l.strings@
                    == strings@,
                None => entries@.len() % 16 != 0,
            },
    {
        if entries.len() % ENTRY_SIZE != 0 {
            None
        } else {
            Some(PostcodeLookup { entries, strings })
        }
    }

    /// The postcode of a locality in a state (`"NSW"`, `"Baulkham Hills"`).
    pub fn postcode(&self, state_abbr: &str, locality: &str) -> (r: Option<&'a str>)
        ensures
            crate::text::opt_str_view(r) == (if state_abbr@.len() == 0 || locality@.len() == 0 {
                None
            } else {
                postcode_for(self.entries@, self.strings@, key_of(state_abbr@, locality@))
            }),
    {
        if state_abbr.is_empty() || locality.is_empty() {
            return None;
        }
        let key: u64 = lookup_hash(state_abbr, locality);
        match find_record(self.entries, ENTRY_SIZE, key) {
            Some(i) => {
                assert((i + 1) * 16 <= self.entries.len());
                let off: u32 = read_u32(self.entries, i * ENTRY_SIZE + 8);
                read_cstr(self.strings, off as usize)
            },
            None => None,
        }
    }
}

// --- Writing ---
/// A record of the lookup file.
#[derive(Clone, Copy)]
pub struct RawEntry {
    pub key_hash: u64,
    pub postcode_offset: u32,
    pub _pad: u32,
}

/// The bytes of a record.
pub open spec fn entry_bytes(e: RawEntry) -> Seq<u8> {
    le_digits(e.key_hash as nat, 8) + le_digits(e.postcode_offset as nat, 4) + le_digits(
        e._pad as nat,
        4,
    )
}

/// The bytes of several records, one behind the other.
pub open spec fn all_entry_bytes(es: Seq<RawEntry>) -> Seq<u8>
    decreases es.len(),
{
    if es.len() == 0 {
        Seq::empty()
    } else {
        all_entry_bytes(es.drop_last()) + entry_bytes(es.last())
    }
}

impl RawEntry {
    /// The bytes of the record.
    pub fn to_le_bytes(self) -> (r: [u8; 16])
        ensures
            r@ == entry_bytes(self),
    {
        let mut v: Vec<u8> = Vec::new();
        push_u64(&mut v, self.key_hash);
        push_u32(&mut v, self.postcode_offset);
        push_u32(&mut v, self._pad);
        proof {
            lemma_le_digits_len(self.key_hash as nat, 8);
            lemma_le_digits_len(self.postcode_offset as nat, 4);
            lemma_le_digits_len(self._pad as nat, 4);
        }
        assert(v@ =~= entry_bytes(self));
        let r = [
            v[0],
            v[1],
            v[2],
            v[3],
            v[4],
            v[5],
            v[6],
            v[7],
            v[8],
            v[9],
            v[10],
            v[11],
            v[12],
            v[13],
            v[14],
            v[15],
        ];
        assert(r@ =~= v@);
        r
    }
}

proof fn lemma_entry_fields(es: Seq<RawEntry>, k: int)
    requires
        0 <= k < es.len(),
    ensures
        all_entry_bytes(es).len() == 16 * es.len(),
        u64_at(all_entry_bytes(es), k * 16) == es[k].key_hash,
        u32_at(all_entry_bytes(es), k * 16 + 8) == es[k].postcode_offset,
    decreases es.len(),
{
    let front = es.drop_last();
    let e = es.last();
    let b = all_entry_bytes(es);
    let f = all_entry_bytes(front);
    lemma_entries_len(front);
    lemma_le_digits_len(e.key_hash as nat, 8);
    lemma_le_digits_len(e.postcode_offset as nat, 4);
    lemma_le_digits_len(e._pad as nat, 4);
    if k < front.len() {
        lemma_entry_fields(front, k);
        assert(b.subrange(k * 16, k * 16 + 8) =~= f.subrange(k * 16, k * 16 + 8));
        assert(b.subrange(k * 16 + 8, k * 16 + 12) =~= f.subrange(k * 16 + 8, k * 16 + 12));
    } else {
        lemma_pow256();
        lemma_le_round_trip(e.key_hash as nat, 8);
        lemma_le_round_trip(e.postcode_offset as nat, 4);
        assert(b.subrange(k * 16, k * 16 + 8) =~= le_digits(e.key_hash as nat, 8));
        assert(b.subrange(k * 16 + 8, k * 16 + 12) =~= le_digits(e.postcode_offset as nat, 4));
    }
}

proof fn lemma_entries_len(es: Seq<RawEntry>)
    ensures
        all_entry_bytes(es).len() == 16 * es.len(),
    decreases es.len(),
{
    if es.len() > 0 {
        let e = es.last();
        lemma_entries_len(es.drop_last());
        lemma_le_digits_len(e.key_hash as nat, 8);
        lemma_le_digits_len(e.postcode_offset as nat, 4);
        lemma_le_digits_len(e._pad as nat, 4);
    }
}

/// A postcode to be written under a key.
pub struct PostcodeRecord {
    pub key_hash: u64,
    pub postcode: String,
}

/// Whether `i` is the first record with its key.
pub open spec fn first_with_key(records: Seq<PostcodeRecord>, i: int) -> bool {
    &&& 0 <= i < records.len()
    &&& forall|j: int| 0 <= j < i ==> #[trigger] records[j].key_hash != records[i].key_hash
}

/// The bytes that the postcodes take in a pool at most.
pub open spec fn pool_bound(records: Seq<PostcodeRecord>) -> nat
    decreases records.len(),
{
    if records.len() == 0 {
        0
    } else {
        pool_bound(records.drop_last()) + vstd::utf8::encode_utf8(records.last().postcode@).len() + 1
    }
}

/// The two lookup files.
pub struct PostcodeFiles {
    pub entries: Vec<u8>,
    pub strings: Vec<u8>,
    /// How many neighbours in the order of the keys share a key but not a
    /// postcode.
    pub collisions: u64,
}

/// Whether the files hold, under the key of each record, the postcode of the
/// first record with that key, and nothing else.
pub open spec fn files_hold(
    entries: Seq<u8>,
    strings: Seq<u8>,
    records: Seq<PostcodeRecord>,
) -> bool {
    &&& entries.len() % 16 == 0
    &&& ascending(table_keys(entries, 16))
    &&& forall|k: int|
        0 <= k < record_count(entries, 16) ==> #[trigger] holds_some(entries, strings, records, k)
    &&& forall|i: int|
        0 <= i < records.len() ==> table_keys(entries, 16).contains(
            #[trigger] records[i].key_hash,
        )
}

/// Whether entry `k` stands for one of the records.
pub open spec fn holds_some(
    entries: Seq<u8>,
    strings: Seq<u8>,
    records: Seq<PostcodeRecord>,
    k: int,
) -> bool {
    exists|i: int| #[trigger] holds_record(entries, strings, records, k, i)
}

/// Whether entry `k` stands for record `i`.
pub open spec fn holds_record(
    entries: Seq<u8>,
    strings: Seq<u8>,
    records: Seq<PostcodeRecord>,
    k: int,
    i: int,
) -> bool {
    &&& first_with_key(records, i)
    &&& table_keys(entries, 16)[k] == records[i].key_hash
    &&& stored_at(strings, records[i].postcode@, u32_at(entries, k * 16 + 8) as int)
}

/// The keys of the records.
pub open spec fn record_keys(records: Seq<PostcodeRecord>) -> Seq<u64> {
    Seq::new(records.len(), |i: int| records[i].key_hash)
}

/// How many of the first `n` positions of `order` share the key of the position
/// before, but not its postcode.
pub open spec fn conflicts(records: Seq<PostcodeRecord>, order: Seq<u64>, n: int) -> nat
    decreases n,
{
    if n <= 1 {
        0
    } else {
        let a = records[order[n - 2] as int];
        let b = records[order[n - 1] as int];
        conflicts(records, order, n - 1) + if a.key_hash == b.key_hash && a.postcode@
            != b.postcode@ {
            1nat
        } else {
            0nat
        }
    }
}

/// Stores the postcodes of the records in a pool.
fn pool_postcodes(records: &[PostcodeRecord]) -> (r: (Vec<u8>, Vec<u32>))
    requires
        pool_bound(records@) <= u32::MAX,
    ensures
        r.1@.len() == records@.len(),
        forall|i: int|
            0 <= i < records@.len() ==> stored_at(
                r.0@,
                #[trigger] records@[i].postcode@,
                r.1@[i] as int,
            ),
{
    let mut pool = StringPool::empty();
    let mut offsets: Vec<u32> = Vec::new();
    for i in 0..records.len()
        invariant
            pool_bound(records@) <= u32::MAX,
            pool.wf(),
            pool.bytes().len() <= pool_bound(records@.take(i as int)),
            offsets@.len() == i,
            forall|j: int|
                0 <= j < i ==> stored_at(
                    pool.bytes(),
                    #[trigger] records@[j].postcode@,
                    offsets@[j] as int,
                ),
    {
        let ghost before = pool.bytes();
        proof {
            lemma_pool_bound_monotone(records@, i as int);
            assert(records@.take(i + 1).drop_last() =~= records@.take(i as int));
        }
        let off: u32 = pool.intern(records[i].postcode.as_str());
        proof {
            let s = records@[i as int].postcode@;
            assert(pool.offsets().contains_key(s));
            assert forall|j: int| 0 <= j < i implies stored_at(
                pool.bytes(),
                #[trigger] records@[j].postcode@,
                offsets@[j] as int,
            ) by {
                let more = pool.bytes().skip(before.len() as int);
                assert(pool.bytes() =~= before + more);
                law_growth_keeps_strings(before, more, records@[j].postcode@, offsets@[j] as int);
            }
        }
        offsets.push(off);
    }
    (pool.into_bytes(), offsets)
}

proof fn lemma_pool_bound_monotone(records: Seq<PostcodeRecord>, i: int)
    requires
        0 <= i <= records.len(),
    ensures
        pool_bound(records.take(i)) <= pool_bound(records),
    decreases records.len() - i,
{
    if i < records.len() {
        lemma_pool_bound_monotone(records, i + 1);
        assert(records.take(i + 1).drop_last() =~= records.take(i));
    } else {
        assert(records.take(i) =~= records);
    }
}

/// Writes the lookup files. Of several records with the same key the first
/// counts.
pub fn write_lookup(records: &[PostcodeRecord]) -> (r: PostcodeFiles)
    requires
        pool_bound(records@) <= u32::MAX,
    ensures
        files_hold(r.entries@, r.strings@, records@),
        exists|order: Seq<u64>| #[trigger]
            keyed(record_keys(records@), order) && r.collisions == conflicts(
                records@,
                order,
                records@.len() as int,
            ),
{
    let n: usize = records.len();
    let (strings, offsets) = pool_postcodes(records);
    let mut keys: Vec<u64> = Vec::new();
    for i in 0..n
        invariant
            n == records@.len(),
            keys@.len() == i,
            forall|j: int| 0 <= j < i ==> keys@[j] == #[trigger] records@[j].key_hash,
    {
        keys.push(records[i].key_hash);
    }
    let order = sort_positions(&keys);
    let mut entries: Vec<u8> = Vec::new();
    let mut collisions: u64 = 0;
    let ghost mut es: Seq<RawEntry> = Seq::empty();
    let ghost mut from: Seq<int> = Seq::empty();
    for i in 0..n
        invariant
            n == records@.len(),
            n == keys@.len(),
            n == offsets@.len(),
            keyed(keys@, order@),
            forall|j: int| 0 <= j < n ==> keys@[j] == #[trigger] records@[j].key_hash,
            collisions <= i,
            collisions == conflicts(records@, order@, i as int),
            entries@ == all_entry_bytes(es),
            es.len() == from.len(),
            i == 0 ==> es.len() == 0,
            i > 0 ==> es.len() > 0 && es.last().key_hash == keys@[order@[i - 1] as int],
            forall|k: int|
                0 <= k < es.len() ==> {
                    &&& first_with_key(records@, #[trigger] from[k])
                    &&& es[k].key_hash == records@[from[k]].key_hash
                    &&& es[k].postcode_offset == offsets@[from[k]]
                },
            forall|a: int, b: int| 0 <= a < b < es.len() ==> es[a].key_hash < es[b].key_hash,
            forall|j: int|
                0 <= j < i ==> exists|k: int|
                    0 <= k < es.len() && #[trigger] es[k].key_hash == keys@[#[trigger] order@[j] as int],
    {
        let at: usize = order[i] as usize;
        let key: u64 = keys[at];
        assert(order@[i as int] == at);
        let mut fresh = true;
        if i > 0 {
            let prev: usize = order[i - 1] as usize;
            assert(order@[i - 1] == prev);
            fresh = keys[prev] != key;
            if !fresh && !str_eq(records[prev].postcode.as_str(), records[at].postcode.as_str()) {
                collisions += 1;
            }
        }
        let ghost es0 = es;
        if fresh {
            let e = RawEntry { key_hash: key, postcode_offset: offsets[at], _pad: 0 };
            let bytes = e.to_le_bytes();
            for j in 0..16usize
                invariant
                    entries@ == all_entry_bytes(es0) + bytes@.take(j as int),
                    bytes@ == entry_bytes(e),
                    bytes@.len() == 16,
            {
                entries.push(bytes[j]);
                assert(bytes@.take(j + 1) =~= bytes@.take(j as int).push(bytes@[j as int]));
            }
            assert(bytes@.take(16) =~= bytes@);
            proof {
                es = es0.push(e);
                from = from.push(at as int);
                assert(es.drop_last() =~= es0);
                assert(first_with_key(records@, at as int)) by {
                    assert forall|j: int| 0 <= j < at implies #[trigger] records@[j].key_hash
                        != records@[at as int].key_hash by {
                        assert(order@.contains(j as u64));
                        let p = choose|p: int| 0 <= p < order@.len() && order@[p] == j as u64;
                        if keys@[j] == key {
                            if p > i {
                                assert(pair_lt(
                                    (keys@[order@[i as int] as int], order@[i as int]),
                                    (keys@[order@[p] as int], order@[p]),
                                ));
                            } else if p < i {
                                if p < i - 1 {
                                    assert(pair_lt(
                                        (keys@[order@[p] as int], order@[p]),
                                        (keys@[order@[i - 1] as int], order@[i - 1]),
                                    ));
                                }
                                assert(pair_lt(
                                    (keys@[order@[i - 1] as int], order@[i - 1]),
                                    (keys@[order@[i as int] as int], order@[i as int]),
                                ));
                            }
                        }
                    }
                }
                assert forall|a: int, b: int| 0 <= a < b < es.len() implies es[a].key_hash
                    < es[b].key_hash by {
                    if b == es0.len() {
                        assert(pair_lt(
                            (keys@[order@[i - 1] as int], order@[i - 1]),
                            (keys@[order@[i as int] as int], order@[i as int]),
                        ));
                        if a < es0.len() - 1 {
                            assert(es0[a].key_hash < es0[es0.len() - 1].key_hash);
                        }
                    }
                }
                assert(es[es0.len() as int].key_hash == key);
            }
        }
        proof {
            assert forall|j: int| 0 <= j < i + 1 implies exists|k: int|
                0 <= k < es.len() && #[trigger] es[k].key_hash == keys@[#[trigger] order@[j] as int] by {
                if j < i {
                    let k = choose|k: int|
                        0 <= k < es0.len() && #[trigger] es0[k].key_hash == keys@[order@[j] as int];
                    assert(es[k] == es0[k]);
                } else {
                    assert(es[es.len() - 1].key_hash == keys@[order@[i as int] as int]);
                }
            }
        }
    }
    proof {
        assert(keys@ =~= record_keys(records@));
        lemma_entries_len(es);
        let ks = table_keys(entries@, 16);
        assert(record_count(entries@, 16) == es.len());
        assert forall|k: int| 0 <= k < es.len() implies ks[k] == es[k].key_hash && u32_at(
            entries@,
            k * 16 + 8,
        ) == es[k].postcode_offset by {
            lemma_entry_fields(es, k);
        }
        assert forall|k: int| 0 <= k < es.len() implies #[trigger] holds_some(
            entries@,
            strings@,
            records@,
            k,
        ) by {
            assert(first_with_key(records@, from[k]));
            assert(stored_at(
                strings@,
                records@[from[k]].postcode@,
                offsets@[from[k]] as int,
            ));
            assert(holds_record(entries@, strings@, records@, k, from[k]));
        }
        assert forall|i: int| 0 <= i < records@.len() implies ks.contains(
            #[trigger] records@[i].key_hash,
        ) by {
            assert(order@.contains(i as u64));
            let p = choose|p: int| 0 <= p < order@.len() && order@[p] == i as u64;
            let k = choose|k: int|
                0 <= k < es.len() && #[trigger] es[k].key_hash == keys@[order@[p] as int];
            assert(ks[k] == records@[i].key_hash);
        }
    }
    PostcodeFiles { entries, strings, collisions }
}

/// What a lookup gives back of the files: the postcode of the first record with
/// the key (if there is no NUL character in it), and nothing for a key that no
/// record has.
pub proof fn law_lookup_gives_back(
    entries: Seq<u8>,
    strings: Seq<u8>,
    records: Seq<PostcodeRecord>,
    key: u64,
)
    requires
        files_hold(entries, strings, records),
        forall|i: int, j: int|
            0 <= i < records.len() && 0 <= j < records[i].postcode@.len()
                ==> #[trigger] records[i].postcode@[j] != '\0',
    ensures
        forall|i: int|
            first_with_key(records, i) && records[i].key_hash == key ==> postcode_for(
                entries,
                strings,
                key,
            ) == Some(#[trigger] records[i].postcode@),
        (forall|i: int| 0 <= i < records.len() ==> #[trigger] records[i].key_hash != key)
            ==> postcode_for(entries, strings, key) is None,
{
    let ks = table_keys(entries, 16);
    let n = record_count(entries, 16);
    lemma_bisect_ascending(ks, key, 0, n);
    match bisect(ks, key, 0, n) {
        Some(k) => {
            assert(holds_some(entries, strings, records, k));
            let i = choose|i: int| #[trigger] holds_record(entries, strings, records, k, i);
            assert(holds_record(entries, strings, records, k, i));
            let off = u32_at(entries, k * 16 + 8) as int;
            law_stored_reads_back(strings, records[i].postcode@, off);
            let s = records[i].postcode@;
            assert(text_at(strings, off) == s);
            lemma_text_in(strings, s, off);
            assert forall|j: int|
                first_with_key(records, j) && records[j].key_hash == key implies postcode_for(
                entries,
                strings,
                key,
            ) == Some(#[trigger] records[j].postcode@) by {
                if j < i {
                    assert(records[j].key_hash != records[i].key_hash);
                } else if i < j {
                    assert(records[i].key_hash != records[j].key_hash);
                }
            }
        },
        None => {
            assert forall|j: int| first_with_key(records, j) && records[j].key_hash == key implies postcode_for(
                entries,
                strings,
                key,
            ) == Some(#[trigger] records[j].postcode@) by {
                assert(ks.contains(records[j].key_hash));
            }
        },
    }
}

proof fn lemma_text_in(strings: Seq<u8>, s: Seq<char>, off: int)
    requires
        stored_at(strings, s, off),
        forall|i: int| 0 <= i < s.len() ==> #[trigger] s[i] != '\0',
    ensures
        text_in(strings, off) == Some(s),
{
    crate::string_pool::lemma_stored_cstr(strings, s, off);
    vstd::utf8::encode_utf8_valid_utf8(s);
    vstd::utf8::encode_utf8_decode_utf8(s);
}

} // verus!
