//! The files of the autocomplete indexes: one set for each country, and one for
//! all countries together.
use vstd::prelude::*;
use vstd::utf8::{
    decode_utf8, encode_utf8, encode_utf8_decode_utf8, encode_utf8_valid_utf8, valid_utf8,
};
use crate::autocomplete::{entry_at, entry_of, hit_of, AutocompleteCountry, AutocompleteEntry};
use crate::bytes::{le_digits, lemma_le_digits_len, lemma_le_round_trip, lemma_pow256, push_u32};
use crate::fst_map::{
    bytes_lt, fst_contents, fst_opens, fst_written, keys_ascend, law_written_map_reads_back, lemma_bytes_total,
    listed, write_map,
};
use crate::name_index::{cand_hit, entry_stands_for, in_order, NameIndex};
use crate::sorting::sort_keys;
use crate::string_pool::law_stored_reads_back;

verus! {

broadcast use vstd::seq::group_seq_axioms;

/// The contents of a set of files.
pub struct NameFiles {
    pub fst: Vec<u8>,
    pub entries: Vec<u8>,
    pub strings: Vec<u8>,
}

// --- Records ---
/// The bytes of a record.
pub open spec fn record_bytes(e: AutocompleteEntry) -> Seq<u8> {
    le_digits(e.lat as nat, 4) + le_digits(e.lng as nat, 4) + le_digits(e.name_offset as nat, 4)
        + le_digits(e.suburb_offset as nat, 4) + seq![e.kind, e.rank, 0u8, 0u8]
}

/// The bytes of several records, one behind the other.
pub open spec fn all_record_bytes(es: Seq<AutocompleteEntry>) -> Seq<u8>
    decreases es.len(),
{
    if es.len() == 0 {
        Seq::empty()
    } else {
        all_record_bytes(es.drop_last()) + record_bytes(es.last())
    }
}

proof fn lemma_record_len(e: AutocompleteEntry)
    ensures
        record_bytes(e).len() == 20,
{
    lemma_le_digits_len(e.lat as nat, 4);
    lemma_le_digits_len(e.lng as nat, 4);
    lemma_le_digits_len(e.name_offset as nat, 4);
    lemma_le_digits_len(e.suburb_offset as nat, 4);
}

pub proof fn lemma_records_len(es: Seq<AutocompleteEntry>)
    ensures
        all_record_bytes(es).len() == 20 * es.len(),
    decreases es.len(),
{
    if es.len() > 0 {
        lemma_records_len(es.drop_last());
        lemma_record_len(es.last());
    }
}

proof fn lemma_record_at(before: Seq<u8>, e: AutocompleteEntry, after: Seq<u8>)
    ensures
        entry_at(before + record_bytes(e) + after, before.len() as int) == e,
{
    let all = before + record_bytes(e) + after;
    let b = before.len() as int;
    lemma_record_len(e);
    lemma_pow256();
    lemma_le_round_trip(e.lat as nat, 4);
    lemma_le_round_trip(e.lng as nat, 4);
    lemma_le_round_trip(e.name_offset as nat, 4);
    lemma_le_round_trip(e.suburb_offset as nat, 4);
    assert(all.subrange(b, b + 4) =~= le_digits(e.lat as nat, 4));
    assert(all.subrange(b + 4, b + 8) =~= le_digits(e.lng as nat, 4));
    assert(all.subrange(b + 8, b + 12) =~= le_digits(e.name_offset as nat, 4));
    assert(all.subrange(b + 12, b + 16) =~= le_digits(e.suburb_offset as nat, 4));
}

/// Records read back as they were written.
pub proof fn law_records_read_back(es: Seq<AutocompleteEntry>, k: int)
    requires
        0 <= k < es.len(),
        k <= u64::MAX,
    ensures
        entry_of(all_record_bytes(es), k as u64) == Some(es[k]),
    decreases es.len(),
{
    lemma_records_len(es);
    let front = es.drop_last();
    lemma_records_len(front);
    lemma_record_len(es.last());
    let b = all_record_bytes(es);
    if k == es.len() - 1 {
        lemma_record_at(all_record_bytes(front), es.last(), Seq::empty());
        assert(all_record_bytes(front) + record_bytes(es.last()) + Seq::<u8>::empty() =~= b);
    } else {
        law_records_read_back(front, k);
        let f = all_record_bytes(front);
        let o = k * 20;
        assert(b.subrange(o, o + 4) =~= f.subrange(o, o + 4));
        assert(b.subrange(o + 4, o + 8) =~= f.subrange(o + 4, o + 8));
        assert(b.subrange(o + 8, o + 12) =~= f.subrange(o + 8, o + 12));
        assert(b.subrange(o + 12, o + 16) =~= f.subrange(o + 12, o + 16));
        assert(b[o + 16] == f[o + 16] && b[o + 17] == f[o + 17]);
    }
}

/// Writes records.
pub fn write_entries(entries: &[AutocompleteEntry]) -> (r: Vec<u8>)
    ensures
        r@ == all_record_bytes(entries@),
{
    let mut out: Vec<u8> = Vec::new();
    for i in 0..entries.len()
        invariant
            out@ == all_record_bytes(entries@.take(i as int)),
    {
        assert(entries@.take(i + 1).drop_last() =~= entries@.take(i as int));
        let ghost before = out@;
        let e = entries[i];
        push_u32(&mut out, e.lat);
        push_u32(&mut out, e.lng);
        push_u32(&mut out, e.name_offset);
        push_u32(&mut out, e.suburb_offset);
        out.push(e.kind);
        out.push(e.rank);
        out.push(0);
        out.push(0);
        assert(out@ =~= before + record_bytes(e));
    }
    assert(entries@.take(entries@.len() as int) =~= entries@);
    out
}

// --- Keys in order ---
/// Whether `pairs` are the keys of an index in order, with their records.
pub open spec fn are_sorted_keys(pairs: Seq<(Vec<u8>, u64)>, keys: Map<Seq<char>, u64>) -> bool {
    &&& keys_ascend(pairs)
    &&& forall|k: Seq<char>| #[trigger] keys.contains_key(k) ==> listed(pairs, encode_utf8(k))
    &&& forall|i: int| 0 <= i < pairs.len() ==> #[trigger] is_key_pair(pairs[i], keys)
}

/// Whether a pair is a key of an index and its record.
pub open spec fn is_key_pair(p: (Vec<u8>, u64), keys: Map<Seq<char>, u64>) -> bool {
    let k = decode_utf8(p.0@);
    valid_utf8(p.0@) && keys.contains_key(k) && keys[k] == p.1
}

pub(crate) fn bytes_of(s: &str) -> (r: Vec<u8>)
    ensures
        r@ == encode_utf8(s@),
{
    vstd::slice::slice_to_vec(s.as_bytes())
}

impl NameIndex {
    /// The keys in order, with their records.
    pub fn sorted_keys(&self) -> (r: Vec<(Vec<u8>, u64)>)
        requires
            self.wf(),
        ensures
            are_sorted_keys(r@, self.keys@),
            r@.len() == self.order@.len(),
    {
        let mut pairs: Vec<(Vec<u8>, u64)> = Vec::new();
        for i in 0..self.order.len()
            invariant
                self.wf(),
                pairs@.len() == i,
                forall|j: int|
                    0 <= j < i ==> (#[trigger] pairs@[j]).0@ == encode_utf8(self.order@[j]@)
                        && pairs@[j].1 == self.keys@[self.order@[j]@],
        {
            assert(in_order(self.order@, self.order@[i as int]@));
            assert(self.keys@.contains_key(self.order@[i as int]@));
            match self.keys.get(self.order[i].as_str()) {
                Some(at) => {
                    let at: u64 = *at;
                    pairs.push((bytes_of(self.order[i].as_str()), at));
                },
                None => {},
            }
        }
        let ghost given = pairs@;
        sort_keys(&mut pairs);
        proof {
            let r = pairs@;
            vstd::seq_lib::to_multiset_len(given);
            vstd::seq_lib::to_multiset_len(r);
            assert forall|i: int, j: int| 0 <= i < given.len() && 0 <= j < given.len() && i != j implies (
            #[trigger] given[i]) != (#[trigger] given[j]) by {
                let a = self.order@[i]@;
                let b = self.order@[j]@;
                assert(a != b) by {
                    if i < j {
                        assert(self.order@[i]@ != self.order@[j]@);
                    } else {
                        assert(self.order@[j]@ != self.order@[i]@);
                    }
                }
                encode_utf8_decode_utf8(a);
                encode_utf8_decode_utf8(b);
            }
            assert(given.no_duplicates());
            given.lemma_multiset_has_no_duplicates();
            r.lemma_multiset_has_no_duplicates_conv();
            assert forall|i: int| 0 <= i < r.len() implies given.contains(#[trigger] r[i]) by {
                vstd::seq_lib::to_multiset_contains(r, r[i]);
                vstd::seq_lib::to_multiset_contains(given, r[i]);
            }
            assert forall|i: int| 0 <= i < r.len() implies #[trigger] is_key_pair(r[i], self.keys@) by {
                assert(given.contains(r[i]));
                let j = choose|j: int| 0 <= j < given.len() && given[j] == r[i];
                let k = self.order@[j]@;
                assert(given[j].0@ == encode_utf8(k));
                encode_utf8_decode_utf8(k);
                encode_utf8_valid_utf8(k);
                assert(in_order(self.order@, k));
                assert(self.keys@.contains_key(k));
            }
            assert forall|k: Seq<char>| #[trigger] self.keys@.contains_key(k) implies listed(
                r,
                encode_utf8(k),
            ) by {
                assert(in_order(self.order@, k));
                let j = choose|j: int| 0 <= j < self.order@.len() && #[trigger] self.order@[j]@ == k;
                assert(given[j].0@ == encode_utf8(k));
                vstd::seq_lib::to_multiset_contains(given, given[j]);
                vstd::seq_lib::to_multiset_contains(r, given[j]);
                assert(r.contains(given[j]));
                let i = choose|i: int| 0 <= i < r.len() && r[i] == given[j];
                assert(r[i].0@ == encode_utf8(k));
            }
            assert forall|i: int, j: int| 0 <= i < j < r.len() implies bytes_lt(
                #[trigger] r[i].0@,
                #[trigger] r[j].0@,
            ) by {
                assert(!bytes_lt(r[j].0@, r[i].0@));
                lemma_bytes_total(r[i].0@, r[j].0@);
                if r[i].0@ == r[j].0@ {
                    assert(is_key_pair(r[i], self.keys@));
                    assert(is_key_pair(r[j], self.keys@));
                    assert(given.contains(r[i]) && given.contains(r[j]));
                    let a = choose|a: int| 0 <= a < given.len() && given[a] == r[i];
                    let b = choose|b: int| 0 <= b < given.len() && given[b] == r[j];
                    assert(given[a].0@ == encode_utf8(self.order@[a]@));
                    assert(given[b].0@ == encode_utf8(self.order@[b]@));
                    encode_utf8_decode_utf8(self.order@[a]@);
                    encode_utf8_decode_utf8(self.order@[b]@);
                    assert(self.order@[a]@ == self.order@[b]@);
                    if a < b {
                        assert(self.order@[a]@ != self.order@[b]@);
                    } else if b < a {
                        assert(self.order@[b]@ != self.order@[a]@);
                    }
                    assert(r[i] == r[j]);
                }
            }
        }
        pairs
    }

    /// Whether files hold what an index holds.
    pub open spec fn is_written(&self, files: NameFiles) -> bool {
        &&& fst_written(files.fst@)
        &&& fst_opens(files.fst@)
        &&& files.entries@ == all_record_bytes(self.entries@)
        &&& files.strings@ == self.pool.bytes()
        &&& forall|k: Seq<char>| #[trigger]
            self.keys@.contains_key(k) ==> fst_contents(files.fst@).contains_key(encode_utf8(k))
                && fst_contents(files.fst@)[encode_utf8(k)] == self.keys@[k]
        &&& forall|x: Seq<u8>| #[trigger]
            fst_contents(files.fst@).contains_key(x) ==> valid_utf8(x) && self.keys@.contains_key(
                decode_utf8(x),
            )
    }

    /// Writes the files of the index.
    pub fn files(&self) -> (r: NameFiles)
        requires
            self.wf(),
        ensures
            self.is_written(r),
    {
        let pairs = self.sorted_keys();
        let fst = write_map(&pairs);
        let entries = write_entries(self.entries.as_slice());
        let strings = vstd::slice::slice_to_vec(self.pool.as_bytes());
        proof {
            law_written_map_reads_back(fst@, pairs@);
            assert forall|k: Seq<char>| #[trigger] self.keys@.contains_key(k) implies fst_contents(
                fst@,
            ).contains_key(encode_utf8(k)) && fst_contents(fst@)[encode_utf8(k)] == self.keys@[k] by {
                assert(listed(pairs@, encode_utf8(k)));
                let i = choose|i: int| 0 <= i < pairs@.len() && #[trigger] pairs@[i].0@ == encode_utf8(k);
                assert(is_key_pair(pairs@[i], self.keys@));
                encode_utf8_decode_utf8(k);
            }
            assert forall|x: Seq<u8>| #[trigger] fst_contents(fst@).contains_key(x) implies valid_utf8(x)
                && self.keys@.contains_key(decode_utf8(x)) by {
                assert(listed(pairs@, x));
                let i = choose|i: int| 0 <= i < pairs@.len() && #[trigger] pairs@[i].0@ == x;
                assert(is_key_pair(pairs@[i], self.keys@));
            }
        }
        NameFiles { fst, entries, strings }
    }
}

/// What a lookup gives back of the files of a country: under each key the
/// suggestion of the candidate that has the key (if there is no NUL character
/// in its texts), and nothing under any other.
pub proof fn law_built_index_answers(
    index: NameIndex,
    files: NameFiles,
    country: AutocompleteCountry<'_>,
    k: Seq<char>,
)
    requires
        index.wf(),
        index.is_written(files),
        country.map.bytes() == files.fst@,
        country.entries@ == files.entries@,
        country.strings@ == files.strings@,
        files.strings@.len() <= u32::MAX,
        index.keys@.contains_key(k) ==> no_nul(index.sources@[index.keys@[k] as int].name)
            && no_nul(suburb_text(index.sources@[index.keys@[k] as int].suburb)),
    ensures
        country.hit_for(encode_utf8(k)) == (if index.keys@.contains_key(k) {
            Some(cand_hit(index.sources@[index.keys@[k] as int]))
        } else {
            None
        }),
{
    if index.keys@.contains_key(k) {
        let id = index.keys@[k];
        let e = index.entries@[id as int];
        let c = index.sources@[id as int];
        law_records_read_back(index.entries@, id as int);
        assert(entry_stands_for(e, c, index.pool.bytes()));
        law_stored_reads_back(files.strings@, c.name, e.name_offset as int);
        law_stored_reads_back(files.strings@, suburb_text(c.suburb), e.suburb_offset as int);
        assert(hit_of(e, files.strings@) == cand_hit(c));
    } else if fst_contents(files.fst@).contains_key(encode_utf8(k)) {
        encode_utf8_decode_utf8(k);
    }
}

pub open spec fn no_nul(s: Seq<char>) -> bool {
    forall|i: int| 0 <= i < s.len() ==> #[trigger] s[i] != '\0'
}

pub open spec fn suburb_text(s: Option<Seq<char>>) -> Seq<char> {
    match s {
        Some(t) => t,
        None => Seq::empty(),
    }
}

} // verus!
