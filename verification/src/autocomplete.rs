//! Typeahead: names that begin with what was typed.
//!
//! The names of a country are the keys of a sorted map. The value of a key is
//! the position of its record. A unified map holds the names of all countries,
//! each with the country code in front.
use vstd::prelude::*;
use vstd::utf8::encode_utf8;
use crate::abbreviations::{name_key, normalise_prefix};
use crate::bytes::{lemma_record_bounds, read_u32, record_count, str_at, text_at, u32_at};
use crate::fst_map::{begins, bytes_lt, FstMap};
use crate::openaddresses::{code_of, code_text, lower_code, normalise_code, parse_code};
use crate::text::{
    chars_eq, chars_of, lemma_lex_irreflexive, lemma_lex_total, lemma_lex_transitive, lex_less, lex_lt, opt_view, strip_prefix, strip_prefix_seq, strip_suffix,
    strip_suffix_seq,
};

verus! {

broadcast use vstd::seq::group_seq_axioms;

/// Most keys that a walk visits.
pub const FST_WALK_CAP: usize = 10_000;

pub const KIND_PLACE: u8 = 1;

pub const KIND_STREET: u8 = 2;

pub const KIND_POI: u8 = 3;

pub const KIND_POSTCODE: u8 = 5;

/// Fewest bytes of a name that is looked up exactly.
pub const FST_MIN_PREFIX_LEN: usize = 2;

/// Bytes of a record.
pub const ENTRY_SIZE: usize = 20;

/// A record: where the named thing is (binary32 bit patterns), its name and
/// its suburb in the string pool, what it is, and how prominent. A lower rank
/// is more prominent.
#[derive(Clone, Copy, Debug, PartialEq, Eq, Structural)]
pub struct AutocompleteEntry {
    pub lat: u32,
    pub lng: u32,
    pub name_offset: u32,
    pub suburb_offset: u32,
    pub kind: u8,
    pub rank: u8,
}

/// The record at `off`. Two bytes of padding close it.
pub open spec fn entry_at(s: Seq<u8>, off: int) -> AutocompleteEntry {
    AutocompleteEntry {
        lat: u32_at(s, off),
        lng: u32_at(s, off + 4),
        name_offset: u32_at(s, off + 8),
        suburb_offset: u32_at(s, off + 12),
        kind: s[off + 16],
        rank: s[off + 17],
    }
}

/// The record with the given position; none beyond the last.
pub open spec fn entry_of(s: Seq<u8>, id: u64) -> Option<AutocompleteEntry> {
    if id < record_count(s, 20) {
        Some(entry_at(s, id * 20))
    } else {
        None
    }
}

/// Reads the record with the given position.
pub fn read_entry(s: &[u8], id: u64) -> (r: Option<AutocompleteEntry>)
    ensures
        r == entry_of(s@, id),
{
    if id < (s.len() / ENTRY_SIZE) as u64 {
        proof {
            lemma_record_bounds(s@.len() as int, 20, id as int);
        }
        assert(id * 20 + 20 <= s.len());
        let off: usize = id as usize * ENTRY_SIZE;
        Some(
            AutocompleteEntry {
                lat: read_u32(s, off),
                lng: read_u32(s, off + 4),
                name_offset: read_u32(s, off + 8),
                suburb_offset: read_u32(s, off + 12),
                kind: s[off + 16],
                rank: s[off + 17],
            },
        )
    } else {
        None
    }
}

/// A suggestion. The coordinates are bit patterns (binary32).
pub struct Hit {
    pub name: String,
    pub suburb: Option<String>,
    pub kind: u8,
    pub rank: u8,
    pub lat: u32,
    pub lng: u32,
}

/// The content of a [`Hit`].
pub struct HitText {
    pub name: Seq<char>,
    pub suburb: Option<Seq<char>>,
    pub kind: u8,
    pub rank: u8,
    pub lat: u32,
    pub lng: u32,
}

impl View for Hit {
    type V = HitText;

    open spec fn view(&self) -> HitText {
        HitText {
            name: self.name@,
            suburb: opt_view(self.suburb),
            kind: self.kind,
            rank: self.rank,
            lat: self.lat,
            lng: self.lng,
        }
    }
}

pub open spec fn hit_views(hits: Seq<Hit>) -> Seq<HitText> {
    Seq::new(hits.len(), |i: int| hits[i]@)
}

pub open spec fn opt_hit_view(hit: Option<Hit>) -> Option<HitText> {
    match hit {
        Some(h) => Some(h@),
        None => None,
    }
}

/// The string at an offset of a pool; empty beyond its end.
pub open spec fn pool_text(pool: Seq<u8>, offset: u32) -> Seq<char> {
    if offset <= pool.len() {
        text_at(pool, offset as int)
    } else {
        Seq::empty()
    }
}

pub(crate) fn read_cstr(pool: &[u8], offset: u32) -> (r: &str)
    ensures
        r@ == pool_text(pool@, offset),
{
    if (offset as usize) <= pool.len() {
        str_at(pool, offset as usize)
    } else {
        crate::index::empty_str()
    }
}

/// The suggestion that a record makes. An empty suburb is no suburb.
pub open spec fn hit_of(e: AutocompleteEntry, strings: Seq<u8>) -> HitText {
    HitText {
        name: pool_text(strings, e.name_offset),
        suburb: if pool_text(strings, e.suburb_offset).len() == 0 {
            None
        } else {
            Some(pool_text(strings, e.suburb_offset))
        },
        kind: e.kind,
        rank: e.rank,
        lat: e.lat,
        lng: e.lng,
    }
}

fn entry_to_hit(entry: &AutocompleteEntry, strings: &[u8]) -> (r: Hit)
    ensures
        r@ == hit_of(*entry, strings@),
{
    let suburb = read_cstr(strings, entry.suburb_offset);
    Hit {
        name: read_cstr(strings, entry.name_offset).to_owned(),
        suburb: if suburb.is_empty() {
            None
        } else {
            Some(suburb.to_owned())
        },
        kind: entry.kind,
        rank: entry.rank,
        lat: entry.lat,
        lng: entry.lng,
    }
}

// --- The order of suggestions ---
/// The order of suggestions: by rank, then by name.
pub open spec fn hit_lt(a: HitText, b: HitText) -> bool {
    a.rank < b.rank || (a.rank == b.rank && lex_lt(a.name, b.name))
}

/// Where `x` goes in a sorted list: behind everything that does not come after
/// it.
pub open spec fn hit_place(s: Seq<HitText>, x: HitText) -> int
    decreases s.len(),
{
    if s.len() == 0 || !hit_lt(x, s.last()) {
        s.len() as int
    } else {
        hit_place(s.drop_last(), x)
    }
}

/// The suggestions in order; equal ones keep their order.
pub open spec fn sorted_hits(hits: Seq<HitText>) -> Seq<HitText>
    decreases hits.len(),
{
    if hits.len() == 0 {
        Seq::empty()
    } else {
        let before = sorted_hits(hits.drop_last());
        before.insert(hit_place(before, hits.last()), hits.last())
    }
}

pub proof fn lemma_hit_place(s: Seq<HitText>, x: HitText)
    ensures
        0 <= hit_place(s, x) <= s.len(),
        forall|i: int| hit_place(s, x) <= i < s.len() ==> hit_lt(x, #[trigger] s[i]),
        hit_place(s, x) > 0 ==> !hit_lt(x, s[hit_place(s, x) - 1]),
    decreases s.len(),
{
    if s.len() > 0 && hit_lt(x, s.last()) {
        lemma_hit_place(s.drop_last(), x);
        assert forall|i: int| hit_place(s, x) <= i < s.len() implies hit_lt(x, #[trigger] s[i]) by {
            if i < s.len() - 1 {
                assert(s.drop_last()[i] == s[i]);
            }
        }
    }
}

/// Puts a suggestion where it belongs.
pub(crate) fn insert_hit(hits: &mut Vec<Hit>, hit: Hit)
    ensures
        hit_views(final(hits)@) == hit_views(old(hits)@).insert(
            hit_place(hit_views(old(hits)@), hit@),
            hit@,
        ),
{
    let ghost before = hit_views(hits@);
    let name = chars_of(hit.name.as_str());
    let mut at: usize = hits.len();
    assert(before.take(at as int) =~= before);
    while at > 0 && (hit.rank < hits[at - 1].rank || (hit.rank == hits[at - 1].rank && lex_less(
        &name,
        &chars_of(hits[at - 1].name.as_str()),
    )))
        invariant
            name@ == hit.name@,
            before == hit_views(hits@),
            at <= before.len(),
            hits@ == old(hits)@,
            hit_place(before.take(at as int), hit@) == hit_place(before, hit@),
        decreases at,
    {
        assert(before.take(at as int).last() == hits@[at - 1]@);
        assert(before.take(at as int).drop_last() =~= before.take(at - 1));
        at -= 1;
    }
    proof {
        if at > 0 {
            assert(before.take(at as int).last() == hits@[at - 1]@);
        }
        assert(hit_place(before.take(at as int), hit@) == at);
    }
    hits.insert(at, hit);
    assert(hit_views(hits@) =~= before.insert(at as int, hit@));
}

// --- The best few ---
/// The order in which suggestions are kept: by rank, then by name, and those
/// with the same rank and name by the positions of their records.
pub open spec fn cand_lt(a: (HitText, u64), b: (HitText, u64)) -> bool {
    hit_lt(a.0, b.0) || (a.0.rank == b.0.rank && a.0.name == b.0.name && a.1 < b.1)
}

proof fn lemma_cand_order(a: (HitText, u64), b: (HitText, u64), c: (HitText, u64))
    requires
        !cand_lt(b, a),
        !cand_lt(c, b),
    ensures
        !cand_lt(c, a),
{
    lemma_lex_total(a.0.name, b.0.name);
    if lex_lt(c.0.name, a.0.name) && lex_lt(a.0.name, b.0.name) {
        lemma_lex_transitive(c.0.name, a.0.name, b.0.name);
    }
}

proof fn lemma_cand_asymmetric(a: (HitText, u64), b: (HitText, u64))
    requires
        cand_lt(a, b),
    ensures
        !cand_lt(b, a),
{
    lemma_lex_irreflexive(a.0.name);
    if lex_lt(a.0.name, b.0.name) && lex_lt(b.0.name, a.0.name) {
        lemma_lex_transitive(a.0.name, b.0.name, a.0.name);
    }
}

/// Where `x` goes in a sorted list: behind everything that does not come after
/// it.
pub open spec fn cand_place(s: Seq<(HitText, u64)>, x: (HitText, u64)) -> int
    decreases s.len(),
{
    if s.len() == 0 || !cand_lt(x, s.last()) {
        s.len() as int
    } else {
        cand_place(s.drop_last(), x)
    }
}

/// The best `limit` of the candidates, in order.
pub open spec fn best_cands(cands: Seq<(HitText, u64)>, limit: nat) -> Seq<(HitText, u64)>
    decreases cands.len(),
{
    if cands.len() == 0 {
        Seq::empty()
    } else {
        let before = best_cands(cands.drop_last(), limit);
        let all = before.insert(cand_place(before, cands.last()), cands.last());
        if all.len() > limit {
            all.drop_last()
        } else {
            all
        }
    }
}

pub proof fn lemma_cand_place(s: Seq<(HitText, u64)>, x: (HitText, u64))
    ensures
        0 <= cand_place(s, x) <= s.len(),
        forall|i: int| cand_place(s, x) <= i < s.len() ==> cand_lt(x, #[trigger] s[i]),
        cand_place(s, x) > 0 ==> !cand_lt(x, s[cand_place(s, x) - 1]),
    decreases s.len(),
{
    if s.len() > 0 && cand_lt(x, s.last()) {
        lemma_cand_place(s.drop_last(), x);
        assert forall|i: int| cand_place(s, x) <= i < s.len() implies cand_lt(x, #[trigger] s[i]) by {
            if i < s.len() - 1 {
                assert(s.drop_last()[i] == s[i]);
            }
        }
    }
}

/// The suggestions kept so far, in order, and the positions of their records.
struct Kept {
    hits: Vec<Hit>,
    ids: Vec<u64>,
}

impl Kept {
    spec fn cands(&self) -> Seq<(HitText, u64)> {
        Seq::new(self.hits@.len(), |i: int| (self.hits@[i]@, self.ids@[i]))
    }

    /// Takes a suggestion in, and lets the worst go where there are too many.
    fn heap_push_bounded(&mut self, hit: Hit, id: u64, limit: usize)
        requires
            old(self).ids@.len() == old(self).hits@.len(),
            old(self).hits@.len() <= limit,
        ensures
            final(self).ids@.len() == final(self).hits@.len(),
            final(self).cands() == ({
                let all = old(self).cands().insert(
                    cand_place(old(self).cands(), (hit@, id)),
                    (hit@, id),
                );
                if all.len() > limit {
                    all.drop_last()
                } else {
                    all
                }
            }),
    {
        let ghost before = self.cands();
        let ghost x = (hit@, id);
        let name = chars_of(hit.name.as_str());
        let mut at: usize = self.hits.len();
        assert(before.take(at as int) =~= before);
        while at > 0 && comes_before(&hit, &name, id, &self.hits[at - 1], self.ids[at - 1])
            invariant
                name@ == hit.name@,
                x == (hit@, id),
                before == self.cands(),
                self.ids@.len() == self.hits@.len(),
                self.hits@ == old(self).hits@,
                at <= before.len(),
                cand_place(before.take(at as int), x) == cand_place(before, x),
            decreases at,
        {
            assert(before.take(at as int).last() == (self.hits@[at - 1]@, self.ids@[at - 1]));
            assert(before.take(at as int).drop_last() =~= before.take(at - 1));
            at -= 1;
        }
        proof {
            if at > 0 {
                assert(before.take(at as int).last() == (self.hits@[at - 1]@, self.ids@[at - 1]));
            }
            assert(cand_place(before.take(at as int), x) == at);
        }
        self.hits.insert(at, hit);
        self.ids.insert(at, id);
        assert(self.cands() =~= before.insert(at as int, x));
        if self.hits.len() > limit {
            let ghost all = self.cands();
            self.hits.pop();
            self.ids.pop();
            assert(self.cands() =~= all.drop_last());
        }
    }
}

fn comes_before(hit: &Hit, name: &[char], id: u64, other: &Hit, other_id: u64) -> (r: bool)
    requires
        name@ == hit.name@,
    ensures
        r == cand_lt((hit@, id), (other@, other_id)),
{
    if hit.rank != other.rank {
        return hit.rank < other.rank;
    }
    let other_name = chars_of(other.name.as_str());
    proof {
        lemma_lex_irreflexive(name@);
    }
    if chars_eq(name, &other_name) {
        id < other_id
    } else {
        lex_less(name, &other_name)
    }
}

/// What is kept is in order, and what is let go is no better than anything
/// that is kept: no lower rank, and no earlier name of the same rank.
pub proof fn law_keeps_the_best(cands: Seq<(HitText, u64)>, limit: nat)
    ensures
        best_cands(cands, limit).len() == (if cands.len() < limit {
            cands.len()
        } else {
            limit
        }),
        forall|i: int, j: int|
            0 <= i < j < best_cands(cands, limit).len() ==> !cand_lt(
                #[trigger] best_cands(cands, limit)[j],
                #[trigger] best_cands(cands, limit)[i],
            ),
        forall|k: int|
            0 <= k < cands.len() ==> best_cands(cands, limit).contains(#[trigger] cands[k]) || (
            best_cands(cands, limit).len() == limit && forall|i: int|
                0 <= i < best_cands(cands, limit).len() ==> !cand_lt(
                    cands[k],
                    #[trigger] best_cands(cands, limit)[i],
                )),
    decreases cands.len(),
{
    if cands.len() > 0 {
        let front = cands.drop_last();
        let x = cands.last();
        law_keeps_the_best(front, limit);
        let before = best_cands(front, limit);
        let p = cand_place(before, x);
        lemma_cand_place(before, x);
        let all = before.insert(p, x);
        let after = best_cands(cands, limit);
        assert forall|i: int, j: int| 0 <= i < j < all.len() implies !cand_lt(
            #[trigger] all[j],
            #[trigger] all[i],
        ) by {
            if i < p && j < p {
                assert(all[i] == before[i] && all[j] == before[j]);
            } else if i < p && j == p {
                assert(all[i] == before[i] && all[j] == x);
                assert(!cand_lt(x, before[p - 1]));
                if i < p - 1 {
                    assert(!cand_lt(before[p - 1], before[i]));
                    lemma_cand_order(before[i], before[p - 1], x);
                }
            } else if i < p && j > p {
                assert(all[i] == before[i] && all[j] == before[j - 1]);
            } else if i == p {
                assert(all[i] == x && all[j] == before[j - 1]);
                lemma_cand_asymmetric(x, before[j - 1]);
            } else {
                assert(all[i] == before[i - 1] && all[j] == before[j - 1]);
            }
        }
        assert forall|i: int| 0 <= i < after.len() implies after[i] == all[i] by {}
        assert forall|k: int| 0 <= k < cands.len() implies after.contains(#[trigger] cands[k]) || (
        after.len() == limit && forall|i: int|
            0 <= i < after.len() ==> !cand_lt(cands[k], #[trigger] after[i])) by {
            let c = cands[k];
            if k < front.len() {
                assert(front[k] == c);
                if before.contains(c) {
                    let m = choose|m: int| 0 <= m < before.len() && before[m] == c;
                    let q = if m < p {
                        m
                    } else {
                        m + 1
                    };
                    assert(all[q] == c);
                    if q < after.len() {
                        assert(after[q] == c);
                    } else {
                        assert forall|i: int| 0 <= i < after.len() implies !cand_lt(
                            c,
                            #[trigger] after[i],
                        ) by {
                            assert(after[i] == all[i]);
                        }
                    }
                } else {
                    assert forall|i: int| 0 <= i < after.len() implies !cand_lt(c, #[trigger] after[i]) by {
                        assert(after[i] == all[i]);
                        if i < p {
                            assert(all[i] == before[i]);
                        } else if i > p {
                            assert(all[i] == before[i - 1]);
                        } else {
                            // The list was full, so something at least as good as
                            // anything let go stands behind the new one.
                            assert(before.len() == limit);
                            assert(cand_lt(x, before[p]));
                            assert(!cand_lt(c, before[p]));
                            lemma_cand_asymmetric(x, before[p]);
                            lemma_cand_order(x, before[p], c);
                        }
                    }
                }
            } else {
                assert(c == x);
                assert(all[p] == x);
                if p < after.len() {
                    assert(after[p] == x);
                } else {
                    assert forall|i: int| 0 <= i < after.len() implies !cand_lt(c, #[trigger] after[i]) by {
                        assert(after[i] == all[i]);
                    }
                }
            }
        }
    }
}

/// The records among those that a walk visited, as candidates. A position
/// beyond the last record makes none.
pub open spec fn walk_cands(walk: Seq<(Vec<u8>, u64)>, entries: Seq<u8>, strings: Seq<u8>) -> Seq<
    (HitText, u64),
>
    decreases walk.len(),
{
    if walk.len() == 0 {
        Seq::empty()
    } else {
        let before = walk_cands(walk.drop_last(), entries, strings);
        match entry_of(entries, walk.last().1) {
            Some(e) => before.push((hit_of(e, strings), walk.last().1)),
            None => before,
        }
    }
}

/// The suggestions of candidates.
pub open spec fn hits_of(cands: Seq<(HitText, u64)>) -> Seq<HitText> {
    Seq::new(cands.len(), |i: int| cands[i].0)
}

/// The suggestions that a walk comes to: the best few, in order.
pub open spec fn walk_hits(
    walk: Seq<(Vec<u8>, u64)>,
    entries: Seq<u8>,
    strings: Seq<u8>,
    limit: nat,
) -> Seq<HitText> {
    hits_of(best_cands(walk_cands(walk, entries, strings), limit))
}

/// Picks the best few of the keys that a walk visited.
fn top_hits(walk: &[(Vec<u8>, u64)], entries: &[u8], strings: &[u8], limit: usize) -> (r: Vec<Hit>)
    ensures
        hit_views(r@) == walk_hits(walk@, entries@, strings@, limit as nat),
{
    let mut kept = Kept { hits: Vec::new(), ids: Vec::new() };
    assert(kept.cands() =~= Seq::<(HitText, u64)>::empty());
    for i in 0..walk.len()
        invariant
            kept.cands() == best_cands(
                walk_cands(walk@.take(i as int), entries@, strings@),
                limit as nat,
            ),
            kept.ids@.len() == kept.hits@.len(),
            kept.hits@.len() <= limit,
    {
        assert(walk@.take(i + 1).drop_last() =~= walk@.take(i as int));
        let ghost before = walk_cands(walk@.take(i as int), entries@, strings@);
        let id: u64 = walk[i].1;
        if let Some(e) = read_entry(entries, id) {
            let hit = entry_to_hit(&e, strings);
            let ghost x = (hit@, id);
            assert(kept.cands().len() == kept.hits@.len());
            kept.heap_push_bounded(hit, id, limit);
            assert(before.push(x).drop_last() =~= before);
            proof {
                law_keeps_the_best(before.push(x), limit as nat);
            }
            assert(kept.cands().len() == kept.hits@.len());
        }
    }
    assert(walk@.take(walk@.len() as int) =~= walk@);
    let ghost cands = kept.cands();
    let hits = kept.hits;
    assert(hit_views(hits@) =~= hits_of(cands));
    hits
}

// --- One country ---
/// The names of a country.
pub struct AutocompleteCountry<'a> {
    pub map: FstMap,
    pub entries: &'a [u8],
    pub strings: &'a [u8],
}

impl<'a> AutocompleteCountry<'a> {
    /// The suggestion for a key of the map.
    pub open spec fn hit_for(&self, key: Seq<u8>) -> Option<HitText> {
        if self.map.contents().contains_key(key) {
            match entry_of(self.entries@, self.map.contents()[key]) {
                Some(e) => Some(hit_of(e, self.strings@)),
                None => None,
            }
        } else {
            None
        }
    }

    /// The suggestion for exactly this name.
    pub open spec fn exact(&self, q: Seq<char>) -> Option<HitText> {
        let key = encode_utf8(name_key(q));
        if key.len() < FST_MIN_PREFIX_LEN {
            None
        } else {
            self.hit_for(key)
        }
    }

    /// Finds exactly this name. Names of less than two bytes are not looked
    /// up.
    pub fn get_exact(&self, q: &str) -> (r: Option<Hit>)
        ensures
            opt_hit_view(r) == self.exact(q@),
    {
        let name = normalise_prefix(q);
        let key = name.as_str().as_bytes();
        if key.len() < FST_MIN_PREFIX_LEN {
            return None;
        }
        match self.map.get(key) {
            Some(id) => match read_entry(self.entries, id) {
                Some(e) => Some(entry_to_hit(&e, self.strings)),
                None => None,
            },
            None => None,
        }
    }

    /// Whether the suggestions are those for names that begin with `q`, which
    /// is in normal form: the best `limit` of the first keys of the map.
    pub open spec fn is_search(&self, hits: Seq<HitText>, q: Seq<char>, limit: nat) -> bool {
        if limit == 0 || q.len() == 0 {
            hits.len() == 0
        } else {
            exists|walk: Seq<(Vec<u8>, u64)>| #[trigger]
                self.map.is_walk(walk, encode_utf8(q), FST_WALK_CAP as nat) && hits == walk_hits(
                    walk,
                    self.entries@,
                    self.strings@,
                    limit,
                )
        }
    }

    /// Finds names that begin with `q`, which is in normal form.
    pub fn starts_with(&self, q: &str, limit: usize) -> (r: Vec<Hit>)
        ensures
            self.is_search(hit_views(r@), q@, limit as nat),
    {
        if limit == 0 || q.is_empty() {
            return Vec::new();
        }
        let walk = self.map.prefix_walk(q.as_bytes(), FST_WALK_CAP);
        let r = top_hits(&walk, self.entries, self.strings, limit);
        assert(self.map.is_walk(walk@, encode_utf8(q@), FST_WALK_CAP as nat));
        r
    }
}

// --- All countries in one map ---
/// The names of all countries.
pub struct UnifiedAutocomplete<'a> {
    pub map: FstMap,
    pub entries: &'a [u8],
    pub strings: &'a [u8],
    /// The country codes that keys begin with, in ascending order.
    pub countries: Vec<[u8; 2]>,
}

/// Whether some key of the map begins with a country code.
pub open spec fn map_covers(map: FstMap, cc: Seq<u8>) -> bool {
    exists|k: Seq<u8>| #[trigger] map.contents().contains_key(k) && begins(k, cc)
}

/// The number that a two-byte prefix writes.
pub open spec fn code_number(s: Seq<u8>) -> int {
    s[0] * 256 + s[1]
}

pub proof fn lemma_code_order(x: Seq<u8>, y: Seq<u8>)
    requires
        x.len() >= 2,
        y.len() >= 2,
        code_number(x) < code_number(y),
    ensures
        bytes_lt(x, y),
        !bytes_lt(y, x),
{
    reveal_with_fuel(bytes_lt, 3);
    assert(x.drop_first()[0] == x[1]);
    assert(y.drop_first()[0] == y[1]);
}

proof fn lemma_code_first(x: Seq<u8>, at: Seq<u8>)
    requires
        x.len() >= 2,
        at.len() == 2,
        code_number(x) >= code_number(at),
    ensures
        !bytes_lt(x, at),
{
    reveal_with_fuel(bytes_lt, 4);
    assert(x.drop_first()[0] == x[1]);
    assert(at.drop_first()[0] == at[1]);
    assert(at.drop_first().drop_first().len() == 0);
}

proof fn lemma_short_key_first(k: Seq<u8>, at: Seq<u8>)
    requires
        at.len() == 2,
        k.len() < 2,
        !bytes_lt(k, at),
    ensures
        k.len() == 1,
        k[0] > at[0],
{
    reveal_with_fuel(bytes_lt, 3);
}

proof fn lemma_short_key(k: Seq<u8>, at: Seq<u8>, x: Seq<u8>)
    requires
        at.len() == 2,
        k.len() < 2,
        !bytes_lt(k, at),
        x.len() >= 2,
        !bytes_lt(x, k),
    ensures
        k.len() == 1,
        k[0] > at[0],
        x[0] >= k[0],
{
    reveal_with_fuel(bytes_lt, 3);
}

impl<'a> UnifiedAutocomplete<'a> {
    /// The countries are those that keys begin with.
    pub open spec fn wf(&self) -> bool {
        forall|cc: [u8; 2]| #[trigger]
            has_code(self.countries@, cc@) <==> map_covers(self.map, cc@)
    }

    /// Lists the country codes that keys of a map begin with.
    fn collect_countries(map: &FstMap) -> (r: Vec<[u8; 2]>)
        ensures
            forall|cc: [u8; 2]| #[trigger] has_code(r@, cc@) <==> map_covers(*map, cc@),
            forall|i: int, j: int|
                0 <= i < j < r@.len() ==> code_number((#[trigger] r@[i])@) < code_number(
                    (#[trigger] r@[j])@,
                ),
    {
        let mut out: Vec<[u8; 2]> = Vec::new();
        let mut code: u32 = 0;
        while code < 0x1_0000
            invariant_except_break
                forall|x: Seq<u8>| #[trigger]
                    map.contents().contains_key(x) && x.len() >= 2 && code_number(x) < code
                        ==> has_code(out@, x.take(2)),
            invariant
                code <= 0x1_0000,
                forall|i: int|
                    0 <= i < out@.len() ==> map_covers(*map, (#[trigger] out@[i])@) && code_number(
                        out@[i]@,
                    ) < code,
                forall|i: int, j: int|
                    0 <= i < j < out@.len() ==> code_number((#[trigger] out@[i])@) < code_number(
                        (#[trigger] out@[j])@,
                    ),
            ensures
                forall|x: Seq<u8>| #[trigger]
                    map.contents().contains_key(x) && x.len() >= 2 ==> has_code(out@, x.take(2)),
            decreases 0x1_0000 - code,
        {
            let at: [u8; 2] = [(code / 256) as u8, (code % 256) as u8];
            assert(code_number(at@) == code);
            match map.next_from(&at) {
                None => {
                    assert forall|x: Seq<u8>| #[trigger]
                        map.contents().contains_key(x) && x.len() >= 2 implies has_code(
                        out@,
                        x.take(2),
                    ) by {
                        if code_number(x) >= code {
                            lemma_code_first(x, at@);
                        }
                    }
                    break ;
                },
                Some((k, _)) => {
                    if k.len() >= 2 {
                        let cc: [u8; 2] = [k[0], k[1]];
                        let ghost before = out@;
                        out.push(cc);
                        let found: u32 = k[0] as u32 * 256 + k[1] as u32;
                        proof {
                            if found < code {
                                lemma_code_order(k@, at@);
                            }
                            assert(k@.take(2) =~= cc@);
                            assert(begins(k@, cc@));
                            assert(map_covers(*map, cc@));
                            assert forall|i: int| 0 <= i < out@.len() implies map_covers(
                                *map,
                                (#[trigger] out@[i])@,
                            ) && code_number(out@[i]@) < found + 1 by {
                                if i < before.len() {
                                    assert(out@[i] == before[i]);
                                }
                            }
                            assert forall|i: int, j: int| 0 <= i < j < out@.len() implies code_number(
                                (#[trigger] out@[i])@,
                            ) < code_number((#[trigger] out@[j])@) by {
                                assert(out@[i] == before[i]);
                                if j < before.len() {
                                    assert(out@[j] == before[j]);
                                }
                            }
                            assert forall|x: Seq<u8>| #[trigger]
                                map.contents().contains_key(x) && x.len() >= 2 && code_number(x)
                                    < found + 1 implies has_code(out@, x.take(2)) by {
                                if code_number(x) < code {
                                    assert(has_code(before, x.take(2)));
                                    let i = choose|i: int|
                                        0 <= i < before.len() && (#[trigger] before[i])@ == x.take(2);
                                    assert(out@[i] == before[i]);
                                    assert(out@[i]@ == x.take(2));
                                } else if code_number(x) < found {
                                    lemma_code_first(x, at@);
                                    lemma_code_order(x, k@);
                                } else {
                                    assert(x.take(2) =~= cc@);
                                    assert(out@[before.len() as int]@ == x.take(2));
                                }
                            }
                        }
                        code = found + 1;
                    } else {
                        proof {
                            lemma_short_key_first(k@, at@);
                            assert forall|x: Seq<u8>| #[trigger]
                                map.contents().contains_key(x) && x.len() >= 2 && code_number(x)
                                    < k@[0] as u32 * 256 implies has_code(out@, x.take(2)) by {
                                if code_number(x) >= code {
                                    lemma_code_first(x, at@);
                                    lemma_short_key(k@, at@, x);
                                }
                            }
                        }
                        code = k[0] as u32 * 256;
                    }
                },
            }
        }
        proof {
            assert forall|cc: [u8; 2]| #[trigger] has_code(out@, cc@) <==> map_covers(*map, cc@) by {
                if map_covers(*map, cc@) {
                    let k = choose|k: Seq<u8>| #[trigger]
                        map.contents().contains_key(k) && begins(k, cc@);
                    assert(k.take(2) == cc@);
                }
                if has_code(out@, cc@) {
                    let i = choose|i: int| 0 <= i < out@.len() && (#[trigger] out@[i])@ == cc@;
                    assert(map_covers(*map, out@[i]@));
                }
            }
        }
        out
    }

    /// Opens the unified index on a map and the contents of its files.
    pub fn open(map: FstMap, entries: &'a [u8], strings: &'a [u8]) -> (r: UnifiedAutocomplete<'a>)
        ensures
            r.wf(),
            r.map == map,
            r.entries@ == entries@,
            r.strings@ == strings@,
    {
        let countries = Self::collect_countries(&map);
        UnifiedAutocomplete { map, entries, strings, countries }
    }

    /// Whether the index covers a country.
    pub fn has_country(&self, cc: &[u8; 2]) -> (r: bool)
        requires
            self.wf(),
        ensures
            r == map_covers(self.map, lower_code(*cc)@),
    {
        let code = normalise_code(cc);
        assert(has_code(self.countries@, code@) <==> map_covers(self.map, code@));
        has_code_exec(&self.countries, &code)
    }

    /// What the keys of a name in a country begin with.
    pub open spec fn country_key(cc: [u8; 2], name: Seq<char>) -> Seq<u8> {
        lower_code(cc)@ + encode_utf8(name)
    }

    fn make_key(cc: &[u8; 2], name: &str) -> (r: Vec<u8>)
        ensures
            r@ == Self::country_key(*cc, name@),
    {
        let code = normalise_code(cc);
        let mut key: Vec<u8> = Vec::new();
        key.push(code[0]);
        key.push(code[1]);
        let tail = name.as_bytes();
        for i in 0..tail.len()
            invariant
                key@ == code@ + tail@.take(i as int),
        {
            key.push(tail[i]);
            assert(tail@.take(i + 1) =~= tail@.take(i as int).push(tail@[i as int]));
        }
        assert(tail@.take(tail@.len() as int) =~= tail@);
        key
    }

    /// The suggestion for exactly this name in a country.
    pub open spec fn exact(&self, cc: [u8; 2], q: Seq<char>) -> Option<HitText> {
        let key = Self::country_key(cc, name_key(q));
        if encode_utf8(name_key(q)).len() < FST_MIN_PREFIX_LEN || !self.map.contents().contains_key(
            key,
        ) {
            None
        } else {
            match entry_of(self.entries@, self.map.contents()[key]) {
                Some(e) => Some(hit_of(e, self.strings@)),
                None => None,
            }
        }
    }

    /// Finds exactly this name in a country.
    pub fn get_exact(&self, country_code: &[u8; 2], q: &str) -> (r: Option<Hit>)
        ensures
            opt_hit_view(r) == self.exact(*country_code, q@),
    {
        let name = normalise_prefix(q);
        if name.as_str().as_bytes().len() < FST_MIN_PREFIX_LEN {
            return None;
        }
        let key = Self::make_key(country_code, name.as_str());
        match self.map.get(&key) {
            Some(id) => match read_entry(self.entries, id) {
                Some(e) => Some(entry_to_hit(&e, self.strings)),
                None => None,
            },
            None => None,
        }
    }

    /// Whether the suggestions are those for names in a country that begin
    /// with what was typed.
    pub open spec fn is_search(&self, hits: Seq<HitText>, cc: [u8; 2], q: Seq<char>, limit: nat) -> bool {
        if limit == 0 || name_key(q).len() == 0 {
            hits.len() == 0
        } else {
            exists|walk: Seq<(Vec<u8>, u64)>| #[trigger]
                self.map.is_walk(walk, Self::country_key(cc, name_key(q)), FST_WALK_CAP as nat)
                    && hits == walk_hits(walk, self.entries@, self.strings@, limit)
        }
    }

    /// Finds names in a country that begin with what was typed.
    pub fn starts_with(&self, country_code: &[u8; 2], q: &str, limit: usize) -> (r: Vec<Hit>)
        ensures
            self.is_search(hit_views(r@), *country_code, q@, limit as nat),
    {
        if limit == 0 {
            return Vec::new();
        }
        let name = normalise_prefix(q);
        if name.as_str().is_empty() {
            return Vec::new();
        }
        let key = Self::make_key(country_code, name.as_str());
        let walk = self.map.prefix_walk(&key, FST_WALK_CAP);
        let r = top_hits(&walk, self.entries, self.strings, limit);
        assert(self.map.is_walk(walk@, key@, FST_WALK_CAP as nat));
        r
    }
}

/// Whether a list has a country code.
pub open spec fn has_code(codes: Seq<[u8; 2]>, cc: Seq<u8>) -> bool {
    exists|i: int| 0 <= i < codes.len() && (#[trigger] codes[i])@ == cc
}

pub(crate) fn has_code_exec(codes: &[[u8; 2]], cc: &[u8; 2]) -> (r: bool)
    ensures
        r == has_code(codes@, cc@),
{
    for i in 0..codes.len()
        invariant
            forall|j: int| 0 <= j < i ==> (#[trigger] codes@[j])@ != cc@,
    {
        if codes[i][0] == cc[0] && codes[i][1] == cc[1] {
            assert(codes@[i as int]@ =~= cc@);
            return true;
        }
        assert(codes@[i as int]@[0] != cc@[0] || codes@[i as int]@[1] != cc@[1]);
    }
    false
}

// --- File names ---
/// The country that a file of a per-country index belongs to.
pub open spec fn fst_file_country(filename: Seq<char>) -> Option<Seq<char>> {
    match strip_prefix_seq(filename, "fst_"@) {
        Some(rest) => {
            let stem = if strip_suffix_seq(rest, ".fst"@) is Some {
                strip_suffix_seq(rest, ".fst"@)
            } else if strip_suffix_seq(rest, "_strings.bin"@) is Some {
                strip_suffix_seq(rest, "_strings.bin"@)
            } else {
                strip_suffix_seq(rest, ".bin"@)
            };
            match stem {
                Some(s) => code_of(s),
                None => None,
            }
        },
        None => None,
    }
}

/// Reads the country code out of the name of any file of a per-country index.
pub fn parse_fst_prefix(filename: &str) -> (r: Option<[u8; 2]>)
    ensures
        match r {
            Some(cc) => fst_file_country(filename@) == Some(code_text(cc)),
            None => fst_file_country(filename@) is None,
        },
{
    let rest = match strip_prefix(&chars_of(filename), &chars_of("fst_")) {
        Some(rest) => rest,
        None => return None,
    };
    if let Some(stem) = strip_suffix(&rest, &chars_of(".fst")) {
        return parse_code(&stem);
    }
    if let Some(stem) = strip_suffix(&rest, &chars_of("_strings.bin")) {
        return parse_code(&stem);
    }
    match strip_suffix(&rest, &chars_of(".bin")) {
        Some(stem) => parse_code(&stem),
        None => None,
    }
}

} // verus!
