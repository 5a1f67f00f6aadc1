//! Sorted maps from byte strings to numbers, stored as transducers.
use fst::{IntoStreamer, Streamer};
use vstd::prelude::*;
use crate::bytes::{read_u64, u64_at};

verus! {

broadcast use vstd::seq::group_seq_axioms;

// --- Order of byte strings ---
/// The order of byte strings: by their first bytes that differ, a string before
/// every longer one that it begins.
pub open spec fn bytes_lt(a: Seq<u8>, b: Seq<u8>) -> bool
    decreases a.len(),
{
    if b.len() == 0 {
        false
    } else if a.len() == 0 {
        true
    } else if a[0] != b[0] {
        a[0] < b[0]
    } else {
        bytes_lt(a.drop_first(), b.drop_first())
    }
}

/// Whether `s` begins with `p`.
pub open spec fn begins(s: Seq<u8>, p: Seq<u8>) -> bool {
    p.len() <= s.len() && s.take(p.len() as int) == p
}

pub proof fn lemma_bytes_irreflexive(a: Seq<u8>)
    ensures
        !bytes_lt(a, a),
    decreases a.len(),
{
    if a.len() > 0 {
        lemma_bytes_irreflexive(a.drop_first());
    }
}

pub proof fn lemma_bytes_transitive(a: Seq<u8>, b: Seq<u8>, c: Seq<u8>)
    requires
        bytes_lt(a, b),
        bytes_lt(b, c),
    ensures
        bytes_lt(a, c),
    decreases a.len(),
{
    if a.len() > 0 && b.len() > 0 && c.len() > 0 && a[0] == b[0] && b[0] == c[0] {
        lemma_bytes_transitive(a.drop_first(), b.drop_first(), c.drop_first());
    }
}

pub proof fn lemma_bytes_total(a: Seq<u8>, b: Seq<u8>)
    ensures
        bytes_lt(a, b) || a == b || bytes_lt(b, a),
    decreases a.len(),
{
    if a.len() > 0 && b.len() > 0 && a[0] == b[0] {
        lemma_bytes_total(a.drop_first(), b.drop_first());
        if a.drop_first() == b.drop_first() {
            assert(a =~= seq![a[0]] + a.drop_first());
            assert(b =~= seq![b[0]] + b.drop_first());
        }
    } else if a.len() == 0 && b.len() == 0 {
        assert(a =~= b);
    }
}

proof fn lemma_begins_step(s: Seq<u8>, p: Seq<u8>)
    requires
        p.len() > 0,
    ensures
        begins(s, p) <==> s.len() > 0 && s[0] == p[0] && begins(s.drop_first(), p.drop_first()),
{
    if s.len() > 0 && p.len() <= s.len() {
        let t = s.take(p.len() as int);
        assert(t.drop_first() =~= s.drop_first().take(p.len() - 1));
        if s[0] == p[0] && t.drop_first() == p.drop_first() {
            assert(t =~= seq![t[0]] + t.drop_first());
            assert(p =~= seq![p[0]] + p.drop_first());
        }
        if t == p {
            assert(t[0] == s[0]);
        }
    }
}

/// The strings that begin with `p` stand together: between `p` and a string
/// behind it that does not begin with `p`.
proof fn lemma_prefix_block(p: Seq<u8>, k: Seq<u8>, x: Seq<u8>)
    requires
        !bytes_lt(k, p),
        !begins(k, p),
        !bytes_lt(x, k),
    ensures
        !begins(x, p),
    decreases p.len(),
{
    if p.len() > 0 {
        lemma_begins_step(k, p);
        lemma_begins_step(x, p);
        if x.len() > 0 && x[0] == p[0] && k.len() > 0 && k[0] == p[0] {
            lemma_prefix_block(p.drop_first(), k.drop_first(), x.drop_first());
        }
    } else {
        assert(k.take(0) =~= p);
    }
}

/// A string that begins with `p` does not stand before `p`.
proof fn lemma_prefix_first(p: Seq<u8>, x: Seq<u8>)
    requires
        begins(x, p),
    ensures
        !bytes_lt(x, p),
    decreases p.len(),
{
    if p.len() > 0 {
        lemma_begins_step(x, p);
        lemma_prefix_first(p.drop_first(), x.drop_first());
    }
}

/// No string stands between `k` and `k` with a zero byte behind it.
proof fn lemma_successor(k: Seq<u8>, x: Seq<u8>)
    ensures
        bytes_lt(k, k.push(0)),
        bytes_lt(k, x) ==> !bytes_lt(x, k.push(0)),
    decreases k.len(),
{
    let s = k.push(0);
    if k.len() > 0 {
        assert(s.drop_first() =~= k.drop_first().push(0));
        lemma_successor(k.drop_first(), x.drop_first());
    } else {
        assert(s.drop_first() =~= Seq::<u8>::empty());
        if x.len() > 0 && x[0] == 0 {
            assert(!bytes_lt(x.drop_first(), Seq::<u8>::empty()));
        }
    }
}

// --- The outside map ---
#[verifier::external_type_specification]
#[verifier::external_body]
#[verifier::reject_recursive_types(D)]
pub struct ExFstMap<D>(fst::Map<D>);

/// The bytes that a map is stored as.
pub uninterp spec fn fst_data(m: fst::Map<Vec<u8>>) -> Seq<u8>;

/// Whether `fst::Map::new` takes `bytes` for a map.
pub uninterp spec fn fst_opens(bytes: Seq<u8>) -> bool;

/// Whether `bytes` are what `fst::Map::from_iter` writes for some pairs.
pub uninterp spec fn fst_written(bytes: Seq<u8>) -> bool;

/// The map that is stored as `bytes`.
pub uninterp spec fn fst_contents(bytes: Seq<u8>) -> Map<Seq<u8>, u64>;

/// The fewest bytes of a map.
pub const FST_MIN_BYTES: usize = 36;

/// Where the two numbers at the end of a map end: the formats behind the second
/// have a checksum of four bytes behind them.
pub open spec fn footer_end(bytes: Seq<u8>) -> int {
    if u64_at(bytes, 0) <= 2 {
        bytes.len() as int
    } else {
        bytes.len() - 4
    }
}

/// Whether the two numbers at the end of a map, its count of keys and the place
/// of its root, are numbers that this machine can count up to. Too few bytes
/// have no such numbers.
pub open spec fn footer_fits(bytes: Seq<u8>) -> bool {
    bytes.len() >= FST_MIN_BYTES ==> {
        &&& u64_at(bytes, footer_end(bytes) - 16) <= usize::MAX
        &&& u64_at(bytes, footer_end(bytes) - 8) <= usize::MAX
    }
}

fn has_fitting_footer(bytes: &[u8]) -> (r: bool)
    ensures
        r == footer_fits(bytes@),
{
    let n: usize = bytes.len();
    if n < FST_MIN_BYTES {
        return true;
    }
    let end: usize = if read_u64(bytes, 0) <= 2 {
        n
    } else {
        n - 4
    };
    read_u64(bytes, end - 16) <= usize::MAX as u64 && read_u64(bytes, end - 8) <= usize::MAX as u64
}

/// `fst::Map::new`: a map over bytes in the format of the crate. It looks at the
/// ends of the bytes only, so that bytes that no builder wrote may pass. It
/// panics on numbers at the end that a machine cannot count up to.
#[verifier::external_body]
fn fst_open(bytes: Vec<u8>) -> (r: Option<fst::Map<Vec<u8>>>)
    requires
        footer_fits(bytes@),
    ensures
        match r {
            Some(m) => fst_opens(bytes@) && fst_data(m) == bytes@,
            None => !fst_opens(bytes@),
        },
{
    fst::Map::new(bytes).ok()
}

/// `fst::Map::get`: the value of a key, if the map has the key. The bytes must
/// be those of a builder: on others the crate may panic.
#[verifier::external_body]
fn fst_get(m: &fst::Map<Vec<u8>>, key: &[u8]) -> (r: Option<u64>)
    requires
        fst_written(fst_data(*m)),
    ensures
        r == (if fst_contents(fst_data(*m)).contains_key(key@) {
            Some(fst_contents(fst_data(*m))[key@])
        } else {
            None
        }),
{
    m.get(key)
}

/// `fst::Map::range` with `ge`, and the first item of its stream: the least key
/// that is not less than the given one, with its value. The bytes must be those
/// of a builder.
#[verifier::external_body]
fn fst_next(m: &fst::Map<Vec<u8>>, key: &[u8]) -> (r: Option<(Vec<u8>, u64)>)
    requires
        fst_written(fst_data(*m)),
    ensures
        match r {
            Some((k, v)) => {
                &&& fst_contents(fst_data(*m)).contains_key(k@)
                &&& fst_contents(fst_data(*m))[k@] == v
                &&& !bytes_lt(k@, key@)
                &&& forall|x: Seq<u8>| #[trigger]
                    fst_contents(fst_data(*m)).contains_key(x) && !bytes_lt(x, key@) ==> !bytes_lt(
                        x,
                        k@,
                    )
            },
            None => forall|x: Seq<u8>| #[trigger]
                fst_contents(fst_data(*m)).contains_key(x) ==> bytes_lt(x, key@),
        },
{
    let mut stream = m.range().ge(key).into_stream();
    stream.next().map(|(k, v)| (k.to_vec(), v))
}

/// Whether the keys ascend.
pub open spec fn keys_ascend(pairs: Seq<(Vec<u8>, u64)>) -> bool {
    forall|i: int, j: int|
        0 <= i < j < pairs.len() ==> bytes_lt(#[trigger] pairs[i].0@, #[trigger] pairs[j].0@)
}

/// The map that pairs list.
pub open spec fn pairs_map(pairs: Seq<(Vec<u8>, u64)>) -> Map<Seq<u8>, u64>
    decreases pairs.len(),
{
    if pairs.len() == 0 {
        Map::empty()
    } else {
        pairs_map(pairs.drop_last()).insert(pairs.last().0@, pairs.last().1)
    }
}

/// `fst::Map::from_iter`, and the bytes of the map that it returns. It fails on
/// keys that do not ascend, and otherwise only where memory runs out: the bytes
/// are those of the map that the pairs list, with numbers of this machine at
/// their end, and it opens them itself.
#[verifier::external_body]
fn fst_build(pairs: &Vec<(Vec<u8>, u64)>) -> (r: Option<Vec<u8>>)
    requires
        keys_ascend(pairs@),
    ensures
        r is Some,
        fst_written(r->0@),
        footer_fits(r->0@),
        fst_opens(r->0@),
        fst_contents(r->0@) == pairs_map(pairs@),
{
    let map = fst::Map::from_iter(pairs.iter().map(|p| (&p.0, p.1))).ok()?;
    Some(map.into_fst().into_inner())
}

// --- The map of this library ---
/// A map that was opened.
pub struct FstMap {
    map: fst::Map<Vec<u8>>,
}

/// Writes a map. The keys must ascend.
pub fn write_map(pairs: &Vec<(Vec<u8>, u64)>) -> (r: Vec<u8>)
    requires
        keys_ascend(pairs@),
    ensures
        fst_written(r@),
        footer_fits(r@),
        fst_opens(r@),
        fst_contents(r@) == pairs_map(pairs@),
{
    match fst_build(pairs) {
        Some(bytes) => bytes,
        None => Vec::new(),
    }
}

impl FstMap {
    #[verifier::type_invariant]
    spec fn inv(&self) -> bool {
        fst_written(fst_data(self.map))
    }

    /// The bytes that the map is stored as.
    pub closed spec fn bytes(&self) -> Seq<u8> {
        fst_data(self.map)
    }

    /// What the map holds.
    pub open spec fn contents(&self) -> Map<Seq<u8>, u64> {
        fst_contents(self.bytes())
    }

    /// Opens a map. Bytes that are no map are refused, and so is a map that is
    /// too large for this machine; bytes that pass for a map must be those that
    /// were written for it.
    pub fn open(bytes: Vec<u8>) -> (r: Option<FstMap>)
        requires
            footer_fits(bytes@) && fst_opens(bytes@) ==> fst_written(bytes@),
        ensures
            match r {
                Some(m) => footer_fits(bytes@) && fst_opens(bytes@) && m.bytes() == bytes@,
                None => !footer_fits(bytes@) || !fst_opens(bytes@),
            },
    {
        if !has_fitting_footer(&bytes) {
            return None;
        }
        match fst_open(bytes) {
            Some(map) => Some(FstMap { map }),
            None => None,
        }
    }

    /// Writes a map and opens it. The keys must ascend.
    pub fn of_pairs(pairs: &Vec<(Vec<u8>, u64)>) -> (r: Option<FstMap>)
        requires
            keys_ascend(pairs@),
        ensures
            r matches Some(m) && m.contents() == pairs_map(pairs@),
    {
        FstMap::open(write_map(pairs))
    }

    /// The value of a key.
    pub fn get(&self, key: &[u8]) -> (r: Option<u64>)
        ensures
            r == (if self.contents().contains_key(key@) {
                Some(self.contents()[key@])
            } else {
                None
            }),
    {
        proof {
            use_type_invariant(self);
        }
        fst_get(&self.map, key)
    }

    /// The least key that is not less than the given one, with its value.
    pub fn next_from(&self, key: &[u8]) -> (r: Option<(Vec<u8>, u64)>)
        ensures
            match r {
                Some((k, v)) => {
                    &&& self.contents().contains_key(k@)
                    &&& self.contents()[k@] == v
                    &&& !bytes_lt(k@, key@)
                    &&& forall|x: Seq<u8>| #[trigger]
                        self.contents().contains_key(x) && !bytes_lt(x, key@) ==> !bytes_lt(x, k@)
                },
                None => forall|x: Seq<u8>| #[trigger]
                    self.contents().contains_key(x) ==> bytes_lt(x, key@),
            },
    {
        proof {
            use_type_invariant(self);
        }
        fst_next(&self.map, key)
    }

    /// Whether `walk` lists the first keys that begin with `prefix`, in
    /// order and with their values: all of them, or `cap` if there are more.
    pub open spec fn is_walk(&self, walk: Seq<(Vec<u8>, u64)>, prefix: Seq<u8>, cap: nat) -> bool {
        &&& walk.len() <= cap
        &&& keys_ascend(walk)
        &&& forall|i: int|
            0 <= i < walk.len() ==> {
                &&& self.contents().contains_key(#[trigger] walk[i].0@)
                &&& self.contents()[walk[i].0@] == walk[i].1
                &&& begins(walk[i].0@, prefix)
            }
        &&& forall|x: Seq<u8>| #[trigger]
            self.contents().contains_key(x) && begins(x, prefix) ==> listed(walk, x) || (walk.len()
                == cap && behind(walk, x))
    }

    /// Walks the keys that begin with `prefix`, at most `cap` of them.
    pub fn prefix_walk(&self, prefix: &[u8], cap: usize) -> (r: Vec<(Vec<u8>, u64)>)
        ensures
            self.is_walk(r@, prefix@, cap as nat),
    {
        let mut out: Vec<(Vec<u8>, u64)> = Vec::new();
        let mut at: Vec<u8> = vstd::slice::slice_to_vec(prefix);
        proof {
            lemma_bytes_irreflexive(prefix@);
            assert forall|x: Seq<u8>| #[trigger]
                self.contents().contains_key(x) && begins(x, prefix@) implies listed(out@, x) || (
            !bytes_lt(x, at@)) by {
                lemma_prefix_first(prefix@, x);
            }
        }
        while out.len() < cap
            invariant_except_break
                forall|x: Seq<u8>| #[trigger]
                    self.contents().contains_key(x) && begins(x, prefix@) ==> listed(out@, x) || (
                    !bytes_lt(x, at@)),
            invariant
                out@.len() <= cap,
                keys_ascend(out@),
                !bytes_lt(at@, prefix@),
                forall|i: int|
                    0 <= i < out@.len() ==> {
                        &&& self.contents().contains_key(#[trigger] out@[i].0@)
                        &&& self.contents()[out@[i].0@] == out@[i].1
                        &&& begins(out@[i].0@, prefix@)
                        &&& bytes_lt(out@[i].0@, at@)
                    },
            ensures
                forall|x: Seq<u8>| #[trigger]
                    self.contents().contains_key(x) && begins(x, prefix@) ==> listed(out@, x) || (
                    out@.len() == cap && !bytes_lt(x, at@)),
            decreases cap - out.len(),
        {
            let found = self.next_from(&at);
            let (k, v) = match found {
                Some(kv) => kv,
                None => {
                    assert forall|x: Seq<u8>| #[trigger]
                        self.contents().contains_key(x) && begins(x, prefix@) implies listed(
                        out@,
                        x,
                    ) by {
                        assert(bytes_lt(x, at@));
                    }
                    break ;
                },
            };
            let more = begins_with(&k, prefix);
            if !more {
                proof {
                    assert(!bytes_lt(k@, prefix@)) by {
                        if bytes_lt(k@, prefix@) {
                            lemma_bytes_total(at@, prefix@);
                            if bytes_lt(prefix@, at@) {
                                lemma_bytes_transitive(k@, prefix@, at@);
                            }
                        }
                    }
                    assert forall|x: Seq<u8>| #[trigger]
                        self.contents().contains_key(x) && begins(x, prefix@) implies listed(
                        out@,
                        x,
                    ) by {
                        if !bytes_lt(x, at@) {
                            assert(!bytes_lt(x, k@));
                            lemma_prefix_block(prefix@, k@, x);
                        }
                    }
                }
                break ;
            }
            let mut next: Vec<u8> = vstd::slice::slice_to_vec(k.as_slice());
            next.push(0);
            let ghost before = out@;
            let ghost old_at = at@;
            out.push((k, v));
            at = next;
            proof {
                let key = out@[before.len() as int].0@;
                assert(at@ =~= key.push(0));
                lemma_successor(key, key);
                assert(!bytes_lt(key, old_at));
                assert forall|i: int| 0 <= i < before.len() implies bytes_lt(
                    #[trigger] out@[i].0@,
                    key,
                ) by {
                    assert(out@[i] == before[i]);
                    assert(bytes_lt(before[i].0@, old_at));
                    lemma_bytes_total(old_at, key);
                    if bytes_lt(old_at, key) {
                        lemma_bytes_transitive(before[i].0@, old_at, key);
                    }
                }
                assert forall|i: int, j: int| 0 <= i < j < out@.len() implies bytes_lt(
                    #[trigger] out@[i].0@,
                    #[trigger] out@[j].0@,
                ) by {
                    if j < before.len() {
                        assert(out@[i] == before[i] && out@[j] == before[j]);
                    }
                }
                assert forall|i: int| 0 <= i < out@.len() implies {
                    &&& self.contents().contains_key(#[trigger] out@[i].0@)
                    &&& self.contents()[out@[i].0@] == out@[i].1
                    &&& begins(out@[i].0@, prefix@)
                    &&& bytes_lt(out@[i].0@, at@)
                } by {
                    if i < before.len() {
                        assert(out@[i] == before[i]);
                        assert(bytes_lt(out@[i].0@, key));
                        lemma_bytes_transitive(out@[i].0@, key, at@);
                    }
                }
                assert(!bytes_lt(at@, prefix@)) by {
                    lemma_prefix_first(prefix@, key);
                    if bytes_lt(at@, prefix@) {
                        lemma_bytes_transitive(key, at@, prefix@);
                    }
                }
                assert forall|x: Seq<u8>| #[trigger]
                    self.contents().contains_key(x) && begins(x, prefix@) implies listed(out@, x) || (
                !bytes_lt(x, at@)) by {
                    if listed(before, x) {
                        let i = choose|i: int| 0 <= i < before.len() && #[trigger] before[i].0@ == x;
                        assert(out@[i] == before[i]);
                        assert(out@[i].0@ == x);
                    } else {
                        assert(!bytes_lt(x, old_at));
                        assert(!bytes_lt(x, key));
                        lemma_bytes_total(x, key);
                        if x == key {
                            assert(out@[before.len() as int].0@ == x);
                        } else {
                            lemma_successor(key, x);
                        }
                    }
                }
            }
        }
        proof {
            assert forall|x: Seq<u8>| #[trigger]
                self.contents().contains_key(x) && begins(x, prefix@) implies listed(out@, x) || (
            out@.len() == cap && behind(out@, x)) by {
                if !listed(out@, x) {
                    assert(out@.len() == cap && !bytes_lt(x, at@));
                    assert forall|i: int| 0 <= i < out@.len() implies bytes_lt(
                        #[trigger] out@[i].0@,
                        x,
                    ) by {
                        lemma_bytes_total(at@, x);
                        if bytes_lt(at@, x) {
                            lemma_bytes_transitive(out@[i].0@, at@, x);
                        }
                    }
                }
            }
        }
        out
    }
}

/// Whether a walk lists `x`.
pub open spec fn listed(walk: Seq<(Vec<u8>, u64)>, x: Seq<u8>) -> bool {
    exists|i: int| 0 <= i < walk.len() && #[trigger] walk[i].0@ == x
}

/// Whether `x` stands behind everything that a walk lists.
pub open spec fn behind(walk: Seq<(Vec<u8>, u64)>, x: Seq<u8>) -> bool {
    forall|i: int| 0 <= i < walk.len() ==> bytes_lt(#[trigger] walk[i].0@, x)
}

/// Whether `s` begins with `p`.
pub fn begins_with(s: &[u8], p: &[u8]) -> (r: bool)
    ensures
        r == begins(s@, p@),
{
    if p.len() > s.len() {
        return false;
    }
    for i in 0..p.len()
        invariant
            p@.len() <= s@.len(),
            forall|j: int| 0 <= j < i ==> s@[j] == p@[j],
    {
        if s[i] != p[i] {
            assert(s@.take(p@.len() as int)[i as int] != p@[i as int]);
            return false;
        }
    }
    assert(s@.take(p@.len() as int) =~= p@);
    true
}

// --- Laws ---
proof fn lemma_pairs_map_domain(pairs: Seq<(Vec<u8>, u64)>, x: Seq<u8>)
    ensures
        pairs_map(pairs).contains_key(x) <==> listed(pairs, x),
    decreases pairs.len(),
{
    if pairs.len() > 0 {
        let front = pairs.drop_last();
        lemma_pairs_map_domain(front, x);
        if listed(front, x) {
            let i = choose|i: int| 0 <= i < front.len() && #[trigger] front[i].0@ == x;
            assert(pairs[i].0@ == x);
        }
        if pairs.last().0@ == x {
            assert(pairs[pairs.len() - 1].0@ == x);
        }
        if listed(pairs, x) && pairs.last().0@ != x {
            let i = choose|i: int| 0 <= i < pairs.len() && #[trigger] pairs[i].0@ == x;
            assert(front[i].0@ == x);
        }
    }
}

/// A map that was written gives back each of its pairs, and no other key.
pub proof fn law_written_map_reads_back(bytes: Seq<u8>, pairs: Seq<(Vec<u8>, u64)>)
    requires
        keys_ascend(pairs),
        fst_contents(bytes) == pairs_map(pairs),
    ensures
        forall|i: int|
            0 <= i < pairs.len() ==> {
                &&& fst_contents(bytes).contains_key(#[trigger] pairs[i].0@)
                &&& fst_contents(bytes)[pairs[i].0@] == pairs[i].1
            },
        forall|x: Seq<u8>| #[trigger] fst_contents(bytes).contains_key(x) ==> listed(pairs, x),
    decreases pairs.len(),
{
    assert forall|x: Seq<u8>| #[trigger] fst_contents(bytes).contains_key(x) implies listed(
        pairs,
        x,
    ) by {
        lemma_pairs_map_domain(pairs, x);
    }
    assert forall|i: int| 0 <= i < pairs.len() implies {
        &&& fst_contents(bytes).contains_key(#[trigger] pairs[i].0@)
        &&& fst_contents(bytes)[pairs[i].0@] == pairs[i].1
    } by {
        lemma_pairs_map_value(pairs, i);
    }
}

proof fn lemma_pairs_map_value(pairs: Seq<(Vec<u8>, u64)>, i: int)
    requires
        keys_ascend(pairs),
        0 <= i < pairs.len(),
    ensures
        pairs_map(pairs).contains_key(pairs[i].0@),
        pairs_map(pairs)[pairs[i].0@] == pairs[i].1,
    decreases pairs.len(),
{
    let n = pairs.len() - 1;
    if i < n {
        let front = pairs.drop_last();
        assert forall|a: int, b: int| 0 <= a < b < front.len() implies bytes_lt(
            #[trigger] front[a].0@,
            #[trigger] front[b].0@,
        ) by {
            assert(bytes_lt(pairs[a].0@, pairs[b].0@));
        }
        assert(front[i] == pairs[i]);
        lemma_pairs_map_value(front, i);
        assert(bytes_lt(pairs[i].0@, pairs[n].0@));
        lemma_bytes_irreflexive(pairs[i].0@);
    }
}

} // verus!
