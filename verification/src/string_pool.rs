//! A pool of NUL-terminated strings, each stored once, found by its offset.
use vstd::hash_map::StringHashMap;
use vstd::prelude::*;
use vstd::utf8::{
    decode_utf8, encode_scalar, encode_utf8, encode_utf8_decode_utf8, encode_utf8_valid_utf8,
    has_width_1_encoding,
};
use crate::bytes::{cstr, lemma_nul_from, nul_from, text_at};
use crate::text::str_eq;

verus! {

broadcast use vstd::seq::group_seq_axioms;

/// A pool under construction.
pub struct StringPool {
    data: Vec<u8>,
    index: StringHashMap<u32>,
    held: Ghost<Seq<Seq<char>>>,
}

/// The bytes that strings take in a pool, each with a NUL behind it.
pub open spec fn total(texts: Seq<Seq<char>>) -> nat
    decreases texts.len(),
{
    if texts.len() == 0 {
        0
    } else {
        total(texts.drop_last()) + encode_utf8(texts.last()).len() + 1
    }
}

/// What a pool holds once it was given some strings more: those that it held
/// not yet are behind the others.
pub open spec fn with_texts(held: Seq<Seq<char>>, more: Seq<Seq<char>>) -> Seq<Seq<char>>
    decreases more.len(),
{
    if more.len() == 0 {
        held
    } else {
        let before = with_texts(held, more.drop_last());
        if before.contains(more.last()) {
            before
        } else {
            before.push(more.last())
        }
    }
}

pub open spec fn str_views(v: Seq<&str>) -> Seq<Seq<char>> {
    Seq::new(v.len(), |i: int| v[i]@)
}

/// Whether `bytes` holds the encoding of `s` at `off`, with a NUL behind it.
pub open spec fn stored_at(bytes: Seq<u8>, s: Seq<char>, off: int) -> bool {
    let n = encode_utf8(s).len();
    &&& 0 <= off
    &&& off + n < bytes.len()
    &&& bytes.subrange(off, off + n) == encode_utf8(s)
    &&& bytes[off + n] == 0
}

impl StringPool {
    /// The bytes of the pool.
    pub closed spec fn bytes(&self) -> Seq<u8> {
        self.data@
    }

    /// The strings in the pool, with their offsets.
    pub closed spec fn offsets(&self) -> Map<Seq<char>, u32> {
        self.index@
    }

    /// The strings in the pool, in the order in which they came.
    pub closed spec fn texts(&self) -> Seq<Seq<char>> {
        self.held@
    }

    /// Every string stands where its offset says, each once, and nothing else
    /// is in the pool.
    pub open spec fn wf(&self) -> bool {
        &&& forall|s: Seq<char>| #[trigger]
            self.offsets().contains_key(s) ==> stored_at(
                self.bytes(),
                s,
                self.offsets()[s] as int,
            )
        &&& forall|s: Seq<char>| #[trigger]
            self.offsets().contains_key(s) <==> self.texts().contains(s)
        &&& self.texts().no_duplicates()
        &&& self.bytes().len() == total(self.texts())
    }

    /// A pool without any string.
    pub fn empty() -> (r: StringPool)
        ensures
            r.wf(),
            r.bytes() == Seq::<u8>::empty(),
            r.offsets() == Map::<Seq<char>, u32>::empty(),
            r.texts() == Seq::<Seq<char>>::empty(),
    {
        StringPool { data: Vec::new(), index: StringHashMap::new(), held: Ghost(Seq::empty()) }
    }

    /// A pool that holds the empty string alone, at offset zero, so that an
    /// offset that was never set reads as empty.
    pub fn new() -> (r: StringPool)
        ensures
            r.wf(),
            r.bytes() == seq![0u8],
            r.offsets() == Map::<Seq<char>, u32>::empty().insert(Seq::empty(), 0),
            r.texts() == seq![Seq::<char>::empty()],
    {
        let mut data: Vec<u8> = Vec::new();
        data.push(0);
        let mut index: StringHashMap<u32> = StringHashMap::new();
        index.insert(String::new(), 0);
        let ghost held = seq![Seq::<char>::empty()];
        let r = StringPool { data, index, held: Ghost(held) };
        assert(r.texts()[0] == Seq::<char>::empty());
        assert(r.texts().drop_last() =~= Seq::<Seq<char>>::empty());
        assert(total(r.texts()) == 1) by {
            reveal_with_fuel(total, 2);
            assert(encode_utf8(Seq::<char>::empty()) =~= Seq::<u8>::empty());
        }
        assert(encode_utf8(Seq::<char>::empty()) =~= Seq::<u8>::empty());
        assert(r.bytes() =~= seq![0u8]);
        assert(r.bytes().subrange(0, 0) =~= Seq::<u8>::empty());
        r
    }

    /// The size of the pool in bytes.
    pub fn len(&self) -> (r: usize)
        ensures
            r == self.bytes().len(),
    {
        self.data.len()
    }

    /// The offset of `s`. A string that the pool does not hold yet goes to its
    /// end.
    pub fn intern(&mut self, s: &str) -> (r: u32)
        requires
            old(self).wf(),
            old(self).bytes().len() <= u32::MAX,
        ensures
            final(self).wf(),
            final(self).offsets() == old(self).offsets().insert(s@, r),
            final(self).texts() == with_texts(old(self).texts(), seq![s@]),
            if old(self).offsets().contains_key(s@) {
                r == old(self).offsets()[s@] && final(self).bytes() == old(self).bytes()
            } else {
                r == old(self).bytes().len() && final(self).bytes() == old(self).bytes()
                    + encode_utf8(s@) + seq![0u8]
            },
    {
        proof {
            lemma_with_one(self.texts(), s@);
        }
        match self.index.get(s) {
            Some(off) => {
                let r: u32 = *off;
                assert(self.offsets().contains_key(s@));
                assert(self.offsets() =~= self.offsets().insert(s@, r));
                r
            },
            None => {
                let off: u32 = self.data.len() as u32;
                let bytes = s.as_bytes();
                let ghost before = self.data@;
                for i in 0..bytes.len()
                    invariant
                        self.data@ == before + bytes@.take(i as int),
                        self.index == old(self).index,
                        self.held == old(self).held,
                {
                    self.data.push(bytes[i]);
                    assert(bytes@.take(i + 1) =~= bytes@.take(i as int).push(bytes@[i as int]));
                }
                assert(bytes@.take(bytes@.len() as int) =~= bytes@);
                self.data.push(0);
                self.index.insert(s.to_owned(), off);
                self.held = Ghost(self.held@.push(s@));
                proof {
                    let all = self.bytes();
                    let had = old(self).texts();
                    assert(!had.contains(s@)) by {
                        assert(!old(self).offsets().contains_key(s@));
                    }
                    assert(self.texts().drop_last() =~= had);
                    assert forall|t: Seq<char>| #[trigger]
                        self.offsets().contains_key(t) <==> self.texts().contains(t) by {
                        assert(old(self).offsets().contains_key(t) <==> had.contains(t));
                        lemma_push_contains(had, s@, t);
                    }
                    assert forall|i: int, j: int|
                        0 <= i < self.texts().len() && 0 <= j < self.texts().len() && i
                            != j implies self.texts()[i] != self.texts()[j] by {
                        if i == had.len() {
                            assert(self.texts()[j] == had[j]);
                        } else if j == had.len() {
                            assert(self.texts()[i] == had[i]);
                        }
                    }
                    assert(all =~= before + encode_utf8(s@) + seq![0u8]);
                    assert(all.subrange(off as int, off + encode_utf8(s@).len()) =~= encode_utf8(s@));
                    assert forall|t: Seq<char>| #[trigger]
                        self.offsets().contains_key(t) implies stored_at(
                        all,
                        t,
                        self.offsets()[t] as int,
                    ) by {
                        if t != s@ {
                            let o = old(self).offsets()[t] as int;
                            let n = encode_utf8(t).len();
                            assert(stored_at(before, t, o));
                            assert(all.subrange(o, o + n) =~= before.subrange(o, o + n));
                        }
                    }
                }
                off
            },
        }
    }

    /// The size that the pool would have with some strings more.
    pub fn size_with(&self, more: &[&str]) -> (r: u128)
        requires
            self.wf(),
            more@.len() <= 4,
        ensures
            r == total(with_texts(self.texts(), str_views(more@))),
    {
        let mut size: u128 = self.data.len() as u128;
        let ghost views = str_views(more@);
        assert(views.take(0) =~= Seq::<Seq<char>>::empty());
        for i in 0..more.len()
            invariant
                self.wf(),
                views == str_views(more@),
                more@.len() <= 4,
                size == total(with_texts(self.texts(), views.take(i as int))),
                size <= (i + 1) * 0x1_0000_0000_0000_0000,
        {
            let ghost before = with_texts(self.texts(), views.take(i as int));
            let s = more[i];
            let mut known = self.index.contains_key(s);
            assert(known <==> self.texts().contains(s@)) by {
                assert(self.offsets().contains_key(s@) <==> self.texts().contains(s@));
            }
            for j in 0..i
                invariant
                    i < more@.len(),
                    views == str_views(more@),
                    s@ == views[i as int],
                    known <==> self.texts().contains(s@) || views.take(j as int).contains(s@),
            {
                assert(views.take(j + 1) =~= views.take(j as int).push(views[j as int]));
                if str_eq(s, more[j]) {
                    known = true;
                }
                proof {
                    lemma_push_contains(views.take(j as int), views[j as int], s@);
                }
            }
            proof {
                lemma_with_contains(self.texts(), views.take(i as int), s@);
                assert(views.take(i + 1).drop_last() =~= views.take(i as int));
                assert(before.push(s@).drop_last() =~= before);
            }
            if !known {
                size = size + s.as_bytes().len() as u128 + 1;
            }
        }
        assert(views.take(views.len() as int) =~= views);
        size
    }

    /// The bytes of the pool.
    pub fn as_bytes(&self) -> (r: &[u8])
        ensures
            r@ == self.bytes(),
    {
        self.data.as_slice()
    }

    /// The bytes of the pool.
    pub fn into_bytes(self) -> (r: Vec<u8>)
        ensures
            r@ == self.bytes(),
    {
        self.data
    }
}

// --- Laws ---
proof fn lemma_push_contains(texts: Seq<Seq<char>>, s: Seq<char>, t: Seq<char>)
    ensures
        texts.push(s).contains(t) <==> texts.contains(t) || s == t,
{
    if texts.contains(t) {
        let i = choose|i: int| 0 <= i < texts.len() && texts[i] == t;
        assert(texts.push(s)[i] == t);
    }
    if s == t {
        assert(texts.push(s)[texts.len() as int] == t);
    }
    if texts.push(s).contains(t) {
        let i = choose|i: int| 0 <= i < texts.push(s).len() && texts.push(s)[i] == t;
        if i < texts.len() {
            assert(texts[i] == t);
        }
    }
}

proof fn lemma_with_one(held: Seq<Seq<char>>, s: Seq<char>)
    ensures
        with_texts(held, seq![s]) == (if held.contains(s) {
            held
        } else {
            held.push(s)
        }),
{
    reveal_with_fuel(with_texts, 2);
    assert(seq![s].drop_last() =~= Seq::<Seq<char>>::empty());
}

/// A string that a pool holds changes nothing.
pub proof fn lemma_with_held(held: Seq<Seq<char>>, s: Seq<char>)
    requires
        held.contains(s),
    ensures
        with_texts(held, seq![s]) == held,
{
    lemma_with_one(held, s);
}

/// A pool that was given some strings holds these and what it held, and nothing
/// else.
pub proof fn lemma_with_contains(held: Seq<Seq<char>>, more: Seq<Seq<char>>, t: Seq<char>)
    ensures
        with_texts(held, more).contains(t) <==> held.contains(t) || more.contains(t),
    decreases more.len(),
{
    if more.len() > 0 {
        let front = more.drop_last();
        lemma_with_contains(held, front, t);
        lemma_with_contains(held, front, more.last());
        assert(more =~= front.push(more.last()));
        lemma_push_contains(front, more.last(), t);
        lemma_push_contains(with_texts(held, front), more.last(), t);
    }
}

/// Giving a pool some strings and then others is giving it all of them.
pub proof fn lemma_with_split(held: Seq<Seq<char>>, a: Seq<Seq<char>>, b: Seq<Seq<char>>)
    ensures
        with_texts(with_texts(held, a), b) == with_texts(held, a + b),
    decreases b.len(),
{
    if b.len() > 0 {
        lemma_with_split(held, a, b.drop_last());
        assert((a + b).drop_last() =~= a + b.drop_last());
    } else {
        assert(a + b =~= a);
    }
}

/// A pool still holds each string once after it was given others.
pub proof fn lemma_with_distinct(held: Seq<Seq<char>>, more: Seq<Seq<char>>)
    requires
        held.no_duplicates(),
    ensures
        with_texts(held, more).no_duplicates(),
        total(held) <= total(with_texts(held, more)),
    decreases more.len(),
{
    if more.len() > 0 {
        lemma_with_distinct(held, more.drop_last());
        let before = with_texts(held, more.drop_last());
        let after = with_texts(held, more);
        assert(before.push(more.last()).drop_last() =~= before);
        assert forall|i: int, j: int|
            0 <= i < after.len() && 0 <= j < after.len() && i != j implies after[i] != after[j] by {
            if i < before.len() {
                assert(after[i] == before[i]);
            }
            if j < before.len() {
                assert(after[j] == before[j]);
            }
        }
    }
}

/// One string more of those that a pool is given.
pub proof fn lemma_with_step(held: Seq<Seq<char>>, more: Seq<Seq<char>>, n: int)
    requires
        held.no_duplicates(),
        0 <= n < more.len(),
    ensures
        with_texts(with_texts(held, more.take(n)), seq![more[n]]) == with_texts(
            held,
            more.take(n + 1),
        ),
        total(with_texts(held, more.take(n + 1))) <= total(with_texts(held, more)),
{
    lemma_with_split(held, more.take(n), seq![more[n]]);
    assert(more.take(n) + seq![more[n]] =~= more.take(n + 1));
    lemma_with_split(held, more.take(n + 1), more.skip(n + 1));
    assert(more.take(n + 1) + more.skip(n + 1) =~= more);
    lemma_with_distinct(held, more.take(n + 1));
    lemma_with_distinct(with_texts(held, more.take(n + 1)), more.skip(n + 1));
}

proof fn lemma_total_remove(texts: Seq<Seq<char>>, at: int)
    requires
        0 <= at < texts.len(),
    ensures
        total(texts) == total(texts.remove(at)) + encode_utf8(texts[at]).len() + 1,
    decreases texts.len(),
{
    let less = texts.remove(at);
    if at == texts.len() - 1 {
        assert(less =~= texts.drop_last());
    } else {
        lemma_total_remove(texts.drop_last(), at);
        assert(less.drop_last() =~= texts.drop_last().remove(at));
        assert(less.last() == texts.last());
    }
}

/// Different strings of a pool take no more bytes than the pool.
pub proof fn lemma_total_subset(some: Seq<Seq<char>>, all: Seq<Seq<char>>)
    requires
        some.no_duplicates(),
        forall|i: int| 0 <= i < some.len() ==> all.contains(#[trigger] some[i]),
    ensures
        total(some) <= total(all),
    decreases some.len(),
{
    if some.len() > 0 {
        let s = some.last();
        assert(all.contains(some[some.len() - 1]));
        let at = choose|at: int| 0 <= at < all.len() && all[at] == s;
        let less = all.remove(at);
        let front = some.drop_last();
        assert forall|i: int| 0 <= i < front.len() implies less.contains(#[trigger] front[i]) by {
            assert(front[i] == some[i]);
            assert(all.contains(some[i]));
            let j = choose|j: int| 0 <= j < all.len() && all[j] == some[i];
            assert(some[i] != some[some.len() - 1]);
            if j < at {
                assert(less[j] == some[i]);
            } else {
                assert(less[j - 1] == some[i]);
            }
        }
        lemma_total_subset(front, less);
        lemma_total_remove(all, at);
    }
}

proof fn lemma_scalar_no_nul(c: u32)
    requires
        c != 0,
    ensures
        forall|i: int| 0 <= i < encode_scalar(c).len() ==> #[trigger] encode_scalar(c)[i] != 0,
{
    assert(forall|x: u8| #[trigger] (0x80u8 | x) != 0) by (bit_vector);
    assert(forall|x: u8| #[trigger] (0xC0u8 | x) != 0) by (bit_vector);
    assert(forall|x: u8| #[trigger] (0xE0u8 | x) != 0) by (bit_vector);
    assert(forall|x: u8| #[trigger] (0xF0u8 | x) != 0) by (bit_vector);
    if has_width_1_encoding(c) {
        assert((c & 0x7F) as u8 != 0) by (bit_vector)
            requires
                c != 0,
                c <= 0x7F,
        ;
    }
}

/// Text without a NUL character is encoded without a NUL byte.
pub proof fn lemma_no_nul_bytes(s: Seq<char>)
    requires
        forall|i: int| 0 <= i < s.len() ==> #[trigger] s[i] != '\0',
    ensures
        forall|i: int| 0 <= i < encode_utf8(s).len() ==> #[trigger] encode_utf8(s)[i] != 0,
    decreases s.len(),
{
    if s.len() > 0 {
        let t = s.drop_first();
        let c: char = s[0];
        assert(c != '\0');
        vstd::utf8::char_is_scalar(c);
        vstd::utf8::char_u32_cast(c, c as u32);
        assert(c as u32 != 0);
        lemma_scalar_no_nul(c as u32);
        assert forall|i: int| 0 <= i < t.len() implies #[trigger] t[i] != '\0' by {
            assert(t[i] == s[i + 1]);
        }
        lemma_no_nul_bytes(t);
        let head = encode_scalar(s[0] as u32);
        assert forall|i: int| 0 <= i < encode_utf8(s).len() implies #[trigger] encode_utf8(s)[i] != 0 by {
            if i < head.len() {
                assert(encode_utf8(s)[i] == head[i]);
            } else {
                assert(encode_utf8(s)[i] == encode_utf8(t)[i - head.len()]);
            }
        }
    }
}

proof fn lemma_nul_from_is(bytes: Seq<u8>, off: int, end: int)
    requires
        0 <= off <= end < bytes.len(),
        forall|j: int| off <= j < end ==> bytes[j] != 0,
        bytes[end] == 0,
    ensures
        nul_from(bytes, off) == end,
{
    lemma_nul_from(bytes, off);
    let k = nul_from(bytes, off);
    if k < end {
        assert(bytes[k] != 0);
    } else if k > end {
        assert(bytes[end] != 0);
    }
}

/// The bytes read at the offset of a string without a NUL character are those
/// of the string.
pub proof fn lemma_stored_cstr(bytes: Seq<u8>, s: Seq<char>, off: int)
    requires
        stored_at(bytes, s, off),
        forall|i: int| 0 <= i < s.len() ==> #[trigger] s[i] != '\0',
    ensures
        cstr(bytes, off) == encode_utf8(s),
{
    let e = encode_utf8(s);
    let end = off + e.len();
    lemma_no_nul_bytes(s);
    assert forall|j: int| off <= j < end implies bytes[j] != 0 by {
        assert(bytes.subrange(off, end)[j - off] == bytes[j]);
        assert(e[j - off] != 0);
    }
    lemma_nul_from_is(bytes, off, end);
}

/// Reading a pool at the offset of a string gives back the string, if there is
/// no NUL character in it.
pub proof fn law_stored_reads_back(bytes: Seq<u8>, s: Seq<char>, off: int)
    requires
        stored_at(bytes, s, off),
        forall|i: int| 0 <= i < s.len() ==> #[trigger] s[i] != '\0',
    ensures
        text_at(bytes, off) == s,
{
    lemma_stored_cstr(bytes, s, off);
    encode_utf8_valid_utf8(s);
    encode_utf8_decode_utf8(s);
}

/// What a pool holds stays readable at its offset however the pool grows.
pub proof fn law_growth_keeps_strings(before: Seq<u8>, more: Seq<u8>, s: Seq<char>, off: int)
    requires
        stored_at(before, s, off),
    ensures
        stored_at(before + more, s, off),
{
    let n = encode_utf8(s).len();
    assert((before + more).subrange(off, off + n) =~= before.subrange(off, off + n));
}

/// Offset zero of a pool that began with the empty string reads as empty,
/// however the pool grew.
pub proof fn law_offset_zero_is_empty(more: Seq<u8>)
    ensures
        text_at(seq![0u8] + more, 0) == Seq::<char>::empty(),
{
    assert(cstr(seq![0u8] + more, 0) =~= Seq::<u8>::empty());
    assert(decode_utf8(Seq::<u8>::empty()) =~= Seq::<char>::empty());
}

} // verus!
