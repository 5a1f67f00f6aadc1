//! Postcodes as things to be found by autocomplete: one point for each
//! country and code.
//!
//! They come from the address datasets and, where those have none, from a list
//! of postal centroids. The address records of the reverse index hold no
//! postcode, so none comes from there.
use std::collections::HashSet;
use vstd::hash_map::StringHashMap;
use vstd::prelude::*;
use vstd::utf8::encode_utf8;
use crate::address_points::AddressPointIndex;
use crate::autocomplete::KIND_POSTCODE;
use crate::country_list::CountryFilter;
use crate::fst_map::bytes_lt;
use crate::ieee::{at_most32, le32, less32, lt32, rank32};
use crate::name_candidates::Classified;
use crate::name_index::NameCandidate;
use crate::openaddresses::code_text;
use crate::sorting::sort_keys;
use crate::text::{
    append_chars, append_str, chars_of, opt_str_view, split_on, split_seq, str_eq, string_of,
    sub_chars, views,
};
use crate::unicode::{is_alnum, is_alphanumeric, to_uppercase, upper_of};

verus! {

broadcast use {vstd::seq::group_seq_axioms, vstd::std_specs::hash::group_hash_axioms};

/// The rank of a postcode.
pub const POSTCODE_RANK: u8 = 12;

/// Fewest bytes of a postcode.
pub const MIN_CODE_LEN: usize = 3;

/// Most bytes of a postcode.
pub const MAX_CODE_LEN: usize = 10;

/// The bounds of coordinates (binary32 bit patterns).
pub const MIN_LAT: u32 = 0xc2b4_0000;

pub const MAX_LAT: u32 = 0x42b4_0000;

pub const MIN_LNG: u32 = 0xc334_0000;

pub const MAX_LNG: u32 = 0x4334_0000;

/// A postcode and the point that stands for it. The coordinates are bit
/// patterns (binary32).
pub struct Postal<'a> {
    /// The country code, in lower case.
    pub cc: [u8; 2],
    /// As it is written in its country.
    pub name: String,
    /// Without separators.
    pub compact: String,
    pub lat: u32,
    pub lng: u32,
    pub suburb: Option<&'a str>,
}

/// The content of a [`Postal`].
pub struct PostalText {
    pub cc: Seq<u8>,
    pub name: Seq<char>,
    pub compact: Seq<char>,
    pub lat: u32,
    pub lng: u32,
    pub suburb: Option<Seq<char>>,
}

impl<'a> View for Postal<'a> {
    type V = PostalText;

    open spec fn view(&self) -> PostalText {
        PostalText {
            cc: self.cc@,
            name: self.name@,
            compact: self.compact@,
            lat: self.lat,
            lng: self.lng,
            suburb: opt_str_view(self.suburb),
        }
    }
}

/// A postcode without its separators, in upper case.
pub open spec fn compacted(s: Seq<char>) -> Seq<char>
    decreases s.len(),
{
    if s.len() == 0 {
        Seq::empty()
    } else if is_alnum(s.last()) {
        compacted(s.drop_last()) + upper_of(s.last())
    } else {
        compacted(s.drop_last())
    }
}

/// Takes the separators out of a postcode, and puts it into upper case.
pub fn normalize_postcode(raw: &str) -> (r: String)
    ensures
        r@ == compacted(raw@),
{
    let chars = chars_of(raw);
    let mut out: Vec<char> = Vec::new();
    for i in 0..chars.len()
        invariant
            chars@ == raw@,
            out@ == compacted(chars@.take(i as int)),
    {
        assert(chars@.take(i + 1).drop_last() =~= chars@.take(i as int));
        if is_alphanumeric(chars[i]) {
            append_chars(&mut out, &to_uppercase(chars[i]));
        }
    }
    assert(chars@.take(chars@.len() as int) =~= chars@);
    string_of(&out)
}

/// Separators make no difference to a postcode: a code with a separator in it
/// is filed under the same name as the code without.
pub proof fn law_separators_do_not_count(a: Seq<char>, c: char, b: Seq<char>)
    requires
        !is_alnum(c),
    ensures
        compacted(a.push(c) + b) == compacted(a + b),
    decreases b.len(),
{
    if b.len() == 0 {
        assert(a.push(c) + b =~= a.push(c));
        assert(a.push(c).drop_last() =~= a);
        assert(a + b =~= a);
    } else {
        law_separators_do_not_count(a, c, b.drop_last());
        assert((a.push(c) + b).drop_last() =~= a.push(c) + b.drop_last());
        assert((a + b).drop_last() =~= a + b.drop_last());
    }
}

/// Where a postcode of a country has its space, if it is written with one:
/// before the last three characters in Britain, in the middle in Canada, and
/// behind the four digits in the Netherlands.
pub open spec fn space_place(code: Seq<char>, cc: [u8; 2]) -> Option<int> {
    if cc@ == seq![103u8, 98u8] && 5 <= code.len() <= 7 {
        Some(code.len() - 3)
    } else if cc@ == seq![99u8, 97u8] && code.len() == 6 {
        Some(3int)
    } else if cc@ == seq![110u8, 108u8] && code.len() == 6 {
        Some(4int)
    } else {
        None
    }
}

/// A postcode without separators, as it is written in a country.
pub open spec fn written_code(code: Seq<char>, cc: [u8; 2]) -> Seq<char> {
    match space_place(code, cc) {
        Some(k) => code.take(k).push(' ') + code.skip(k),
        None => code,
    }
}

/// A postcode without separators, as it is written in a country. The country
/// code is in lower case.
pub fn display_postcode(code: &str, cc: &[u8; 2]) -> (r: String)
    ensures
        r@ == written_code(code@, *cc),
{
    let chars = chars_of(code);
    let n: usize = chars.len();
    let gb = cc[0] == 103 && cc[1] == 98;
    let ca = cc[0] == 99 && cc[1] == 97;
    let nl = cc[0] == 110 && cc[1] == 108;
    assert(gb <==> cc@ =~= seq![103u8, 98u8]);
    assert(ca <==> cc@ =~= seq![99u8, 97u8]);
    assert(nl <==> cc@ =~= seq![110u8, 108u8]);
    let k: usize = if gb && 5 <= n && n <= 7 {
        n - 3
    } else if ca && n == 6 {
        3
    } else if nl && n == 6 {
        4
    } else {
        return code.to_owned();
    };
    let mut out: Vec<char> = sub_chars(&chars, 0, k);
    out.push(' ');
    append_chars(&mut out, &sub_chars(&chars, k, n));
    assert(out@ =~= code@.take(k as int).push(' ') + code@.skip(k as int));
    string_of(&out)
}

/// How a postcode is written makes no difference to what it is filed under: a
/// code as it is typed with its space, and as it is typed without, have the
/// same form without separators.
pub proof fn law_written_code_is_the_same_code(code: Seq<char>, cc: [u8; 2])
    ensures
        compacted(written_code(code, cc)) == compacted(code),
{
    match space_place(code, cc) {
        Some(k) => {
            law_separators_do_not_count(code.take(k), ' ', code.skip(k));
            assert(code.take(k) + code.skip(k) =~= code);
        },
        None => {},
    }
}

/// The name of a postcode comes from its country and from the form without
/// separators alone: however it was written where it was found, it has one name.
pub proof fn law_one_name_for_one_code(
    cc: [u8; 2],
    a: Seq<char>,
    b: Seq<char>,
    lat: u32,
    lng: u32,
    suburb: Option<Seq<char>>,
)
    requires
        compacted(a) == compacted(b),
    ensures
        sample_text(cc, a, lat, lng, suburb) == sample_text(cc, b, lat, lng, suburb),
{
}

/// A postcode as it is found at a point.
pub open spec fn sample_text(
    cc: [u8; 2],
    raw: Seq<char>,
    lat: u32,
    lng: u32,
    suburb: Option<Seq<char>>,
) -> PostalText {
    let code = compacted(raw);
    PostalText { cc: cc@, name: written_code(code, cc), compact: code, lat, lng, suburb }
}

fn sample<'a>(cc: [u8; 2], raw: &str, lat: u32, lng: u32, suburb: Option<&'a str>) -> (r: Postal<
    'a,
>)
    ensures
        r.cc == cc,
        r@ == sample_text(cc, raw@, lat, lng, opt_str_view(suburb)),
{
    let compact = normalize_postcode(raw);
    Postal { cc, name: display_postcode(compact.as_str(), &cc), compact, lat, lng, suburb }
}

/// Whether a point comes before another: by latitude, then by longitude.
pub open spec fn point_lt(lat_a: u32, lng_a: u32, lat_b: u32, lng_b: u32) -> bool {
    lt32(lat_a, lat_b) || (le32(lat_a, lat_b) && le32(lat_b, lat_a) && lt32(lng_a, lng_b))
}

/// What a postcode of a country is filed under.
pub open spec fn postal_key(cc: [u8; 2], code: Seq<char>) -> Seq<char> {
    code_text(cc) + code
}

/// Whether a code is long enough and not too long.
pub open spec fn code_fits(code: Seq<char>) -> bool {
    MIN_CODE_LEN <= encode_utf8(code).len() <= MAX_CODE_LEN
}

/// The postcodes that were met.
pub struct PostalBook<'a> {
    pub codes: Vec<Postal<'a>>,
    /// Where each code stands.
    pub places: StringHashMap<usize>,
}

impl<'a> PostalBook<'a> {
    pub open spec fn wf(&self) -> bool {
        &&& forall|k: Seq<char>| #[trigger]
            self.places@.contains_key(k) ==> self.places@[k] < self.codes@.len() && postal_key(
                self.codes@[self.places@[k] as int].cc,
                self.codes@[self.places@[k] as int].compact@,
            ) == k
        &&& forall|i: int|
            0 <= i < self.codes@.len() ==> {
                let k = postal_key((#[trigger] self.codes@[i]).cc, self.codes@[i].compact@);
                self.places@.contains_key(k) && self.places@[k] == i
            }
    }

    /// The postcodes by their keys.
    pub open spec fn contents(&self) -> Map<Seq<char>, PostalText> {
        Map::new(
            |k: Seq<char>| self.places@.contains_key(k),
            |k: Seq<char>| self.codes@[self.places@[k] as int]@,
        )
    }

    pub fn new() -> (r: PostalBook<'a>)
        ensures
            r.wf(),
            r.contents() == Map::<Seq<char>, PostalText>::empty(),
    {
        let r = PostalBook { codes: Vec::new(), places: StringHashMap::new() };
        assert(r.contents() =~= Map::<Seq<char>, PostalText>::empty());
        r
    }

    /// What the book holds once a sample was taken: the first point of a
    /// postcode in the order of points stands for it.
    pub open spec fn with_sample(
        contents: Map<Seq<char>, PostalText>,
        key: Seq<char>,
        sample: PostalText,
    ) -> Map<Seq<char>, PostalText> {
        if !code_fits(sample.compact) {
            contents
        } else if !contents.contains_key(key) {
            contents.insert(key, sample)
        } else if point_lt(sample.lat, sample.lng, contents[key].lat, contents[key].lng) {
            contents.insert(
                key,
                (PostalText {
                    lat: sample.lat,
                    lng: sample.lng,
                    suburb: sample.suburb,
                    ..contents[key]
                }),
            )
        } else {
            contents
        }
    }

    fn append(&mut self, key: String, sample: Postal<'a>)
        requires
            old(self).wf(),
            key@ == postal_key(sample.cc, sample.compact@),
            !old(self).places@.contains_key(key@),
        ensures
            final(self).wf(),
            final(self).contents() == old(self).contents().insert(key@, sample@),
            final(self).codes@ == old(self).codes@.push(sample),
    {
        let n: usize = self.codes.len();
        let ghost before = *self;
        self.codes.push(sample);
        self.places.insert(key, n);
        proof {
            assert(self.contents() =~= before.contents().insert(key@, sample@));
            assert forall|i: int| 0 <= i < self.codes@.len() implies {
                let k = postal_key((#[trigger] self.codes@[i]).cc, self.codes@[i].compact@);
                self.places@.contains_key(k) && self.places@[k] == i
            } by {
                if i < n {
                    assert(self.codes@[i] == before.codes@[i]);
                }
            }
        }
    }

    /// Takes a sample of a postcode.
    pub fn add(&mut self, sample: Postal<'a>)
        requires
            old(self).wf(),
        ensures
            final(self).wf(),
            final(self).contents() == Self::with_sample(
                old(self).contents(),
                postal_key(sample.cc, sample.compact@),
                sample@,
            ),
    {
        let len: usize = sample.compact.as_str().as_bytes().len();
        if len < MIN_CODE_LEN || len > MAX_CODE_LEN {
            return ;
        }
        let key = make_key(&sample.cc, sample.compact.as_str());
        let ghost before = *self;
        match self.places.get(key.as_str()) {
            None => {
                self.append(key, sample);
            },
            Some(at) => {
                let at: usize = *at;
                assert(self.places@.contains_key(key@));
                let have = &self.codes[at];
                if less_point(sample.lat, sample.lng, have.lat, have.lng) {
                    let kept = Postal {
                        cc: have.cc,
                        name: have.name.clone(),
                        compact: have.compact.clone(),
                        lat: sample.lat,
                        lng: sample.lng,
                        suburb: sample.suburb,
                    };
                    self.codes.set(at, kept);
                    proof {
                        assert forall|k: Seq<char>| #[trigger]
                            self.places@.contains_key(k) implies self.places@[k] < self.codes@.len()
                            && postal_key(
                            self.codes@[self.places@[k] as int].cc,
                            self.codes@[self.places@[k] as int].compact@,
                        ) == k by {
                            assert(before.places@.contains_key(k));
                        }
                        assert forall|i: int| 0 <= i < self.codes@.len() implies {
                            let k = postal_key(
                                (#[trigger] self.codes@[i]).cc,
                                self.codes@[i].compact@,
                            );
                            self.places@.contains_key(k) && self.places@[k] == i
                        } by {
                            assert(postal_key(before.codes@[i].cc, before.codes@[i].compact@)
                                == postal_key(self.codes@[i].cc, self.codes@[i].compact@));
                        }
                        assert(self.contents() =~= before.contents().insert(
                            key@,
                            self.codes@[at as int]@,
                        )) by {
                            assert forall|k: Seq<char>| #[trigger]
                                self.contents().contains_key(k) && k != key@ implies self.contents()[k]
                                == before.contents()[k] by {
                                assert(before.places@.contains_key(k));
                                if before.places@[k] == at {
                                    assert(postal_key(
                                        before.codes@[at as int].cc,
                                        before.codes@[at as int].compact@,
                                    ) == k);
                                }
                            }
                        }
                    }
                }
            },
        }
    }

    /// Takes a sample of a postcode of which there is none yet.
    pub fn add_missing(&mut self, sample: Postal<'a>)
        requires
            old(self).wf(),
        ensures
            final(self).wf(),
            ({
                let key = postal_key(sample.cc, sample.compact@);
                final(self).contents() == if code_fits(sample.compact@) && !old(
                    self,
                ).contents().contains_key(key) {
                    old(self).contents().insert(key, sample@)
                } else {
                    old(self).contents()
                }
            }),
    {
        let len: usize = sample.compact.as_str().as_bytes().len();
        if len < MIN_CODE_LEN || len > MAX_CODE_LEN {
            return ;
        }
        let key = make_key(&sample.cc, sample.compact.as_str());
        if !self.places.contains_key(key.as_str()) {
            self.append(key, sample);
        }
    }

    /// Whether no point before the given one has the same postcode.
    pub open spec fn is_first(index: AddressPointIndex<'a>, at: int) -> bool {
        forall|k: int|
            0 <= k < at ==> (#[trigger] index.point(k)).postcode_id != index.point(at).postcode_id
    }

    /// What the book holds once the first `n` points of a dataset were taken:
    /// of each postcode in it the first point.
    pub open spec fn with_points(
        contents: Map<Seq<char>, PostalText>,
        index: AddressPointIndex<'a>,
        cc: [u8; 2],
        n: int,
    ) -> Map<Seq<char>, PostalText>
        decreases n,
    {
        if n <= 0 {
            contents
        } else {
            let before = Self::with_points(contents, index, cc, n - 1);
            let p = index.point(n - 1);
            let raw = index.text(p.postcode_id);
            if Self::is_first(index, n - 1) {
                Self::with_sample(
                    before,
                    postal_key(cc, compacted(raw)),
                    sample_text(cc, raw, p.lat, p.lng, Some(index.text(p.locality_id))),
                )
            } else {
                before
            }
        }
    }

    /// Takes the postcodes of the addresses of a country.
    pub fn add_points(&mut self, index: &AddressPointIndex<'a>, cc: [u8; 2])
        requires
            old(self).wf(),
        ensures
            final(self).wf(),
            final(self).contents() == Self::with_points(
                old(self).contents(),
                *index,
                cc,
                index.point_count(),
            ),
    {
        let mut seen: HashSet<u32> = HashSet::new();
        let n: usize = index.len();
        for i in 0..n
            invariant
                n == index.point_count(),
                self.wf(),
                self.contents() == Self::with_points(
                    old(self).contents(),
                    *index,
                    cc,
                    i as int,
                ),
                forall|x: u32| #[trigger]
                    seen@.contains(x) <==> exists|k: int|
                        0 <= k < i && (#[trigger] index.point(k)).postcode_id == x,
        {
            let p = index.point_of(i);
            let ghost before = seen@;
            if seen.insert(p.postcode_id) {
                assert(Self::is_first(*index, i as int)) by {
                    assert(!before.contains(p.postcode_id));
                }
                self.add(
                    sample(
                        cc,
                        index.string_at(p.postcode_id),
                        p.lat,
                        p.lng,
                        Some(index.string_at(p.locality_id)),
                    ),
                );
            } else {
                assert(before.contains(p.postcode_id));
                assert(!Self::is_first(*index, i as int));
            }
            assert forall|x: u32| #[trigger] seen@.contains(x) <==> exists|k: int|
                0 <= k < i + 1 && (#[trigger] index.point(k)).postcode_id == x by {
                if x == p.postcode_id {
                    assert(index.point(i as int).postcode_id == x);
                } else if before.contains(x) {
                    let k = choose|k: int|
                        0 <= k < i && (#[trigger] index.point(k)).postcode_id == x;
                    assert(index.point(k).postcode_id == x);
                }
            }
        }
    }

    /// What the book holds once a centroid was taken.
    pub open spec fn with_centroid(
        contents: Map<Seq<char>, PostalText>,
        cc: [u8; 2],
        code: Seq<char>,
        lat: u32,
        lng: u32,
    ) -> Map<Seq<char>, PostalText> {
        let key = postal_key(cc, compacted(code));
        if is_point(lat, lng) && code_fits(compacted(code)) && !contents.contains_key(key) {
            contents.insert(key, sample_text(cc, code, lat, lng, None))
        } else {
            contents
        }
    }

    /// Takes the centroid of a postcode of which there is no address. It
    /// answers whether the coordinates, bit patterns (binary32), are those of
    /// a point; otherwise nothing is taken.
    pub fn add_centroid(&mut self, row: &WofRow, lat: u32, lng: u32) -> (r: bool)
        requires
            old(self).wf(),
        ensures
            final(self).wf(),
            r == is_point(lat, lng),
            final(self).contents() == Self::with_centroid(
                old(self).contents(),
                row.cc,
                row.code@,
                lat,
                lng,
            ),
    {
        if !check_point(lat, lng) {
            return false;
        }
        self.add_missing(sample(row.cc, row.code.as_str(), lat, lng, None));
        true
    }

    /// The bytes by which a postcode is ordered: its country, then its name.
    pub open spec fn order_key(p: PostalText) -> Seq<u8> {
        p.cc + encode_utf8(p.name)
    }

    /// Whether `order` lists the postcodes by country and name.
    pub open spec fn is_order(&self, order: Seq<u64>) -> bool {
        &&& order.len() == self.codes@.len()
        &&& order.no_duplicates()
        &&& forall|i: int| 0 <= i < order.len() ==> (#[trigger] order[i]) < self.codes@.len()
        &&& forall|i: int, j: int|
            0 <= i < j < order.len() ==> !bytes_lt(
                Self::order_key(self.codes@[#[trigger] order[j] as int]@),
                Self::order_key(self.codes@[#[trigger] order[i] as int]@),
            )
    }

    /// Lists the postcodes by country and name.
    pub fn order(&self) -> (r: Vec<u64>)
        ensures
            self.is_order(r@),
    {
        let mut keyed: Vec<(Vec<u8>, u64)> = Vec::new();
        for i in 0..self.codes.len()
            invariant
                keyed@.len() == i,
                forall|j: int|
                    0 <= j < i ==> (#[trigger] keyed@[j]).0@ == Self::order_key(self.codes@[j]@)
                        && keyed@[j].1 == j,
        {
            let code = &self.codes[i];
            let mut key: Vec<u8> = Vec::new();
            key.push(code.cc[0]);
            key.push(code.cc[1]);
            let name = code.name.as_str().as_bytes();
            for n in 0..name.len()
                invariant
                    key@ == code.cc@ + name@.take(n as int),
            {
                key.push(name[n]);
                assert(name@.take(n + 1) =~= name@.take(n as int).push(name@[n as int]));
            }
            assert(name@.take(name@.len() as int) =~= name@);
            keyed.push((key, i as u64));
        }
        let ghost given = keyed@;
        sort_keys(&mut keyed);
        proof {
            vstd::seq_lib::to_multiset_len(given);
            vstd::seq_lib::to_multiset_len(keyed@);
            assert(given.no_duplicates()) by {
                assert forall|i: int, j: int| 0 <= i < j < given.len() implies given[i] != given[j] by {
                    assert(given[i].1 != given[j].1);
                }
            }
            given.lemma_multiset_has_no_duplicates();
            keyed@.lemma_multiset_has_no_duplicates_conv();
            assert forall|i: int| 0 <= i < keyed@.len() implies {
                let p = #[trigger] keyed@[i];
                p.1 < self.codes@.len() && p == given[p.1 as int]
            } by {
                vstd::seq_lib::to_multiset_contains(keyed@, keyed@[i]);
                vstd::seq_lib::to_multiset_contains(given, keyed@[i]);
                let j = choose|j: int| 0 <= j < given.len() && given[j] == keyed@[i];
                assert(given[j].1 == j);
            }
        }
        let mut out: Vec<u64> = Vec::new();
        for i in 0..keyed.len()
            invariant
                out@.len() == i,
                forall|j: int| 0 <= j < i ==> out@[j] == keyed@[j].1,
        {
            let at: u64 = keyed[i].1;
            out.push(at);
        }
        proof {
            assert forall|i: int, j: int| 0 <= i < out@.len() && 0 <= j < out@.len() && i != j implies out@[i]
                != out@[j] by {
                assert(keyed@[i] == given[keyed@[i].1 as int]);
                assert(keyed@[j] == given[keyed@[j].1 as int]);
                assert(keyed@[i] != keyed@[j]);
            }
            assert forall|i: int, j: int| 0 <= i < j < out@.len() implies !bytes_lt(
                Self::order_key(self.codes@[#[trigger] out@[j] as int]@),
                Self::order_key(self.codes@[#[trigger] out@[i] as int]@),
            ) by {
                assert(keyed@[i] == given[keyed@[i].1 as int]);
                assert(keyed@[j] == given[keyed@[j].1 as int]);
            }
            assert forall|i: int| 0 <= i < out@.len() implies (#[trigger] out@[i]) < self.codes@.len() by {
                assert(keyed@[i] == given[keyed@[i].1 as int]);
            }
        }
        out
    }

    /// The candidate that a postcode is: it is found as it is written, and
    /// without separators.
    pub fn candidate(&'a self, at: usize) -> (r: Classified<'a>)
        requires
            at < self.codes@.len(),
        ensures
            is_postal_candidate(self.codes@[at as int]@, r),
    {
        let code = &self.codes[at];
        let mut aliases: Vec<&'a str> = Vec::new();
        aliases.push(code.compact.as_str());
        let cand = NameCandidate {
            name: code.name.as_str(),
            aliases,
            spellings: Vec::new(),
            kind: KIND_POSTCODE,
            rank: POSTCODE_RANK,
            lat: code.lat,
            lng: code.lng,
            suburb: code.suburb,
        };
        assert(cand@.aliases =~= seq![code.compact@]);
        Classified { cc: code.cc, cand, name_id: 0 }
    }
}

/// Whether `r` is the candidate that a postcode is.
pub open spec fn is_postal_candidate(p: PostalText, r: Classified<'_>) -> bool {
    &&& r.cc@ == p.cc
    &&& r.name_id == 0
    &&& r.cand@.name == p.name
    &&& r.cand@.aliases == seq![p.compact]
    &&& r.cand@.spellings.len() == 0
    &&& r.cand@.kind == KIND_POSTCODE
    &&& r.cand@.rank == POSTCODE_RANK
    &&& r.cand@.lat == p.lat
    &&& r.cand@.lng == p.lng
    &&& r.cand@.suburb == p.suburb
}

/// Whether coordinates are those of a point: latitude and longitude in range,
/// and not both zero, which stands for an unknown place.
pub open spec fn is_point(lat: u32, lng: u32) -> bool {
    &&& le32(MIN_LAT, lat) && le32(lat, MAX_LAT)
    &&& le32(MIN_LNG, lng) && le32(lng, MAX_LNG)
    &&& !(rank32(lat) == Some(0int) && rank32(lng) == Some(0int))
}

fn check_point(lat: u32, lng: u32) -> (r: bool)
    ensures
        r == is_point(lat, lng),
{
    let zero = at_most32(lat, 0) && at_most32(0, lat) && at_most32(lng, 0) && at_most32(0, lng);
    at_most32(MIN_LAT, lat) && at_most32(lat, MAX_LAT) && at_most32(MIN_LNG, lng) && at_most32(
        lng,
        MAX_LNG,
    ) && !zero
}

/// Whether the addresses of a dataset give postcodes of a country.
pub open spec fn gives_postcodes(filter: CountryFilter, cc: [u8; 2], national: bool) -> bool {
    filter.admits(cc) && !(national && cc@ == seq![97u8, 117u8])
}

/// Whether the addresses of a dataset give postcodes of a country: those of
/// Australia come from its national dataset where there is one.
pub fn takes_dataset(filter: &CountryFilter, cc: &[u8; 2], national: bool) -> (r: bool)
    ensures
        r == gives_postcodes(*filter, *cc, national),
{
    let au = cc[0] == 97 && cc[1] == 117;
    assert(au <==> cc@ =~= seq![97u8, 117u8]);
    filter.contains(cc) && !(national && au)
}

fn less_point(lat_a: u32, lng_a: u32, lat_b: u32, lng_b: u32) -> (r: bool)
    ensures
        r == point_lt(lat_a, lng_a, lat_b, lng_b),
{
    less32(lat_a, lat_b) || (at_most32(lat_a, lat_b) && at_most32(lat_b, lat_a) && less32(
        lng_a,
        lng_b,
    ))
}

fn make_key(cc: &[u8; 2], code: &str) -> (r: String)
    ensures
        r@ == postal_key(*cc, code@),
{
    let mut out: Vec<char> = Vec::new();
    out.push(cc[0] as char);
    out.push(cc[1] as char);
    append_str(&mut out, code);
    assert(out@ =~= postal_key(*cc, code@));
    string_of(&out)
}

// --- Lists of postal centroids ---
/// The first line of a list of postal centroids.
pub const WOF_HEADER: &'static str = "#wof-postcodes-v1\tcountry\tpostcode\tlatitude\tlongitude";

/// A line of a list of postal centroids.
pub struct WofRow {
    /// The country code, in lower case.
    pub cc: [u8; 2],
    pub country: String,
    pub code: String,
    pub lat: String,
    pub lng: String,
}

/// What is wrong with a line of a list of postal centroids.
#[derive(Clone, Copy, Debug, PartialEq, Eq, Structural)]
pub enum WofFault {
    /// Not exactly four fields.
    Malformed,
    /// No country code in upper case.
    Country,
}

pub open spec fn is_upper_ascii(c: char) -> bool {
    'A' <= c && c <= 'Z'
}

/// What is wrong with the fields of a line.
pub open spec fn wof_fault(fields: Seq<Seq<char>>) -> Option<WofFault> {
    if fields.len() != 4 {
        Some(WofFault::Malformed)
    } else if fields[0].len() != 2 || !is_upper_ascii(fields[0][0]) || !is_upper_ascii(
        fields[0][1],
    ) {
        Some(WofFault::Country)
    } else {
        None
    }
}

/// Whether a line is the first line of a list.
pub fn is_wof_header(line: &str) -> (r: bool)
    ensures
        r == (line@ == WOF_HEADER@),
{
    str_eq(line, WOF_HEADER)
}

/// Whether `r` is what a line says.
pub open spec fn is_wof_row(line: Seq<char>, r: Result<WofRow, WofFault>) -> bool {
    let fields = split_seq(line, '\t');
    match r {
        Ok(row) => {
            &&& wof_fault(fields) is None
            &&& row.country@ == fields[0]
            &&& row.cc[0] == fields[0][0] as u8 + 32
            &&& row.cc[1] == fields[0][1] as u8 + 32
            &&& row.code@ == fields[1]
            &&& row.lat@ == fields[2]
            &&& row.lng@ == fields[3]
        },
        Err(e) => wof_fault(fields) == Some(e),
    }
}

/// Reads a line behind the first: country, postcode, latitude and longitude
/// between tabs.
pub fn parse_wof_row(line: &str) -> (r: Result<WofRow, WofFault>)
    ensures
        is_wof_row(line@, r),
{
    let fields = split_on(&chars_of(line), '\t');
    assert(views(fields@).len() == fields@.len());
    if fields.len() != 4 {
        return Err(WofFault::Malformed);
    }
    assert(views(fields@)[0] == fields@[0]@);
    assert(views(fields@)[1] == fields@[1]@);
    assert(views(fields@)[2] == fields@[2]@);
    assert(views(fields@)[3] == fields@[3]@);
    let country = &fields[0];
    if country.len() != 2 {
        return Err(WofFault::Country);
    }
    let a = country[0];
    let b = country[1];
    if a < 'A' || a > 'Z' || b < 'A' || b > 'Z' {
        return Err(WofFault::Country);
    }
    Ok(
        WofRow {
            cc: [a as u8 + 32, b as u8 + 32],
            country: string_of(country),
            code: string_of(&fields[1]),
            lat: string_of(&fields[2]),
            lng: string_of(&fields[3]),
        },
    )
}

// --- Laws ---
/// A British postcode has its space before its last three characters, a Canadian
/// one between its halves, a Dutch one behind its four digits; others have none.
pub proof fn law_codes_have_their_space(head: Seq<char>, tail: Seq<char>, cc: [u8; 2])
    ensures
        cc@ == seq![103u8, 98u8] && tail.len() == 3 && 2 <= head.len() <= 4 ==> written_code(
            head + tail,
            cc,
        ) == head + seq![' '] + tail,
        cc@ == seq![99u8, 97u8] && tail.len() == 3 && head.len() == 3 ==> written_code(
            head + tail,
            cc,
        ) == head + seq![' '] + tail,
        cc@ == seq![110u8, 108u8] && tail.len() == 2 && head.len() == 4 ==> written_code(
            head + tail,
            cc,
        ) == head + seq![' '] + tail,
        cc@ != seq![103u8, 98u8] && cc@ != seq![99u8, 97u8] && cc@ != seq![110u8, 108u8]
            ==> written_code(head + tail, cc) == head + tail,
{
    let code = head + tail;
    let k = head.len() as int;
    assert(code.take(k) =~= head);
    assert(code.skip(k) =~= tail);
    assert(head.push(' ') + tail =~= head + seq![' '] + tail);
    assert(seq![103u8, 98u8][0] != seq![99u8, 97u8][0]);
    assert(seq![103u8, 98u8][0] != seq![110u8, 108u8][0]);
    assert(seq![99u8, 97u8][0] != seq![110u8, 108u8][0]);
}

/// A code of digits and letters in upper case is filed as it is, and in lower
/// case as in upper case.
pub proof fn law_letters_are_filed_in_upper_case(s: Seq<char>)
    requires
        forall|i: int|
            0 <= i < s.len() ==> '0' <= #[trigger] s[i] <= '9' || 'A' <= s[i] <= 'Z' || 'a' <= s[i]
                <= 'z',
    ensures
        compacted(s).len() == s.len(),
        forall|i: int|
            0 <= i < s.len() ==> (#[trigger] compacted(s)[i]) == (if 'a' <= s[i] <= 'z' {
                (s[i] as u32 - 32) as char
            } else {
                s[i]
            }),
    decreases s.len(),
{
    if s.len() > 0 {
        let front = s.drop_last();
        assert forall|i: int| 0 <= i < front.len() implies '0' <= #[trigger] front[i] <= '9' || 'A'
            <= front[i] <= 'Z' || 'a' <= front[i] <= 'z' by {
            assert(front[i] == s[i]);
        }
        law_letters_are_filed_in_upper_case(front);
        let c = s.last();
        assert(s[s.len() - 1] == c);
        assert(is_alnum(c));
        assert(compacted(s) == compacted(front) + upper_of(c));
    }
}

/// The southernmost point of a postcode stands for it, and of those the
/// westernmost, with its suburb; a code of fewer than three bytes or more than
/// ten is not taken. No other postcode changes.
pub proof fn law_first_point_stands_for_a_code(
    contents: Map<Seq<char>, PostalText>,
    key: Seq<char>,
    sample: PostalText,
    other: Seq<char>,
)
    requires
        sample.lat <= 0x7f80_0000 && sample.lng <= 0x7f80_0000,
        contents.contains_key(key) ==> contents[key].lat <= 0x7f80_0000 && contents[key].lng
            <= 0x7f80_0000,
        other != key,
    ensures
        ({
            let after = PostalBook::with_sample(contents, key, sample);
            let n = encode_utf8(sample.compact).len();
            &&& n < 3 || n > 10 ==> after == contents
            &&& 3 <= n <= 10 ==> after.contains_key(key)
            &&& 3 <= n <= 10 && !contents.contains_key(key) ==> after[key] == sample
            &&& 3 <= n <= 10 && contents.contains_key(key) ==> {
                let old = contents[key];
                let before = sample.lat < old.lat || (sample.lat == old.lat && sample.lng
                    < old.lng);
                &&& before ==> after[key].lat == sample.lat && after[key].lng == sample.lng
                    && after[key].suburb == sample.suburb
                &&& !before ==> after[key] == old
                &&& after[key].name == old.name && after[key].compact == old.compact
                    && after[key].cc == old.cc
            }
            &&& after.contains_key(other) == contents.contains_key(other)
            &&& contents.contains_key(other) ==> after[other] == contents[other]
        }),
{
}

/// A centroid is taken only for a postcode of which there is none, at a point
/// that is not the zero point; it has no suburb.
pub proof fn law_centroid_fills_a_gap(
    contents: Map<Seq<char>, PostalText>,
    cc: [u8; 2],
    code: Seq<char>,
    lat: u32,
    lng: u32,
)
    requires
        lat <= 0x42b4_0000,
        lng <= 0x4334_0000,
        3 <= encode_utf8(compacted(code)).len() <= 10,
    ensures
        ({
            let key = seq![cc[0] as char, cc[1] as char] + compacted(code);
            let after = PostalBook::with_centroid(contents, cc, code, lat, lng);
            &&& contents.contains_key(key) ==> after == contents
            &&& lat == 0 && lng == 0 ==> after == contents
            &&& !contents.contains_key(key) && (lat > 0 || lng > 0) ==> after.contains_key(key) && {
                let p = after[key];
                &&& p.lat == lat && p.lng == lng
                &&& p.suburb is None
                &&& p.cc == cc@
                &&& p.compact == compacted(code)
                &&& p.name == written_code(compacted(code), cc)
            }
        }),
{
}

/// Coordinates are those of a point within ninety degrees of latitude and 180 of
/// longitude, whatever their signs, but not both zero.
pub proof fn law_points_are_in_range(lat: u32, lng: u32)
    ensures
        is_point(lat, lng) <==> lat % 0x8000_0000 <= 0x42b4_0000 && lng % 0x8000_0000 <= 0x4334_0000
            && !(lat % 0x8000_0000 == 0 && lng % 0x8000_0000 == 0),
{
}

/// The first address with a postcode gives it: where the address is, and the
/// locality of the address for a suburb.
pub proof fn law_address_gives_its_postcode(index: AddressPointIndex<'_>, cc: [u8; 2])
    ensures
        ({
            let p = index.point(0);
            let code = compacted(index.text(p.postcode_id));
            let key = seq![cc[0] as char, cc[1] as char] + code;
            let after = PostalBook::with_points(Map::empty(), index, cc, 1);
            3 <= encode_utf8(code).len() <= 10 ==> after.contains_key(key) && {
                let t = after[key];
                &&& t.cc == cc@
                &&& t.compact == code
                &&& t.name == written_code(code, cc)
                &&& t.lat == p.lat
                &&& t.lng == p.lng
                &&& t.suburb == Some(index.text(p.locality_id))
            }
        }),
{
    let before = PostalBook::with_points(Map::empty(), index, cc, 0);
    assert(before == Map::<Seq<char>, PostalText>::empty());
    assert(PostalBook::is_first(index, 0));
}

/// An address more changes only what its own postcode has; one whose postcode was
/// met before changes nothing.
pub proof fn law_address_more_changes_one_code(
    contents: Map<Seq<char>, PostalText>,
    index: AddressPointIndex<'_>,
    cc: [u8; 2],
    n: int,
    k: Seq<char>,
    earlier: int,
)
    requires
        n >= 0,
    ensures
        ({
            let p = index.point(n);
            let key = seq![cc[0] as char, cc[1] as char] + compacted(index.text(p.postcode_id));
            let before = PostalBook::with_points(contents, index, cc, n);
            let after = PostalBook::with_points(contents, index, cc, n + 1);
            &&& 0 <= earlier < n && index.point(earlier).postcode_id == p.postcode_id ==> after
                == before
            &&& k != key ==> after.contains_key(k) == before.contains_key(k)
            &&& k != key && before.contains_key(k) ==> after[k] == before[k]
        }),
{
}

/// A postcode is found as it is written and without separators, with its country,
/// its point and its suburb, at the rank of postcodes.
pub proof fn law_postcode_becomes_a_candidate(p: Postal<'_>, r: Classified<'_>)
    requires
        is_postal_candidate(p@, r),
    ensures
        r.cc@ == p.cc@,
        r.cand.name@ == p.name@,
        r.cand.aliases@.len() == 1 && r.cand.aliases@[0]@ == p.compact@,
        r.cand.kind == 5,
        r.cand.rank == 12,
        r.cand.lat == p.lat,
        r.cand.lng == p.lng,
        r.cand.suburb is Some <==> p.suburb is Some,
        p.suburb matches Some(s) ==> r.cand.suburb->0@ == s@,
{
    assert(r.cand@.aliases.len() == 1);
    assert(r.cand@.aliases[0] == r.cand.aliases@[0]@);
}

/// A line of a list has a country in upper case, a postcode, a latitude and a
/// longitude, in this order.
pub proof fn law_line_has_four_fields(
    a: char,
    b: char,
    code: Seq<char>,
    lat: Seq<char>,
    lng: Seq<char>,
    line: Seq<char>,
    r: Result<WofRow, WofFault>,
)
    requires
        is_wof_row(line, r),
        split_seq(line, '\t') == seq![seq![a, b], code, lat, lng],
    ensures
        r is Ok <==> 'A' <= a <= 'Z' && 'A' <= b <= 'Z',
        r matches Ok(row) ==> {
            &&& row.cc[0] == a as u8 + 32
            &&& row.cc[1] == b as u8 + 32
            &&& row.code@ == code
            &&& row.lat@ == lat
            &&& row.lng@ == lng
        },
{
}

} // verus!
