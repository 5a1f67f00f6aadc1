//! Address-point indexes, one for each country.
use vstd::prelude::*;
use crate::address_points::{
    lower_byte, match_view, to_lower_byte, AddressMatch, AddressPointIndex, AddressQuery, AddressText,
};
use crate::ieee::{less64, lt64, nearest, pick_nearest, Candidate};
use crate::metrics::is_letter;
use crate::text::{
    append_str, chars_of, is_ascii_letter, lower_seq, opt_str_view, string_of, strip_prefix,
    strip_prefix_seq, strip_suffix, strip_suffix_seq, to_lower,
};

verus! {

broadcast use vstd::seq::group_seq_axioms;

/// A country code with its ASCII letters in lower case.
pub open spec fn lower_code(cc: [u8; 2]) -> [u8; 2] {
    [lower_byte(cc[0]), lower_byte(cc[1])]
}

/// A country code with its ASCII letters in lower case.
pub fn normalise_code(cc: &[u8; 2]) -> (r: [u8; 2])
    ensures
        r@ == lower_code(*cc)@,
{
    [to_lower_byte(cc[0]), to_lower_byte(cc[1])]
}

/// The two characters of a country code.
pub open spec fn code_text(cc: [u8; 2]) -> Seq<char> {
    seq![cc[0] as char, cc[1] as char]
}

/// The name prefix of the files of a country.
pub fn oa_prefix(cc: [u8; 2]) -> (r: String)
    ensures
        r@ == "oa_"@ + code_text(lower_code(cc)),
{
    let low = normalise_code(&cc);
    let mut out: Vec<char> = Vec::new();
    append_str(&mut out, "oa_");
    out.push(low[0] as char);
    out.push(low[1] as char);
    assert(out@ =~= "oa_"@ + code_text(lower_code(cc)));
    string_of(&out)
}

/// The country code that two ASCII letters spell, in lower case.
pub open spec fn code_of(s: Seq<char>) -> Option<Seq<char>> {
    if s.len() == 2 && is_ascii_letter(s[0]) && is_ascii_letter(s[1]) {
        Some(lower_seq(s))
    } else {
        None
    }
}

/// What stands before the file suffix, for the first of the suffixes that
/// `rest` ends with.
pub open spec fn shard_stem(rest: Seq<char>) -> Option<Seq<char>> {
    if strip_suffix_seq(rest, "_points.bin"@) is Some {
        strip_suffix_seq(rest, "_points.bin"@)
    } else if strip_suffix_seq(rest, "_cells.bin"@) is Some {
        strip_suffix_seq(rest, "_cells.bin"@)
    } else if strip_suffix_seq(rest, "_entries.bin"@) is Some {
        strip_suffix_seq(rest, "_entries.bin"@)
    } else if strip_suffix_seq(rest, "_strings.bin"@) is Some {
        strip_suffix_seq(rest, "_strings.bin"@)
    } else {
        strip_suffix_seq(rest, "_points.schema.json"@)
    }
}

/// The country that a file belongs to.
pub open spec fn shard_country(filename: Seq<char>) -> Option<Seq<char>> {
    match strip_prefix_seq(filename, "oa_"@) {
        Some(rest) => match shard_stem(rest) {
            Some(stem) => code_of(stem),
            None => None,
        },
        None => None,
    }
}

/// The code that two ASCII letters spell.
pub(crate) fn parse_code(s: &[char]) -> (r: Option<[u8; 2]>)
    ensures
        match r {
            Some(cc) => code_of(s@) == Some(code_text(cc)),
            None => code_of(s@) is None,
        },
{
    if s.len() == 2 && is_letter(s[0]) && is_letter(s[1]) {
        let a: u8 = to_lower(s[0]) as u8;
        let b: u8 = to_lower(s[1]) as u8;
        let cc = [a, b];
        assert(code_text(cc) =~= lower_seq(s@));
        Some(cc)
    } else {
        None
    }
}

/// Reads the country code out of the name of any file of an index.
pub fn parse_oa_country_prefix(filename: &str) -> (r: Option<[u8; 2]>)
    ensures
        match r {
            Some(cc) => shard_country(filename@) == Some(code_text(cc)),
            None => shard_country(filename@) is None,
        },
{
    let rest = match strip_prefix(&chars_of(filename), &chars_of("oa_")) {
        Some(rest) => rest,
        None => return None,
    };
    let points = strip_suffix(&rest, &chars_of("_points.bin"));
    let cells = strip_suffix(&rest, &chars_of("_cells.bin"));
    let entries = strip_suffix(&rest, &chars_of("_entries.bin"));
    let strings = strip_suffix(&rest, &chars_of("_strings.bin"));
    let schema = strip_suffix(&rest, &chars_of("_points.schema.json"));
    match (points, cells, entries, strings, schema) {
        (Some(stem), _, _, _, _) => parse_code(&stem),
        (None, Some(stem), _, _, _) => parse_code(&stem),
        (None, None, Some(stem), _, _) => parse_code(&stem),
        (None, None, None, Some(stem), _) => parse_code(&stem),
        (None, None, None, None, Some(stem)) => parse_code(&stem),
        (None, None, None, None, None) => None,
    }
}

/// The index of one country.
#[derive(Clone, Copy)]
pub struct Shard<'a> {
    /// In lower case.
    pub code: [u8; 2],
    pub index: AddressPointIndex<'a>,
}

/// The indexes of several countries, at most one for each.
pub struct OpenAddresses<'a> {
    pub shards: Vec<Shard<'a>>,
}

impl<'a> OpenAddresses<'a> {
    /// No country occurs twice, and the codes are in lower case.
    pub open spec fn wf(&self) -> bool {
        &&& forall|i: int, j: int|
            0 <= i < j < self.shards@.len() ==> (#[trigger] self.shards@[i]).code@ != (
            #[trigger] self.shards@[j]).code@
        &&& forall|i: int|
            0 <= i < self.shards@.len() ==> lower_code((#[trigger] self.shards@[i]).code)@
                == self.shards@[i].code@
    }

    /// Whether shard `i` is that of a country, given in any case.
    pub open spec fn is_shard(&self, i: int, cc: [u8; 2]) -> bool {
        0 <= i < self.shards@.len() && self.shards@[i].code@ == lower_code(cc)@
    }

    /// Whether there is an index for a country, given in any case.
    pub open spec fn covers(&self, cc: [u8; 2]) -> bool {
        exists|i: int| #[trigger] self.is_shard(i, cc)
    }

    /// No index at all.
    pub fn new() -> (r: OpenAddresses<'a>)
        ensures
            r.wf(),
            r.shards@.len() == 0,
    {
        OpenAddresses { shards: Vec::new() }
    }

    /// Takes in the index of a country. A country that is there already keeps
    /// its index.
    pub fn insert(&mut self, cc: [u8; 2], index: AddressPointIndex<'a>)
        requires
            old(self).wf(),
        ensures
            final(self).wf(),
            if old(self).covers(cc) {
                final(self).shards@ == old(self).shards@
            } else {
                &&& final(self).shards@.len() == old(self).shards@.len() + 1
                &&& final(self).shards@.drop_last() == old(self).shards@
                &&& final(self).shards@.last().code@ == lower_code(cc)@
                &&& final(self).shards@.last().index == index
            },
    {
        if self.position(&cc).is_some() {
            return ;
        }
        let code = normalise_code(&cc);
        let ghost before = self.shards@;
        assert(lower_code(code)@ =~= code@);
        self.shards.push(Shard { code, index });
        assert(self.shards@.drop_last() =~= before);
        assert forall|i: int, j: int| 0 <= i < j < self.shards@.len() implies (
        #[trigger] self.shards@[i]).code@ != (#[trigger] self.shards@[j]).code@ by {
            assert(self.shards@[i] == before[i]);
            if j < before.len() {
                assert(self.shards@[j] == before[j]);
            } else {
                assert(!old(self).is_shard(i, cc));
            }
        }
        assert forall|i: int| 0 <= i < self.shards@.len() implies lower_code(
            (#[trigger] self.shards@[i]).code,
        )@ == self.shards@[i].code@ by {
            if i < before.len() {
                assert(self.shards@[i] == before[i]);
            }
        }
    }

    /// The position of the index of a country.
    fn position(&self, cc: &[u8; 2]) -> (r: Option<usize>)
        ensures
            match r {
                Some(i) => self.is_shard(i as int, *cc),
                None => !self.covers(*cc),
            },
    {
        let code = normalise_code(cc);
        for i in 0..self.shards.len()
            invariant
                code@ == lower_code(*cc)@,
                forall|j: int| 0 <= j < i ==> !self.is_shard(j, *cc),
        {
            if self.shards[i].code[0] == code[0] && self.shards[i].code[1] == code[1] {
                assert(self.shards@[i as int].code@ =~= code@);
                return Some(i);
            }
            assert(self.shards@[i as int].code@[0] != code@[0] || self.shards@[i as int].code@[1]
                != code@[1]);
        }
        None
    }

    /// Which index is that of a country, given in any case.
    pub open spec fn shard_of(&self, cc: [u8; 2]) -> Option<int> {
        if self.covers(cc) {
            Some(choose|i: int| #[trigger] self.is_shard(i, cc))
        } else {
            None
        }
    }

    pub proof fn lemma_one_shard(&self, i: int, cc: [u8; 2])
        requires
            self.wf(),
            self.is_shard(i, cc),
        ensures
            self.shard_of(cc) == Some(i),
    {
        let j = choose|j: int| #[trigger] self.is_shard(j, cc);
        if i < j {
            assert(self.shards@[i].code@ != self.shards@[j].code@);
        } else if j < i {
            assert(self.shards@[j].code@ != self.shards@[i].code@);
        }
    }

    /// Whether a search asks an index: that of the hinted country, or any where
    /// there is no hint.
    pub fn asks_shard(&self, at: usize, country_code: Option<&[u8; 2]>) -> (r: bool)
        requires
            at < self.shards@.len(),
        ensures
            r == (country_code matches Some(cc) ==> self.is_shard(at as int, *cc)),
    {
        match country_code {
            Some(cc) => {
                let code = normalise_code(cc);
                let same = self.shards[at].code[0] == code[0] && self.shards[at].code[1] == code[1];
                assert(same <==> self.shards@[at as int].code@ =~= code@);
                same
            },
            None => true,
        }
    }

    /// Whether there is an index for a country.
    pub fn has_country(&self, country_code: &[u8; 2]) -> (r: bool)
        ensures
            r == self.covers(*country_code),
    {
        self.position(country_code).is_some()
    }

    /// The index of a country.
    pub fn get(&self, country_code: &[u8; 2]) -> (r: Option<AddressPointIndex<'a>>)
        ensures
            match r {
                Some(index) => exists|i: int| #[trigger]
                    self.is_shard(i, *country_code) && self.shards@[i].index == index,
                None => !self.covers(*country_code),
            },
    {
        match self.position(country_code) {
            Some(i) => Some(self.shards[i].index),
            None => None,
        }
    }

    /// The codes of the countries, in lower case.
    pub fn countries(&self) -> (r: Vec<[u8; 2]>)
        ensures
            r@.len() == self.shards@.len(),
            forall|i: int| 0 <= i < r@.len() ==> (#[trigger] r@[i])@ == self.shards@[i].code@,
    {
        let mut out: Vec<[u8; 2]> = Vec::new();
        for i in 0..self.shards.len()
            invariant
                out@.len() == i,
                forall|j: int| 0 <= j < i ==> (#[trigger] out@[j])@ == self.shards@[j].code@,
        {
            let code = self.shards[i].code;
            out.push(code);
        }
        out
    }

    /// Finds an address in the index of a country; `near` are its points in
    /// the order of a scan.
    pub fn find_by_housenumber(
        &self,
        country_code: &[u8; 2],
        housenumber: &str,
        street_hint: Option<&str>,
        unit_hint: Option<&str>,
        near: &[Candidate],
    ) -> (r: Option<AddressMatch<'a>>)
        ensures
            !self.covers(*country_code) ==> r is None,
            self.covers(*country_code) ==> exists|i: int| #[trigger]
                self.is_shard(i, *country_code) && match_view(r)
                    == self.shards@[i].index.search_result(
                    (AddressQuery {
                        housenumber: housenumber@,
                        street: opt_str_view(street_hint),
                        unit: opt_str_view(unit_hint),
                    }),
                    near@,
                ),
    {
        match self.position(country_code) {
            Some(i) => {
                let index = self.shards[i].index;
                assert(self.is_shard(i as int, *country_code));
                index.find_by_housenumber(housenumber, street_hint, unit_hint, near)
            },
            None => None,
        }
    }

    /// Finds an address over all countries: the nearest of those that the
    /// indexes find. `near` holds the points of each index in the order of a
    /// scan.
    pub fn find_by_housenumber_any(
        &self,
        housenumber: &str,
        street_hint: Option<&str>,
        unit_hint: Option<&str>,
        near: &[Vec<Candidate>],
    ) -> (r: Option<AddressMatch<'a>>)
        requires
            near@.len() == self.shards@.len(),
        ensures
            ({
                let q = AddressQuery {
                    housenumber: housenumber@,
                    street: opt_str_view(street_hint),
                    unit: opt_str_view(unit_hint),
                };
                match_view(r) == (match found_shard(self.shards@, near@, q, near@.len() as int) {
                    Some(s) => self.shards@[s].index.search_result(q, near@[s]@),
                    None => None,
                })
            }),
    {
        let ghost q = AddressQuery {
            housenumber: housenumber@,
            street: opt_str_view(street_hint),
            unit: opt_str_view(unit_hint),
        };
        let mut best: Option<(u64, usize, usize)> = None;
        for i in 0..self.shards.len()
            invariant
                near@.len() == self.shards@.len(),
                q == (AddressQuery {
                    housenumber: housenumber@,
                    street: opt_str_view(street_hint),
                    unit: opt_str_view(unit_hint),
                }),
                match best {
                    Some((d, s, k)) => {
                        &&& found_shard(self.shards@, near@, q, i as int) == Some(s as int)
                        &&& s < i
                        &&& k < near@[s as int]@.len()
                        &&& self.shards@[s as int].index.found_at(q, near@[s as int]@) == Some(
                            k as int,
                        )
                        &&& near@[s as int]@[k as int].id
                            < self.shards@[s as int].index.point_count()
                        &&& d == near@[s as int]@[k as int].dist
                    },
                    None => found_shard(self.shards@, near@, q, i as int) is None,
                },
        {
            let points = near[i].as_slice();
            let index = self.shards[i].index;
            if let Some(k) = index.find_position(housenumber, street_hint, unit_hint, points) {
                let d: u64 = points[k].dist;
                let take = match &best {
                    None => true,
                    Some((b, _, _)) => less64(d, *b),
                };
                if take {
                    best = Some((d, i, k));
                }
            }
        }
        match best {
            Some((_, s, k)) => {
                let index = self.shards[s].index;
                match index.get(near[s][k].id) {
                    Some(p) => Some(index.hydrate(&p)),
                    None => None,
                }
            },
            None => None,
        }
    }

    /// The address that a search finds: in the index of the hinted country, or
    /// the nearest over all countries where there is no hint. `near` holds the
    /// points of each index in the order of a scan.
    pub open spec fn found_near(
        &self,
        q: AddressQuery,
        country_code: Option<[u8; 2]>,
        near: Seq<Vec<Candidate>>,
    ) -> Option<AddressText> {
        let at = match country_code {
            Some(cc) => self.shard_of(cc),
            None => found_shard(self.shards@, near, q, near.len() as int),
        };
        match at {
            Some(s) => self.shards@[s].index.search_result(q, near[s]@),
            None => None,
        }
    }

    /// Finds an address, whatever its unit, in the index of the hinted country
    /// or over all countries.
    pub fn find_near(
        &self,
        housenumber: &str,
        street_hint: Option<&str>,
        country_code: Option<&[u8; 2]>,
        near: &[Vec<Candidate>],
    ) -> (r: Option<AddressMatch<'a>>)
        requires
            self.wf(),
            near@.len() == self.shards@.len(),
        ensures
            match_view(r) == self.found_near(
                (AddressQuery {
                    housenumber: housenumber@,
                    street: opt_str_view(street_hint),
                    unit: None,
                }),
                (match country_code {
                    Some(cc) => Some(*cc),
                    None => None,
                }),
                near@,
            ),
    {
        match country_code {
            Some(cc) => match self.position(cc) {
                Some(i) => {
                    proof {
                        self.lemma_one_shard(i as int, *cc);
                    }
                    self.find_by_housenumber_at(i, housenumber, street_hint, near[i].as_slice())
                },
                None => None,
            },
            None => self.find_by_housenumber_any(housenumber, street_hint, None, near),
        }
    }

    fn find_by_housenumber_at(
        &self,
        at: usize,
        housenumber: &str,
        street_hint: Option<&str>,
        near: &[Candidate],
    ) -> (r: Option<AddressMatch<'a>>)
        requires
            at < self.shards@.len(),
        ensures
            match_view(r) == self.shards@[at as int].index.search_result(
                (AddressQuery {
                    housenumber: housenumber@,
                    street: opt_str_view(street_hint),
                    unit: None,
                }),
                near@,
            ),
    {
        self.shards[at].index.find_by_housenumber(housenumber, street_hint, None, near)
    }

    /// The nearest address in the index of a country. `near` holds the points
    /// of each index in the order of a scan.
    pub open spec fn nearest_near(&self, cc: [u8; 2], near: Seq<Vec<Candidate>>) -> Option<
        AddressText,
    > {
        match self.shard_of(cc) {
            Some(s) => nearest_in(self.shards@[s].index, near[s]@),
            None => None,
        }
    }

    /// Finds the nearest address in the index of a country.
    pub fn find_nearest_near(&self, cc: &[u8; 2], near: &[Vec<Candidate>]) -> (r: Option<
        AddressMatch<'a>,
    >)
        requires
            self.wf(),
            near@.len() == self.shards@.len(),
        ensures
            match_view(r) == self.nearest_near(*cc, near@),
    {
        match self.position(cc) {
            Some(i) => {
                proof {
                    self.lemma_one_shard(i as int, *cc);
                }
                self.shards[i].index.find_nearest(near[i].as_slice())
            },
            None => None,
        }
    }

    /// Finds the nearest address in the index of a country.
    pub fn find_nearest(&self, country_code: &[u8; 2], near: &[Candidate]) -> (r: Option<
        AddressMatch<'a>,
    >)
        ensures
            !self.covers(*country_code) ==> r is None,
            self.covers(*country_code) ==> exists|i: int| #[trigger]
                self.is_shard(i, *country_code) && match_view(r) == nearest_in(
                    self.shards@[i].index,
                    near@,
                ),
    {
        match self.position(country_code) {
            Some(i) => {
                let index = self.shards[i].index;
                assert(self.is_shard(i as int, *country_code));
                index.find_nearest(near)
            },
            None => None,
        }
    }

    /// Finds the nearest address over all countries. `near` holds the points
    /// of each index in the order of a scan.
    pub fn find_nearest_any(&self, near: &[Vec<Candidate>]) -> (r: Option<AddressMatch<'a>>)
        requires
            near@.len() == self.shards@.len(),
        ensures
            match_view(r) == (match nearest_shard(self.shards@, near@, near@.len() as int) {
                Some(s) => nearest_in(self.shards@[s].index, near@[s]@),
                None => None,
            }),
    {
        let mut best: Option<(u64, usize, AddressMatch<'a>)> = None;
        for i in 0..self.shards.len()
            invariant
                near@.len() == self.shards@.len(),
                match best {
                    Some((d, s, m)) => {
                        &&& nearest_shard(self.shards@, near@, i as int) == Some(s as int)
                        &&& s < i
                        &&& Some(m@) == nearest_in(self.shards@[s as int].index, near@[s as int]@)
                        &&& Some(d) == nearest_dist(self.shards@[s as int].index, near@[s as int]@)
                    },
                    None => nearest_shard(self.shards@, near@, i as int) is None,
                },
        {
            let index = self.shards[i].index;
            match nearest_with_dist(&index, near[i].as_slice()) {
                Some((d, m)) => {
                    let take = match &best {
                        None => true,
                        Some((b, _, _)) => less64(d, *b),
                    };
                    if take {
                        best = Some((d, i, m));
                    }
                },
                None => {},
            }
        }
        match best {
            Some((_, _, m)) => Some(m),
            None => None,
        }
    }
}

/// The nearest address of an index among the points of a scan.
pub open spec fn nearest_in(index: AddressPointIndex<'_>, near: Seq<Candidate>) -> Option<AddressText> {
    match nearest(near, index.known_marks(near)) {
        Some(i) => Some(index.address(index.point(near[i].id as int))),
        None => None,
    }
}

/// How far the nearest address of an index is.
pub open spec fn nearest_dist(index: AddressPointIndex<'_>, near: Seq<Candidate>) -> Option<u64> {
    match nearest(near, index.known_marks(near)) {
        Some(i) => Some(near[i].dist),
        None => None,
    }
}

/// The index among the first `n` that a scan over all of them settles on: the
/// first with an address, and then each with a nearer one.
pub open spec fn nearest_shard(shards: Seq<Shard<'_>>, near: Seq<Vec<Candidate>>, n: int) -> Option<
    int,
>
    decreases n,
{
    if n <= 0 {
        None
    } else {
        let before = nearest_shard(shards, near, n - 1);
        match nearest_dist(shards[n - 1].index, near[n - 1]@) {
            None => before,
            Some(d) => match before {
                None => Some(n - 1),
                Some(s) => if lt64(d, nearest_dist(shards[s].index, near[s]@)->0) {
                    Some(n - 1)
                } else {
                    before
                },
            },
        }
    }
}

/// How far the address is that an index finds.
pub open spec fn found_dist(
    index: AddressPointIndex<'_>,
    near: Seq<Candidate>,
    q: AddressQuery,
) -> Option<u64> {
    match index.found_at(q, near) {
        Some(i) => Some(near[i].dist),
        None => None,
    }
}

/// The index among the first `n` that a search over all of them settles on: the
/// first that finds the address, and then each that finds a nearer one.
pub open spec fn found_shard(
    shards: Seq<Shard<'_>>,
    near: Seq<Vec<Candidate>>,
    q: AddressQuery,
    n: int,
) -> Option<int>
    decreases n,
{
    if n <= 0 {
        None
    } else {
        let before = found_shard(shards, near, q, n - 1);
        match found_dist(shards[n - 1].index, near[n - 1]@, q) {
            None => before,
            Some(d) => match before {
                None => Some(n - 1),
                Some(s) => if lt64(d, found_dist(shards[s].index, near[s]@, q)->0) {
                    Some(n - 1)
                } else {
                    before
                },
            },
        }
    }
}

/// A search over all countries finds an address wherever one of them has it.
pub proof fn law_no_country_is_passed_over(
    shards: Seq<Shard<'_>>,
    near: Seq<Vec<Candidate>>,
    q: AddressQuery,
    n: int,
    at: int,
)
    requires
        0 <= at < n,
        shards[at].index.search_result(q, near[at]@) is Some,
    ensures
        found_shard(shards, near, q, n) matches Some(s) && 0 <= s < n
            && shards[s].index.search_result(q, near[s]@) is Some,
    decreases n,
{
    if at < n - 1 {
        law_no_country_is_passed_over(shards, near, q, n - 1, at);
    } else {
        lemma_found_shard(shards, near, q, n - 1);
    }
}

proof fn lemma_found_shard(
    shards: Seq<Shard<'_>>,
    near: Seq<Vec<Candidate>>,
    q: AddressQuery,
    n: int,
)
    ensures
        found_shard(shards, near, q, n) matches Some(s) ==> 0 <= s < n
            && shards[s].index.search_result(q, near[s]@) is Some,
    decreases n,
{
    if n > 0 {
        lemma_found_shard(shards, near, q, n - 1);
    }
}

fn nearest_with_dist<'a>(index: &AddressPointIndex<'a>, near: &[Candidate]) -> (r: Option<
    (u64, AddressMatch<'a>),
>)
    ensures
        match r {
            Some((d, m)) => nearest_dist(*index, near@) == Some(d) && nearest_in(*index, near@)
                == Some(m@),
            None => nearest_dist(*index, near@) is None,
        },
{
    let count: usize = index.len();
    let mut known: Vec<bool> = Vec::new();
    for i in 0..near.len()
        invariant
            count == index.point_count(),
            known@.len() == i,
            forall|j: int| 0 <= j < i ==> known@[j] == (near@[j].id < index.point_count()),
    {
        known.push((near[i].id as usize) < count);
    }
    assert(known@ =~= index.known_marks(near@));
    match pick_nearest(near, &known) {
        Some(i) => match index.get(near[i].id) {
            Some(p) => Some((near[i].dist, index.hydrate(&p))),
            None => None,
        },
        None => None,
    }
}

/// The name of every file of a country's index gives back the country, in
/// lower case.
pub proof fn law_prefix_round_trips(cc: [u8; 2], tail: Seq<char>)
    requires
        is_ascii_letter(cc[0] as char),
        is_ascii_letter(cc[1] as char),
        tail == "_points.bin"@ || tail == "_cells.bin"@ || tail == "_entries.bin"@ || tail
            == "_strings.bin"@ || tail == "_points.schema.json"@,
    ensures
        shard_country("oa_"@ + code_text(lower_code(cc)) + tail) == Some(code_text(lower_code(cc))),
{
    reveal_strlit("oa_");
    reveal_strlit("_points.bin");
    reveal_strlit("_cells.bin");
    reveal_strlit("_entries.bin");
    reveal_strlit("_strings.bin");
    reveal_strlit("_points.schema.json");
    let code = code_text(lower_code(cc));
    let name = "oa_"@ + code + tail;
    let rest = code + tail;
    assert(name.take(3) =~= "oa_"@);
    assert(name.skip(3) =~= rest);
    assert(rest.skip(2) =~= tail);
    assert(rest.take(2) =~= code);
    assert(lower_seq(code) =~= code);
    assert(crate::text::has_suffix(rest, tail));
    let n = rest.len();
    let m = tail.len();
    assert(rest[n - 2] == tail[m - 2]);
    assert(rest[n - 6] == tail[m - 6]);
    if tail != "_points.bin"@ {
        lemma_other_suffix(rest, "_points.bin"@, 1);
        lemma_other_suffix(rest, "_points.bin"@, 5);
        if tail != "_cells.bin"@ {
            lemma_other_suffix(rest, "_cells.bin"@, 1);
            lemma_other_suffix(rest, "_cells.bin"@, 5);
            if tail != "_entries.bin"@ {
                lemma_other_suffix(rest, "_entries.bin"@, 1);
                lemma_other_suffix(rest, "_entries.bin"@, 5);
                if tail != "_strings.bin"@ {
                    lemma_other_suffix(rest, "_strings.bin"@, 1);
                }
            }
        }
    }
    assert(shard_stem(rest) == Some(code));
}

proof fn lemma_other_suffix(s: Seq<char>, t: Seq<char>, k: int)
    requires
        0 <= k < t.len(),
        k < s.len(),
    ensures
        s[s.len() - 1 - k] != t[t.len() - 1 - k] ==> !crate::text::has_suffix(s, t),
{
    if crate::text::has_suffix(s, t) {
        assert(s.skip(s.len() - t.len())[t.len() - 1 - k] == s[s.len() - 1 - k]);
    }
}

} // verus!
