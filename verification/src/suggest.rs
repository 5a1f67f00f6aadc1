//! Typeahead over whichever indexes are loaded: the unified one first, then
//! those of single countries.
use vstd::prelude::*;
use vstd::utf8::encode_utf8;
use crate::abbreviations::{name_key, normalise_prefix};
use crate::autocomplete::{
    best_cands, cand_lt, cand_place, entry_of, has_code, hit_lt, hit_of, hit_views,
    law_keeps_the_best, lemma_cand_place, map_covers, opt_hit_view, sorted_hits, walk_cands,
    walk_hits, AutocompleteCountry, Hit, HitText, UnifiedAutocomplete, FST_WALK_CAP,
};
use crate::fst_map::{
    behind, begins, bytes_lt, lemma_bytes_irreflexive, lemma_bytes_transitive, listed, FstMap,
};
use crate::openaddresses::{lower_code, normalise_code};

verus! {

broadcast use vstd::seq::group_seq_axioms;

/// The index of one country.
pub struct CountryNames<'a> {
    /// In lower case.
    pub code: [u8; 2],
    pub names: AutocompleteCountry<'a>,
}

/// The indexes that are loaded.
pub struct Autocomplete<'a> {
    pub unified: Option<UnifiedAutocomplete<'a>>,
    /// At most one index for each country.
    pub per_country: Vec<CountryNames<'a>>,
}

/// All lists, one behind the other.
pub open spec fn concat_hits(lists: Seq<Seq<HitText>>) -> Seq<HitText>
    decreases lists.len(),
{
    if lists.len() == 0 {
        Seq::empty()
    } else {
        concat_hits(lists.drop_last()) + lists.last()
    }
}

impl<'a> Autocomplete<'a> {
    pub open spec fn wf(&self) -> bool {
        &&& self.unified matches Some(u) ==> u.wf()
        &&& forall|i: int, j: int|
            0 <= i < j < self.per_country@.len() ==> (#[trigger] self.per_country@[i]).code@ != (
            #[trigger] self.per_country@[j]).code@
    }

    /// Whether country index `i` is that of a country, given in any case.
    pub open spec fn is_country(&self, i: int, cc: [u8; 2]) -> bool {
        0 <= i < self.per_country@.len() && self.per_country@[i].code@ == lower_code(cc)@
    }

    pub open spec fn has_own(&self, cc: [u8; 2]) -> bool {
        exists|i: int| #[trigger] self.is_country(i, cc)
    }

    /// Whether no index is loaded.
    pub fn is_empty(&self) -> (r: bool)
        ensures
            r == (self.unified is None && self.per_country@.len() == 0),
    {
        self.unified.is_none() && self.per_country.len() == 0
    }

    fn position(&self, cc: &[u8; 2]) -> (r: Option<usize>)
        ensures
            match r {
                Some(i) => self.is_country(i as int, *cc),
                None => !self.has_own(*cc),
            },
    {
        let code = normalise_code(cc);
        for i in 0..self.per_country.len()
            invariant
                code@ == lower_code(*cc)@,
                forall|j: int| 0 <= j < i ==> !self.is_country(j, *cc),
        {
            if self.per_country[i].code[0] == code[0] && self.per_country[i].code[1] == code[1] {
                assert(self.per_country@[i as int].code@ =~= code@);
                return Some(i);
            }
            assert(self.per_country@[i as int].code@[0] != code@[0]
                || self.per_country@[i as int].code@[1] != code@[1]);
        }
        None
    }

    /// Whether the unified index covers a country.
    pub open spec fn unified_covers(&self, cc: [u8; 2]) -> bool {
        self.unified matches Some(u) && map_covers(u.map, lower_code(cc)@)
    }

    /// Whether any index covers a country.
    pub fn has_country(&self, cc: &[u8; 2]) -> (r: bool)
        requires
            self.wf(),
        ensures
            r == (self.unified_covers(*cc) || self.has_own(*cc)),
    {
        if let Some(u) = &self.unified {
            if u.has_country(cc) {
                return true;
            }
        }
        self.position(cc).is_some()
    }

    /// The codes of the countries that any index covers, each once.
    pub fn countries(&self) -> (r: Vec<[u8; 2]>)
        requires
            self.wf(),
        ensures
            forall|cc: [u8; 2]| #[trigger]
                has_code(r@, cc@) <==> (self.own_code(cc@) || (self.unified matches Some(u)
                    && map_covers(u.map, cc@))),
            forall|i: int, j: int|
                0 <= i < j < r@.len() ==> (#[trigger] r@[i])@ != (#[trigger] r@[j])@,
    {
        let mut out: Vec<[u8; 2]> = Vec::new();
        for i in 0..self.per_country.len()
            invariant
                self.wf(),
                out@.len() == i,
                forall|j: int| 0 <= j < i ==> (#[trigger] out@[j])@ == self.per_country@[j].code@,
        {
            let code = self.per_country[i].code;
            out.push(code);
        }
        assert forall|i: int, j: int| 0 <= i < j < out@.len() implies (#[trigger] out@[i])@ != (
        #[trigger] out@[j])@ by {
            assert(self.per_country@[i].code@ != self.per_country@[j].code@);
        }
        assert forall|cc: [u8; 2]| #[trigger] has_code(out@, cc@) <==> self.own_code(cc@) by {
            if has_code(out@, cc@) {
                let i = choose|i: int| 0 <= i < out@.len() && (#[trigger] out@[i])@ == cc@;
                assert(self.per_country@[i].code@ == cc@);
            }
            if self.own_code(cc@) {
                let i = choose|i: int|
                    0 <= i < self.per_country@.len() && (#[trigger] self.per_country@[i]).code@ == cc@;
                assert(out@[i]@ == cc@);
            }
        }
        if let Some(u) = &self.unified {
            for k in 0..u.countries.len()
                invariant
                    self.wf(),
                    self.unified matches Some(v) && v == *u,
                    forall|i: int, j: int|
                        0 <= i < j < out@.len() ==> (#[trigger] out@[i])@ != (#[trigger] out@[j])@,
                    forall|cc: [u8; 2]| #[trigger]
                        has_code(out@, cc@) <==> (self.own_code(cc@) || has_code(
                            u.countries@.take(k as int),
                            cc@,
                        )),
            {
                let code: [u8; 2] = u.countries[k];
                let ghost before = out@;
                let ghost seen = u.countries@.take(k as int);
                let ghost more = u.countries@.take(k + 1);
                let mut known = false;
                for i in 0..out.len()
                    invariant
                        out@ == before,
                        known == exists|j: int| 0 <= j < i && (#[trigger] out@[j])@ == code@,
                {
                    if out[i][0] == code[0] && out[i][1] == code[1] {
                        assert(out@[i as int]@ =~= code@);
                        known = true;
                    } else {
                        assert(out@[i as int]@[0] != code@[0] || out@[i as int]@[1] != code@[1]);
                    }
                }
                if !known {
                    out.push(code);
                }
                proof {
                    assert forall|cc: [u8; 2]| #[trigger] has_code(out@, cc@) <==> (self.own_code(cc@)
                        || has_code(more, cc@)) by {
                        assert(has_code(before, cc@) <==> (self.own_code(cc@) || has_code(seen, cc@)));
                        if has_code(seen, cc@) {
                            let j = choose|j: int| 0 <= j < seen.len() && (#[trigger] seen[j])@ == cc@;
                            assert(more[j]@ == cc@);
                        }
                        if cc@ == code@ {
                            assert(more[k as int]@ == cc@);
                            if known {
                                let j = choose|j: int|
                                    0 <= j < out@.len() && (#[trigger] out@[j])@ == code@;
                                assert(out@[j]@ == cc@);
                            } else {
                                assert(out@[before.len() as int]@ == cc@);
                            }
                        }
                        if has_code(before, cc@) {
                            let j = choose|j: int| 0 <= j < before.len() && (#[trigger] before[j])@ == cc@;
                            assert(out@[j]@ == cc@);
                        }
                        if has_code(more, cc@) && cc@ != code@ {
                            let j = choose|j: int| 0 <= j < more.len() && (#[trigger] more[j])@ == cc@;
                            assert(seen[j]@ == cc@);
                        }
                        if has_code(out@, cc@) && cc@ != code@ {
                            let j = choose|j: int| 0 <= j < out@.len() && (#[trigger] out@[j])@ == cc@;
                            assert(before[j]@ == cc@);
                        }
                    }
                    assert forall|i: int, j: int| 0 <= i < j < out@.len() implies (
                    #[trigger] out@[i])@ != (#[trigger] out@[j])@ by {
                        assert(out@[i] == before[i]);
                        if j < before.len() {
                            assert(out@[j] == before[j]);
                        }
                    }
                }
            }
            proof {
                assert(u.countries@.take(u.countries@.len() as int) =~= u.countries@);
                assert forall|cc: [u8; 2]| #[trigger] has_code(out@, cc@) <==> (self.own_code(cc@) || (
                self.unified matches Some(v) && map_covers(v.map, cc@))) by {
                    assert(has_code(u.countries@, cc@) <==> map_covers(u.map, cc@));
                }
            }
        }
        out
    }

    /// Whether an index of a single country has the given code.
    pub open spec fn own_code(&self, cc: Seq<u8>) -> bool {
        exists|i: int|
            0 <= i < self.per_country@.len() && (#[trigger] self.per_country@[i]).code@ == cc
    }

    /// Finds exactly this name in a country: in the unified index, or else in
    /// that of the country.
    pub fn exact_match(&self, country_code: &[u8; 2], q: &str) -> (r: Option<Hit>)
        ensures
            if self.unified is Some && self.unified->0.exact(*country_code, q@) is Some {
                opt_hit_view(r) == self.unified->0.exact(*country_code, q@)
            } else if self.has_own(*country_code) {
                exists|i: int| #[trigger]
                    self.is_country(i, *country_code) && opt_hit_view(r)
                        == self.per_country@[i].names.exact(q@)
            } else {
                r is None
            },
    {
        if let Some(u) = &self.unified {
            let hit = u.get_exact(country_code, q);
            if hit.is_some() {
                return hit;
            }
        }
        match self.position(country_code) {
            Some(i) => {
                let r = self.per_country[i].names.get_exact(q);
                assert(self.is_country(i as int, *country_code));
                r
            },
            None => None,
        }
    }

    /// What an exact search in a country finds.
    pub open spec fn exact_answer(&self, cc: [u8; 2], q: Seq<char>) -> Option<HitText> {
        if self.unified is Some && self.unified->0.exact(cc, q) is Some {
            self.unified->0.exact(cc, q)
        } else if self.has_own(cc) {
            self.per_country@[choose|i: int| self.is_country(i, cc)].names.exact(q)
        } else {
            None
        }
    }

    /// Finds exactly this name in a country, of which there is at most one
    /// index.
    pub fn exact_in(&self, country_code: &[u8; 2], q: &str) -> (r: Option<Hit>)
        requires
            self.wf(),
        ensures
            opt_hit_view(r) == self.exact_answer(*country_code, q@),
    {
        let r = self.exact_match(country_code, q);
        proof {
            self.lemma_exact_answer(*country_code, q@);
        }
        r
    }

    /// Finds exactly this name in any country: the most prominent match, with
    /// its country.
    pub fn exact_match_any(&self, q: &str) -> (r: Option<([u8; 2], Hit)>)
        requires
            self.wf(),
        ensures
            match r {
                Some((cc, hit)) => {
                    &&& self.exact_answer(cc, q@) == Some(hit@)
                    &&& self.covers(cc@)
                    &&& forall|other: [u8; 2]|
                        self.covers(other@) ==> (#[trigger] self.exact_answer(other, q@) matches Some(
                            h,
                        ) ==> hit.rank <= h.rank)
                },
                None => forall|other: [u8; 2]|
                    self.covers(other@) ==> #[trigger] self.exact_answer(other, q@) is None,
            },
    {
        let codes = self.countries();
        let mut best: Option<([u8; 2], Hit)> = None;
        for i in 0..codes.len()
            invariant
                self.wf(),
                forall|cc: [u8; 2]| #[trigger] has_code(codes@, cc@) <==> self.covers(cc@),
                match best {
                    Some((cc, hit)) => {
                        &&& self.exact_answer(cc, q@) == Some(hit@)
                        &&& self.covers(cc@)
                        &&& forall|j: int|
                            0 <= j < i ==> (self.exact_answer(#[trigger] codes@[j], q@) matches Some(
                                h,
                            ) ==> hit.rank <= h.rank)
                    },
                    None => forall|j: int|
                        0 <= j < i ==> self.exact_answer(#[trigger] codes@[j], q@) is None,
                },
        {
            let code: [u8; 2] = codes[i];
            assert(has_code(codes@, code@));
            let hit = self.exact_in(&code, q);
            if let Some(h) = hit {
                let better = match &best {
                    Some((_, b)) => h.rank < b.rank,
                    None => true,
                };
                if better {
                    best = Some((code, h));
                }
            }
        }
        proof {
            assert forall|other: [u8; 2]| self.covers(other@) implies (match best {
                Some((_, hit)) => #[trigger] self.exact_answer(other, q@) matches Some(h)
                    ==> hit.rank <= h.rank,
                None => self.exact_answer(other, q@) is None,
            }) by {
                assert(has_code(codes@, other@));
                let j = choose|j: int| 0 <= j < codes@.len() && (#[trigger] codes@[j])@ == other@;
                assert(codes@[j]@ == other@);
                assert(codes@[j] == other);
            }
        }
        best
    }

    /// Whether any index covers a country, by its code in lower case.
    pub open spec fn covers(&self, cc: Seq<u8>) -> bool {
        self.own_code(cc) || (self.unified matches Some(u) && map_covers(u.map, cc))
    }

    proof fn lemma_exact_answer(&self, cc: [u8; 2], q: Seq<char>)
        requires
            self.wf(),
        ensures
            forall|i: int| #[trigger]
                self.is_country(i, cc) ==> self.per_country@[i].names.exact(q)
                    == self.per_country@[choose|k: int| self.is_country(k, cc)].names.exact(q),
    {
        assert forall|i: int| #[trigger] self.is_country(i, cc) implies i == (choose|k: int|
            self.is_country(k, cc)) by {
            let k = choose|k: int| self.is_country(k, cc);
            assert(self.is_country(k, cc));
            assert(self.per_country@[i].code@ == self.per_country@[k].code@);
        }
    }

    /// Whether the suggestions are those of the index of the country; none
    /// where there is no such index.
    pub open spec fn is_own_search(
        &self,
        hits: Seq<HitText>,
        cc: [u8; 2],
        q: Seq<char>,
        limit: nat,
    ) -> bool {
        if self.has_own(cc) {
            exists|i: int| #[trigger]
                self.is_country(i, cc) && self.per_country@[i].names.is_search(
                    hits,
                    name_key(q),
                    limit,
                )
        } else {
            hits.len() == 0
        }
    }

    /// Whether the suggestions are those of the unified index, or, where that has
    /// none, those of the index of the country.
    pub open spec fn is_search(
        &self,
        hits: Seq<HitText>,
        cc: [u8; 2],
        q: Seq<char>,
        limit: nat,
    ) -> bool {
        (self.unified matches Some(u) && hits.len() > 0 && u.is_search(hits, cc, q, limit)) || ((
        self.unified matches Some(u) ==> u.is_search(Seq::empty(), cc, q, limit))
            && self.is_own_search(hits, cc, q, limit))
    }

    /// Finds names in a country that begin with what was typed: in the unified
    /// index, or else, where that has none, in that of the country.
    pub fn search(&self, country_code: &[u8; 2], q: &str, limit: usize) -> (r: Vec<Hit>)
        ensures
            self.is_search(hit_views(r@), *country_code, q@, limit as nat),
    {
        if let Some(u) = &self.unified {
            let hits = u.starts_with(country_code, q, limit);
            if hits.len() > 0 {
                return hits;
            }
            assert(hit_views(hits@) =~= Seq::empty());
        }
        match self.position(country_code) {
            Some(i) => {
                let name = normalise_prefix(q);
                let r = self.per_country[i].names.starts_with(name.as_str(), limit);
                assert(self.is_country(i as int, *country_code));
                r
            },
            None => Vec::new(),
        }
    }

    /// Whether `lists` holds the suggestions of the first `n` country indexes.
    pub open spec fn are_own_searches(
        &self,
        lists: Seq<Seq<HitText>>,
        q: Seq<char>,
        limit: nat,
        n: int,
    ) -> bool {
        &&& lists.len() == n
        &&& forall|i: int|
            0 <= i < n ==> self.per_country@[i].names.is_search(
                #[trigger] lists[i],
                name_key(q),
                limit,
            )
    }

    /// Finds names that begin with what was typed in the indexes of all single
    /// countries: the best few of what each has.
    pub fn search_any(&self, q: &str, limit: usize) -> (r: Vec<Hit>)
        ensures
            exists|lists: Seq<Seq<HitText>>| #[trigger]
                self.are_own_searches(
                    lists,
                    q@,
                    limit as nat,
                    self.per_country@.len() as int,
                ) && hit_views(r@) == at_most(sorted_hits(concat_hits(lists)), limit as nat),
    {
        let name = normalise_prefix(q);
        let mut merged: Vec<Hit> = Vec::new();
        let ghost mut lists: Seq<Seq<HitText>> = Seq::empty();
        assert(hit_views(merged@) =~= sorted_hits(concat_hits(lists)));
        for i in 0..self.per_country.len()
            invariant
                name@ == name_key(q@),
                self.are_own_searches(lists, q@, limit as nat, i as int),
                hit_views(merged@) == sorted_hits(concat_hits(lists)),
        {
            let hits = self.per_country[i].names.starts_with(name.as_str(), limit);
            let ghost list = hit_views(hits@);
            let ghost before = lists;
            merge_hits(&mut merged, hits, Ghost(concat_hits(before)));
            proof {
                lists = before.push(list);
                assert(lists.drop_last() =~= before);
                assert forall|j: int| 0 <= j < i + 1 implies self.per_country@[j].names.is_search(
                    #[trigger] lists[j],
                    name_key(q@),
                    limit as nat,
                ) by {
                    if j < i {
                        assert(lists[j] == before[j]);
                    }
                }
            }
        }
        let ghost all = hit_views(merged@);
        merged.truncate(limit);
        assert(hit_views(merged@) =~= at_most(all, limit as nat));
        assert(self.are_own_searches(
            lists,
            q@,
            limit as nat,
            self.per_country@.len() as int,
        ));
        merged
    }
}

/// The first `n` of a list, or all of it.
pub open spec fn at_most(s: Seq<HitText>, n: nat) -> Seq<HitText> {
    if s.len() <= n {
        s
    } else {
        s.take(n as int)
    }
}

/// Merges suggestions into a sorted list.
fn merge_hits(merged: &mut Vec<Hit>, hits: Vec<Hit>, Ghost(given): Ghost<Seq<HitText>>)
    requires
        hit_views(old(merged)@) == sorted_hits(given),
    ensures
        hit_views(final(merged)@) == sorted_hits(given + hit_views(hits@)),
{
    let ghost list = hit_views(hits@);
    let mut rest = hits;
    let mut k: usize = 0;
    let n: usize = rest.len();
    assert(given + list.take(0) =~= given);
    assert(list.skip(0) =~= list);
    while k < n
        invariant
            k <= n,
            n == list.len(),
            hit_views(rest@) == list.skip(k as int),
            hit_views(merged@) == sorted_hits(given + list.take(k as int)),
        decreases n - k,
    {
        assert(hit_views(rest@).len() == rest@.len());
        let ghost left = rest@;
        let hit = rest.remove(0);
        assert(hit@ == hit_views(left)[0]);
        assert forall|i: int| 0 <= i < rest@.len() implies (#[trigger] rest@[i])@ == list[k + 1 + i] by {
            assert(rest@[i] == left[i + 1]);
            assert(hit_views(left)[i + 1] == list.skip(k as int)[i + 1]);
        }
        assert(hit_views(rest@) =~= list.skip(k + 1));
        let ghost longer = given + list.take(k + 1);
        assert(longer.drop_last() =~= given + list.take(k as int));
        crate::autocomplete::insert_hit(merged, hit);
        k += 1;
    }
    assert(list.take(n as int) =~= list);
}

// --- Laws ---
proof fn lemma_walk_step(
    map: FstMap,
    a: Seq<(Vec<u8>, u64)>,
    b: Seq<(Vec<u8>, u64)>,
    prefix: Seq<u8>,
    cap: nat,
    i: int,
)
    requires
        map.is_walk(a, prefix, cap),
        map.is_walk(b, prefix, cap),
        0 <= i < a.len(),
        i <= b.len(),
        forall|j: int| 0 <= j < i ==> (#[trigger] a[j]).0@ == b[j].0@,
    ensures
        i < b.len(),
        !bytes_lt(a[i].0@, b[i].0@),
{
    let x = a[i].0@;
    assert(map.contents().contains_key(x) && begins(x, prefix));
    lemma_bytes_irreflexive(x);
    if listed(b, x) {
        let m = choose|m: int| 0 <= m < b.len() && #[trigger] b[m].0@ == x;
        if m < i {
            assert(a[m].0@ == b[m].0@);
            assert(bytes_lt(a[m].0@, a[i].0@));
        } else if m > i {
            assert(bytes_lt(b[i].0@, b[m].0@));
            if bytes_lt(x, b[i].0@) {
                lemma_bytes_transitive(x, b[i].0@, x);
            }
        }
    } else {
        assert(b.len() == cap && behind(b, x));
        assert(bytes_lt(b[i].0@, x));
        if bytes_lt(x, b[i].0@) {
            lemma_bytes_transitive(x, b[i].0@, x);
        }
    }
}

proof fn lemma_walks_agree(
    map: FstMap,
    a: Seq<(Vec<u8>, u64)>,
    b: Seq<(Vec<u8>, u64)>,
    prefix: Seq<u8>,
    cap: nat,
    n: int,
)
    requires
        map.is_walk(a, prefix, cap),
        map.is_walk(b, prefix, cap),
        0 <= n <= a.len(),
    ensures
        n <= b.len(),
        forall|j: int| 0 <= j < n ==> (#[trigger] a[j]).0@ == b[j].0@,
    decreases n,
{
    if n > 0 {
        lemma_walks_agree(map, a, b, prefix, cap, n - 1);
        let i = n - 1;
        lemma_walk_step(map, a, b, prefix, cap, i);
        assert forall|j: int| 0 <= j < i implies (#[trigger] b[j]).0@ == a[j].0@ by {
            assert(a[j].0@ == b[j].0@);
        }
        lemma_walk_step(map, b, a, prefix, cap, i);
        crate::fst_map::lemma_bytes_total(a[i].0@, b[i].0@);
    }
}

proof fn lemma_cands_agree(
    a: Seq<(Vec<u8>, u64)>,
    b: Seq<(Vec<u8>, u64)>,
    entries: Seq<u8>,
    strings: Seq<u8>,
)
    requires
        a.len() == b.len(),
        forall|j: int| 0 <= j < a.len() ==> (#[trigger] a[j]).1 == b[j].1,
    ensures
        walk_cands(a, entries, strings) == walk_cands(b, entries, strings),
    decreases a.len(),
{
    if a.len() > 0 {
        assert(a[a.len() - 1].1 == b[b.len() - 1].1);
        assert forall|j: int| 0 <= j < a.drop_last().len() implies (#[trigger] a.drop_last()[j]).1
            == b.drop_last()[j].1 by {
            assert(a[j].1 == b[j].1);
        }
        lemma_cands_agree(a.drop_last(), b.drop_last(), entries, strings);
    }
}

/// What was typed determines the suggestions: two searches of the same index
/// for the same name give the same list.
pub proof fn law_search_is_determined(
    index: AutocompleteCountry<'_>,
    a: Seq<HitText>,
    b: Seq<HitText>,
    q: Seq<char>,
    limit: nat,
)
    requires
        index.is_search(a, q, limit),
        index.is_search(b, q, limit),
    ensures
        a == b,
{
    if limit > 0 && q.len() > 0 {
        let p = encode_utf8(q);
        let cap = FST_WALK_CAP as nat;
        let v = choose|walk: Seq<(Vec<u8>, u64)>| #[trigger]
            index.map.is_walk(walk, p, cap) && a == walk_hits(
                walk,
                index.entries@,
                index.strings@,
                limit,
            );
        let w = choose|walk: Seq<(Vec<u8>, u64)>| #[trigger]
            index.map.is_walk(walk, p, cap) && b == walk_hits(
                walk,
                index.entries@,
                index.strings@,
                limit,
            );
        lemma_same_walk_hits(index.map, v, w, p, cap, index.entries@, index.strings@);
    } else {
        assert(a =~= b);
    }
}

proof fn lemma_same_walk_hits(
    map: FstMap,
    v: Seq<(Vec<u8>, u64)>,
    w: Seq<(Vec<u8>, u64)>,
    prefix: Seq<u8>,
    cap: nat,
    entries: Seq<u8>,
    strings: Seq<u8>,
)
    requires
        map.is_walk(v, prefix, cap),
        map.is_walk(w, prefix, cap),
    ensures
        walk_cands(v, entries, strings) == walk_cands(w, entries, strings),
{
    lemma_walks_agree(map, v, w, prefix, cap, v.len() as int);
    lemma_walks_agree(map, w, v, prefix, cap, w.len() as int);
    assert forall|j: int| 0 <= j < v.len() implies (#[trigger] v[j]).1 == w[j].1 by {
        assert(v[j].0@ == w[j].0@);
        assert(map.contents()[v[j].0@] == v[j].1);
        assert(map.contents()[w[j].0@] == w[j].1);
    }
    lemma_cands_agree(v, w, entries, strings);
}

/// The same holds of the unified index.
pub proof fn law_unified_search_is_determined(
    index: UnifiedAutocomplete<'_>,
    a: Seq<HitText>,
    b: Seq<HitText>,
    cc: [u8; 2],
    q: Seq<char>,
    limit: nat,
)
    requires
        index.is_search(a, cc, q, limit),
        index.is_search(b, cc, q, limit),
    ensures
        a == b,
{
    if limit > 0 && name_key(q).len() > 0 {
        let p = UnifiedAutocomplete::country_key(cc, name_key(q));
        let cap = FST_WALK_CAP as nat;
        let v = choose|walk: Seq<(Vec<u8>, u64)>| #[trigger]
            index.map.is_walk(walk, p, cap) && a == walk_hits(
                walk,
                index.entries@,
                index.strings@,
                limit,
            );
        let w = choose|walk: Seq<(Vec<u8>, u64)>| #[trigger]
            index.map.is_walk(walk, p, cap) && b == walk_hits(
                walk,
                index.entries@,
                index.strings@,
                limit,
            );
        lemma_same_walk_hits(index.map, v, w, p, cap, index.entries@, index.strings@);
    } else {
        assert(a =~= b);
    }
}

proof fn lemma_distinct_within(a: Seq<Seq<u8>>, b: Seq<Seq<u8>>)
    requires
        a.no_duplicates(),
        forall|i: int| 0 <= i < a.len() ==> b.contains(#[trigger] a[i]),
    ensures
        a.len() <= b.len(),
{
    a.unique_seq_to_set();
    b.lemma_cardinality_of_set();
    assert(a.to_set().subset_of(b.to_set())) by {
        assert forall|x: Seq<u8>| #[trigger] a.to_set().contains(x) implies b.to_set().contains(x) by {
            let i = choose|i: int| 0 <= i < a.len() && a[i] == x;
            assert(b.contains(a[i]));
        }
    }
    vstd::set_lib::lemma_len_subset(a.to_set(), b.to_set());
}

/// Whether `all` lists the keys of a map that begin with `prefix`, each once.
pub open spec fn lists_all(map: FstMap, prefix: Seq<u8>, all: Seq<Seq<u8>>) -> bool {
    &&& all.no_duplicates()
    &&& forall|x: Seq<u8>| #[trigger]
        all.contains(x) <==> map.contents().contains_key(x) && begins(x, prefix)
}

spec fn walk_keys(walk: Seq<(Vec<u8>, u64)>) -> Seq<Seq<u8>> {
    Seq::new(walk.len(), |i: int| walk[i].0@)
}

proof fn lemma_walk_is_whole(
    map: FstMap,
    walk: Seq<(Vec<u8>, u64)>,
    prefix: Seq<u8>,
    cap: nat,
    all: Seq<Seq<u8>>,
)
    requires
        map.is_walk(walk, prefix, cap),
        lists_all(map, prefix, all),
        all.len() <= cap,
    ensures
        walk.len() == all.len(),
        forall|i: int| 0 <= i < all.len() ==> listed(walk, #[trigger] all[i]),
{
    let keys = walk_keys(walk);
    assert forall|i: int, j: int| 0 <= i < keys.len() && 0 <= j < keys.len() && i != j implies keys[i]
        != keys[j] by {
        lemma_bytes_irreflexive(keys[i]);
        if i < j {
            assert(bytes_lt(walk[i].0@, walk[j].0@));
        } else {
            assert(bytes_lt(walk[j].0@, walk[i].0@));
        }
    }
    assert forall|i: int| 0 <= i < keys.len() implies all.contains(#[trigger] keys[i]) by {
        assert(map.contents().contains_key(walk[i].0@));
    }
    lemma_distinct_within(keys, all);
    assert forall|i: int| 0 <= i < all.len() implies listed(walk, #[trigger] all[i]) by {
        let x = all[i];
        assert(all.contains(x));
        if !listed(walk, x) {
            assert(walk.len() == cap);
            let more = keys.push(x);
            assert forall|j: int| 0 <= j < keys.len() implies #[trigger] keys[j] != x by {
                assert(walk[j].0@ == keys[j]);
            }
            assert forall|a: int, b: int|
                0 <= a < more.len() && 0 <= b < more.len() && a != b implies more[a] != more[b] by {
                if a < keys.len() {
                    assert(more[a] == keys[a]);
                }
                if b < keys.len() {
                    assert(more[b] == keys[b]);
                }
            }
            assert forall|j: int| 0 <= j < more.len() implies all.contains(#[trigger] more[j]) by {
                if j < keys.len() {
                    assert(more[j] == keys[j]);
                }
            }
            lemma_distinct_within(more, all);
        }
    }
    assert forall|i: int| 0 <= i < all.len() implies keys.contains(#[trigger] all[i]) by {
        assert(listed(walk, all[i]));
        let j = choose|j: int| 0 <= j < walk.len() && #[trigger] walk[j].0@ == all[i];
        assert(keys[j] == all[i]);
    }
    lemma_distinct_within(all, keys);
}

proof fn lemma_walk_cands(walk: Seq<(Vec<u8>, u64)>, entries: Seq<u8>, strings: Seq<u8>)
    requires
        forall|i: int| 0 <= i < walk.len() ==> entry_of(entries, (#[trigger] walk[i]).1) is Some,
    ensures
        walk_cands(walk, entries, strings).len() == walk.len(),
        forall|i: int|
            0 <= i < walk.len() ==> walk_cands(walk, entries, strings)[i] == (
                hit_of(entry_of(entries, (#[trigger] walk[i]).1)->0, strings),
                walk[i].1,
            ),
    decreases walk.len(),
{
    if walk.len() > 0 {
        let front = walk.drop_last();
        assert forall|i: int| 0 <= i < front.len() implies entry_of(
            entries,
            (#[trigger] front[i]).1,
        ) is Some by {
            assert(walk[i] == front[i]);
        }
        lemma_walk_cands(front, entries, strings);
        assert(entry_of(entries, walk[walk.len() - 1].1) is Some);
        assert forall|i: int| 0 <= i < walk.len() implies walk_cands(walk, entries, strings)[i] == (
            hit_of(entry_of(entries, (#[trigger] walk[i]).1)->0, strings),
            walk[i].1,
        ) by {
            if i < front.len() {
                assert(front[i] == walk[i]);
            }
        }
    }
}

/// The suggestion that the files of an index have for a key of its map.
pub open spec fn key_hit(map: FstMap, entries: Seq<u8>, strings: Seq<u8>, key: Seq<u8>) -> HitText {
    hit_of(entry_of(entries, map.contents()[key])->0, strings)
}

/// Whether suggestions are the best of those for some keys: as many as the limit
/// allows, by rank and by name within a rank, and none that is left out comes
/// before one that is made.
pub open spec fn are_best(
    hits: Seq<HitText>,
    map: FstMap,
    entries: Seq<u8>,
    strings: Seq<u8>,
    all: Seq<Seq<u8>>,
    limit: nat,
) -> bool {
    &&& hits.len() == (if all.len() < limit {
        all.len()
    } else {
        limit
    })
    &&& forall|i: int, j: int|
        0 <= i < j < hits.len() ==> !hit_lt(#[trigger] hits[j], #[trigger] hits[i])
    &&& forall|i: int|
        0 <= i < hits.len() ==> exists|k: int|
            0 <= k < all.len() && #[trigger] hits[i] == key_hit(
                map,
                entries,
                strings,
                #[trigger] all[k],
            )
    &&& forall|k: int|
        #![trigger all[k]]
        0 <= k < all.len() ==> {
            let left = key_hit(map, entries, strings, all[k]);
            hits.contains(left) || forall|i: int|
                0 <= i < hits.len() ==> !hit_lt(left, #[trigger] hits[i])
        }
}

proof fn lemma_best_of_walk(
    map: FstMap,
    entries: Seq<u8>,
    strings: Seq<u8>,
    walk: Seq<(Vec<u8>, u64)>,
    prefix: Seq<u8>,
    cap: nat,
    all: Seq<Seq<u8>>,
    limit: nat,
)
    requires
        map.is_walk(walk, prefix, cap),
        lists_all(map, prefix, all),
        all.len() <= cap,
        forall|k: int|
            0 <= k < all.len() ==> entry_of(entries, map.contents()[#[trigger] all[k]]) is Some,
    ensures
        are_best(walk_hits(walk, entries, strings, limit), map, entries, strings, all, limit),
{
    lemma_walk_is_whole(map, walk, prefix, cap, all);
    assert forall|i: int| 0 <= i < walk.len() implies entry_of(
        entries,
        (#[trigger] walk[i]).1,
    ) is Some by {
        assert(map.contents().contains_key(walk[i].0@) && begins(walk[i].0@, prefix));
        assert(all.contains(walk[i].0@));
    }
    lemma_walk_cands(walk, entries, strings);
    let cands = walk_cands(walk, entries, strings);
    let best = best_cands(cands, limit);
    let hits = walk_hits(walk, entries, strings, limit);
    law_keeps_the_best(cands, limit);
    lemma_best_are_cands(cands, limit);
    assert forall|i: int, j: int| 0 <= i < j < hits.len() implies !hit_lt(
        #[trigger] hits[j],
        #[trigger] hits[i],
    ) by {
        assert(!cand_lt(best[j], best[i]));
    }
    assert forall|i: int| 0 <= i < hits.len() implies exists|k: int|
        0 <= k < all.len() && #[trigger] hits[i] == key_hit(
            map,
            entries,
            strings,
            #[trigger] all[k],
        ) by {
        assert(cands.contains(best[i]));
        let w = choose|w: int| 0 <= w < cands.len() && cands[w] == best[i];
        assert(map.contents().contains_key(walk[w].0@) && begins(walk[w].0@, prefix));
        assert(all.contains(walk[w].0@));
        let k = choose|k: int| 0 <= k < all.len() && all[k] == walk[w].0@;
        assert(hits[i] == key_hit(map, entries, strings, all[k]));
    }
    assert forall|k: int|
        #![trigger all[k]]
        0 <= k < all.len() implies ({
        let left = key_hit(map, entries, strings, all[k]);
        hits.contains(left) || forall|i: int|
            0 <= i < hits.len() ==> !hit_lt(left, #[trigger] hits[i])
    }) by {
        let left = key_hit(map, entries, strings, all[k]);
        assert(listed(walk, all[k]));
        let w = choose|w: int| 0 <= w < walk.len() && #[trigger] walk[w].0@ == all[k];
        assert(cands[w] == (left, walk[w].1));
        if best.contains(cands[w]) {
            let i = choose|i: int| 0 <= i < best.len() && best[i] == cands[w];
            assert(hits[i] == left);
        } else {
            assert forall|i: int| 0 <= i < hits.len() implies !hit_lt(left, #[trigger] hits[i]) by {
                assert(!cand_lt(cands[w], best[i]));
            }
        }
    }
}

proof fn lemma_best_are_cands(cands: Seq<(HitText, u64)>, limit: nat)
    ensures
        forall|i: int|
            0 <= i < best_cands(cands, limit).len() ==> cands.contains(
                #[trigger] best_cands(cands, limit)[i],
            ),
    decreases cands.len(),
{
    if cands.len() > 0 {
        let front = cands.drop_last();
        let before = best_cands(front, limit);
        let x = cands.last();
        let at = cand_place(before, x);
        let best = best_cands(cands, limit);
        lemma_cand_place(before, x);
        lemma_best_are_cands(front, limit);
        assert forall|i: int| 0 <= i < best.len() implies cands.contains(#[trigger] best[i]) by {
            if i == at {
                assert(cands[cands.len() - 1] == x);
            } else {
                let j = if i < at {
                    i
                } else {
                    i - 1
                };
                assert(best[i] == before[j]);
                assert(front.contains(before[j]));
                let k = choose|k: int| 0 <= k < front.len() && front[k] == before[j];
                assert(cands[k] == front[k]);
            }
        }
    }
}

/// The suggestions for what was typed are the best of all names that begin with
/// it, where a walk can visit them all.
pub proof fn law_search_finds_the_best(
    index: AutocompleteCountry<'_>,
    hits: Seq<HitText>,
    q: Seq<char>,
    limit: nat,
    all: Seq<Seq<u8>>,
)
    requires
        index.is_search(hits, q, limit),
        q.len() > 0,
        limit > 0,
        lists_all(index.map, encode_utf8(q), all),
        all.len() <= 10_000,
        forall|k: int| 0 <= k < all.len() ==> index.hit_for(#[trigger] all[k]) is Some,
    ensures
        are_best(hits, index.map, index.entries@, index.strings@, all, limit),
{
    let p = encode_utf8(q);
    let cap = FST_WALK_CAP as nat;
    let walk = choose|walk: Seq<(Vec<u8>, u64)>| #[trigger]
        index.map.is_walk(walk, p, cap) && hits == walk_hits(
            walk,
            index.entries@,
            index.strings@,
            limit,
        );
    assert forall|k: int| 0 <= k < all.len() implies entry_of(
        index.entries@,
        index.map.contents()[#[trigger] all[k]],
    ) is Some by {
        assert(index.hit_for(all[k]) is Some);
    }
    lemma_best_of_walk(index.map, index.entries@, index.strings@, walk, p, cap, all, limit);
}

/// The same holds of the unified index.
pub proof fn law_unified_search_finds_the_best(
    index: UnifiedAutocomplete<'_>,
    hits: Seq<HitText>,
    cc: [u8; 2],
    q: Seq<char>,
    limit: nat,
    all: Seq<Seq<u8>>,
)
    requires
        index.is_search(hits, cc, q, limit),
        name_key(q).len() > 0,
        limit > 0,
        lists_all(index.map, UnifiedAutocomplete::country_key(cc, name_key(q)), all),
        all.len() <= 10_000,
        forall|k: int|
            0 <= k < all.len() ==> entry_of(
                index.entries@,
                index.map.contents()[#[trigger] all[k]],
            ) is Some,
    ensures
        are_best(hits, index.map, index.entries@, index.strings@, all, limit),
{
    let p = UnifiedAutocomplete::country_key(cc, name_key(q));
    let cap = FST_WALK_CAP as nat;
    let walk = choose|walk: Seq<(Vec<u8>, u64)>| #[trigger]
        index.map.is_walk(walk, p, cap) && hits == walk_hits(
            walk,
            index.entries@,
            index.strings@,
            limit,
        );
    lemma_best_of_walk(index.map, index.entries@, index.strings@, walk, p, cap, all, limit);
}

} // verus!
