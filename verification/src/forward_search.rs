//! Forward search: which terms a query asks for, and how it is relaxed until
//! something is found.
use vstd::prelude::*;
use crate::autocomplete::{has_code, has_code_exec};
use crate::forward::{
    parse_freeform_query, rest_of, state_name, tokenize_user_input, tokens, with_role, Role,
};
use crate::ieee::rank32;
use crate::openaddresses::{code_of, code_text, parse_code};
use crate::sorting::sort_positions;
use crate::text::{
    chars_of, opt_str_view, opt_view, string_of, string_views, strip_prefix, strip_prefix_seq,
    trim_chars, trim_seq, upper_chars, upper_seq,
};

verus! {

broadcast use vstd::seq::group_seq_axioms;

pub const KIND_PLACE: u64 = 1;

pub const KIND_STREET: u64 = 2;

/// Most hits of one search.
pub const MAX_HITS: usize = 50;

// --- Queries ---
/// A structured query. What is not given does not constrain.
#[derive(Clone, Copy, Debug)]
pub struct StructuredQuery<'a> {
    /// Free-form text.
    pub q: Option<&'a str>,
    pub street: Option<&'a str>,
    pub city: Option<&'a str>,
    pub state: Option<&'a str>,
    pub country_code: Option<&'a str>,
    pub kind: Option<u64>,
    pub limit: usize,
}

impl<'a> Default for StructuredQuery<'a> {
    fn default() -> (r: StructuredQuery<'a>)
        ensures
            r.q is None,
            r.street is None,
            r.city is None,
            r.state is None,
            r.country_code is None,
            r.kind is None,
            r.limit == 0,
    {
        StructuredQuery {
            q: None,
            street: None,
            city: None,
            state: None,
            country_code: None,
            kind: None,
            limit: 0,
        }
    }
}

impl<'a> StructuredQuery<'a> {
    /// A query of free-form text alone.
    pub fn freeform(q: &'a str, kind: Option<u64>, limit: usize) -> (r: StructuredQuery<'a>)
        ensures
            r.q == Some(q),
            r.street is None,
            r.city is None,
            r.state is None,
            r.country_code is None,
            r.kind == kind,
            r.limit == limit,
    {
        StructuredQuery {
            q: Some(q),
            street: None,
            city: None,
            state: None,
            country_code: None,
            kind,
            limit,
        }
    }
}

/// A text that is not blank.
pub open spec fn present(s: Option<&str>) -> Option<Seq<char>> {
    match s {
        Some(t) => if trim_seq(t@).len() > 0 {
            Some(t@)
        } else {
            None
        },
        None => None,
    }
}

fn non_blank<'a>(s: Option<&'a str>) -> (r: Option<&'a str>)
    ensures
        opt_str_view(r) == present(s),
        r is Some ==> s is Some && r->0@ == s->0@,
{
    match s {
        Some(t) => if trim_chars(&chars_of(t)).len() > 0 {
            Some(t)
        } else {
            None
        },
        None => None,
    }
}

// --- Clauses ---
/// The fields of an indexed document that terms are looked up in.
#[derive(Clone, Copy, Debug, PartialEq, Eq, Structural)]
pub enum SearchField {
    Name,
    Suburb,
    State,
    CountryCode,
}

/// What a document has to satisfy.
pub enum Clause {
    /// The field has the term.
    Term(SearchField, String),
    /// The name, the suburb or the state has the term. A match in the name
    /// weighs more.
    NameSuburbOrState(String),
    /// The name has the term, up to one edit.
    FuzzyName(String),
    Kind(u64),
}

/// The content of a [`Clause`].
pub enum ClauseText {
    Term(SearchField, Seq<char>),
    NameSuburbOrState(Seq<char>),
    FuzzyName(Seq<char>),
    Kind(u64),
}

impl View for Clause {
    type V = ClauseText;

    open spec fn view(&self) -> ClauseText {
        match *self {
            Clause::Term(f, t) => ClauseText::Term(f, t@),
            Clause::NameSuburbOrState(t) => ClauseText::NameSuburbOrState(t@),
            Clause::FuzzyName(t) => ClauseText::FuzzyName(t@),
            Clause::Kind(k) => ClauseText::Kind(k),
        }
    }
}

pub open spec fn clause_views(v: Seq<Clause>) -> Seq<ClauseText> {
    Seq::new(v.len(), |i: int| v[i]@)
}

/// The field must have every token of the text.
pub open spec fn term_clauses(field: SearchField, s: Option<Seq<char>>) -> Seq<ClauseText> {
    match s {
        Some(t) => tokens(t).map_values(|tok: Seq<char>| ClauseText::Term(field, tok)),
        None => Seq::empty(),
    }
}

/// Every token must be found in the name, the suburb or the state.
pub open spec fn bag_clauses(toks: Seq<Seq<char>>) -> Seq<ClauseText> {
    toks.map_values(|tok: Seq<char>| ClauseText::NameSuburbOrState(tok))
}

/// The kind must be the one asked for.
pub open spec fn kind_clauses(kind: Option<u64>) -> Seq<ClauseText> {
    match kind {
        Some(k) => seq![ClauseText::Kind(k)],
        None => Seq::empty(),
    }
}

/// The state that a free-form text names.
pub open spec fn state_in(text: Seq<char>) -> Option<Seq<char>> {
    let toks = tokens(text);
    match with_role(toks, Role::State, toks.len() as int) {
        Some(t) => state_name(t),
        None => None,
    }
}

/// The tokens of a free-form text that are no house number, postcode or state.
pub open spec fn bag_in(text: Seq<char>) -> Seq<Seq<char>> {
    rest_of(tokens(text), tokens(text).len() as int)
}

/// What a query asks for. A state in the free-form text counts where no state
/// is given.
pub open spec fn clauses_of(q: StructuredQuery<'_>) -> Seq<ClauseText> {
    let country = match present(q.country_code) {
        Some(cc) => seq![ClauseText::Term(SearchField::CountryCode, upper_seq(cc))],
        None => Seq::empty(),
    };
    let free = match present(q.q) {
        Some(text) => (if present(q.state) is None {
            term_clauses(SearchField::State, state_in(text))
        } else {
            Seq::empty()
        }) + bag_clauses(bag_in(text)),
        None => Seq::empty(),
    };
    term_clauses(SearchField::Name, present(q.street)) + term_clauses(
        SearchField::Suburb,
        present(q.city),
    ) + term_clauses(SearchField::State, present(q.state)) + country + free + kind_clauses(q.kind)
}

fn push_terms(out: &mut Vec<Clause>, field: SearchField, text: Option<&str>)
    ensures
        clause_views(final(out)@) == clause_views(old(out)@) + term_clauses(
            field,
            opt_str_view(text),
        ),
{
    let ghost before = clause_views(out@);
    match text {
        None => {
            assert(before + Seq::<ClauseText>::empty() =~= before);
        },
        Some(t) => {
            let toks = tokenize_user_input(t);
            let ghost all = term_clauses(field, Some(t@));
            for i in 0..toks.len()
                invariant
                    string_views(toks@) == tokens(t@),
                    all == term_clauses(field, Some(t@)),
                    clause_views(out@) == before + all.take(i as int),
            {
                let ghost now = clause_views(out@);
                out.push(Clause::Term(field, toks[i].clone()));
                assert(string_views(toks@)[i as int] == toks@[i as int]@);
                assert(clause_views(out@) =~= now.push(all[i as int]));
                assert(all.take(i + 1) =~= all.take(i as int).push(all[i as int]));
            }
            assert(all.take(all.len() as int) =~= all);
        },
    }
}

fn push_kind(out: &mut Vec<Clause>, kind: Option<u64>)
    ensures
        clause_views(final(out)@) == clause_views(old(out)@) + kind_clauses(kind),
{
    let ghost before = clause_views(out@);
    match kind {
        Some(k) => {
            out.push(Clause::Kind(k));
            assert(clause_views(out@) =~= before + seq![ClauseText::Kind(k)]);
        },
        None => {
            assert(before + Seq::<ClauseText>::empty() =~= before);
        },
    }
}

/// What a query asks for.
pub fn search_clauses(q: &StructuredQuery<'_>) -> (r: Vec<Clause>)
    ensures
        clause_views(r@) == clauses_of(*q),
{
    let mut out: Vec<Clause> = Vec::new();
    assert(clause_views(out@) =~= Seq::<ClauseText>::empty());
    let state = non_blank(q.state);
    push_terms(&mut out, SearchField::Name, non_blank(q.street));
    push_terms(&mut out, SearchField::Suburb, non_blank(q.city));
    push_terms(&mut out, SearchField::State, state);
    let ghost structured = clause_views(out@);
    match non_blank(q.country_code) {
        Some(cc) => {
            out.push(
                Clause::Term(SearchField::CountryCode, string_of(&upper_chars(&chars_of(cc)))),
            );
            assert(clause_views(out@) =~= structured + seq![
                ClauseText::Term(SearchField::CountryCode, upper_seq(cc@)),
            ]);
        },
        None => {
            assert(clause_views(out@) =~= structured + Seq::<ClauseText>::empty());
        },
    }
    let ghost given = clause_views(out@);
    match non_blank(q.q) {
        Some(text) => {
            let parsed = parse_freeform_query(text);
            assert(opt_view(parsed.state) == state_in(text@));
            let ghost mut from_text = Seq::<ClauseText>::empty();
            if state.is_none() {
                proof {
                    from_text = term_clauses(SearchField::State, state_in(text@));
                }
                match &parsed.state {
                    Some(s) => {
                        push_terms(&mut out, SearchField::State, Some(s.as_str()));
                    },
                    None => {
                        assert(given + Seq::<ClauseText>::empty() =~= given);
                    },
                }
            } else {
                assert(given + from_text =~= given);
            }
            assert(clause_views(out@) =~= given + from_text);
            let ghost bag = bag_clauses(bag_in(text@));
            for i in 0..parsed.rest.len()
                invariant
                    string_views(parsed.rest@) == bag_in(text@),
                    bag == bag_clauses(bag_in(text@)),
                    clause_views(out@) == given + from_text + bag.take(i as int),
            {
                let ghost now = clause_views(out@);
                out.push(Clause::NameSuburbOrState(parsed.rest[i].clone()));
                assert(string_views(parsed.rest@)[i as int] == parsed.rest@[i as int]@);
                assert(clause_views(out@) =~= now.push(bag[i as int]));
                assert(bag.take(i + 1) =~= bag.take(i as int).push(bag[i as int]));
            }
            assert(bag.take(bag.len() as int) =~= bag);
            assert(clause_views(out@) =~= given + (from_text + bag));
        },
        None => {
            assert(given + Seq::<ClauseText>::empty() =~= given);
        },
    }
    push_kind(&mut out, q.kind);
    out
}

// --- Indexes ---
/// The country that a text names: two ASCII letters, with white space around
/// them.
pub open spec fn country_named(cc: Seq<char>) -> Option<Seq<char>> {
    code_of(trim_seq(cc))
}

/// Reads a country code.
pub fn parse_country_code(cc: &str) -> (r: Option<[u8; 2]>)
    ensures
        match r {
            Some(code) => country_named(cc@) == Some(code_text(code)),
            None => country_named(cc@) is None,
        },
{
    parse_code(&trim_chars(&chars_of(cc)))
}

/// Reads the country code out of the name of a directory `tantivy_<cc>`.
pub fn parse_tantivy_country_prefix(name: &str) -> (r: Option<[u8; 2]>)
    ensures
        match (r, strip_prefix_seq(name@, "tantivy_"@)) {
            (Some(code), Some(rest)) => country_named(rest) == Some(code_text(code)),
            (Some(_), None) => false,
            (None, Some(rest)) => country_named(rest) is None,
            (None, None) => true,
        },
{
    match strip_prefix(&chars_of(name), &chars_of("tantivy_")) {
        Some(rest) => parse_country_code(string_of(&rest).as_str()),
        None => None,
    }
}

/// An index to search in.
#[derive(Clone, Copy, Debug)]
pub enum IndexChoice {
    Country([u8; 2]),
    Default,
}

/// The indexes that are loaded.
pub struct ForwardIndexes {
    /// The countries with an index of their own, in lower case.
    pub countries: Vec<[u8; 2]>,
    /// Whether there is an index of everything.
    pub has_default: bool,
}

impl ForwardIndexes {
    /// Whether a country has an index of its own.
    pub open spec fn covers(&self, code: Seq<char>) -> bool {
        exists|i: int| 0 <= i < self.countries@.len() && code_text(#[trigger] self.countries@[i]) == code
    }

    /// Whether `r` is the index for a query: that of its country where there
    /// is one, and else the index of everything.
    pub open spec fn is_pick(&self, country_code: Option<&str>, r: Option<IndexChoice>) -> bool {
        let own = match country_code {
            Some(cc) => match country_named(cc@) {
                Some(code) => if self.covers(code) {
                    Some(code)
                } else {
                    None
                },
                None => None,
            },
            None => None,
        };
        match own {
            Some(code) => r matches Some(IndexChoice::Country(c)) && code_text(c) == code,
            None => if self.has_default {
                r matches Some(IndexChoice::Default)
            } else {
                r is None
            },
        }
    }

    pub fn is_empty(&self) -> (r: bool)
        ensures
            r == (self.countries@.len() == 0 && !self.has_default),
    {
        self.countries.len() == 0 && !self.has_default
    }

    /// The index for a query.
    pub fn pick(&self, country_code: Option<&str>) -> (r: Option<IndexChoice>)
        ensures
            self.is_pick(country_code, r),
    {
        match country_code {
            Some(cc) => match parse_country_code(cc) {
                Some(code) => {
                    let own = has_code_exec(self.countries.as_slice(), &code);
                    proof {
                        lemma_codes_texts(self.countries@, code);
                    }
                    if own {
                        return Some(IndexChoice::Country(code));
                    }
                },
                None => {},
            },
            None => {},
        }
        if self.has_default {
            Some(IndexChoice::Default)
        } else {
            None
        }
    }
}

proof fn lemma_codes_texts(codes: Seq<[u8; 2]>, code: [u8; 2])
    ensures
        has_code(codes, code@) <==> (exists|i: int|
            0 <= i < codes.len() && code_text(#[trigger] codes[i]) == code_text(code)),
{
    if has_code(codes, code@) {
        let i = choose|i: int| 0 <= i < codes.len() && (#[trigger] codes[i])@ == code@;
        assert(codes[i]@[0] == code@[0] && codes[i]@[1] == code@[1]);
        assert(code_text(codes[i]) =~= code_text(code));
    }
    if exists|i: int| 0 <= i < codes.len() && code_text(#[trigger] codes[i]) == code_text(code) {
        let i = choose|i: int|
            0 <= i < codes.len() && code_text(#[trigger] codes[i]) == code_text(code);
        assert(code_text(codes[i])[0] == code_text(code)[0]);
        assert(code_text(codes[i])[1] == code_text(code)[1]);
        assert(codes[i]@ =~= code@);
    }
}

// --- Attempts ---
/// The query without its first `step` constraints of country, state, city and
/// kind.
pub open spec fn relaxed(q: StructuredQuery<'_>, step: int) -> StructuredQuery<'_> {
    StructuredQuery {
        q: q.q,
        street: q.street,
        city: if step >= 3 {
            None
        } else {
            q.city
        },
        state: if step >= 2 {
            None
        } else {
            q.state
        },
        country_code: if step >= 1 {
            None
        } else {
            q.country_code
        },
        kind: if step >= 4 {
            None
        } else {
            q.kind
        },
        limit: q.limit,
    }
}

fn relax<'a>(q: &StructuredQuery<'a>, step: usize) -> (r: StructuredQuery<'a>)
    ensures
        r == relaxed(*q, step as int),
{
    StructuredQuery {
        q: q.q,
        street: q.street,
        city: if step >= 3 {
            None
        } else {
            q.city
        },
        state: if step >= 2 {
            None
        } else {
            q.state
        },
        country_code: if step >= 1 {
            None
        } else {
            q.country_code
        },
        kind: if step >= 4 {
            None
        } else {
            q.kind
        },
        limit: q.limit,
    }
}

/// The number of hits that a query is given: at least one, at most fifty.
pub open spec fn hit_limit(limit: int) -> int {
    if limit < 1 {
        1
    } else if limit > 50 {
        50
    } else {
        limit
    }
}

/// The number of hits that a query is given.
pub fn search_limit(limit: usize) -> (r: usize)
    ensures
        r == hit_limit(limit as int),
{
    if limit < 1 {
        1
    } else if limit > MAX_HITS {
        MAX_HITS
    } else {
        limit
    }
}

/// A search to try.
pub struct Attempt {
    pub index: IndexChoice,
    pub clauses: Vec<Clause>,
    /// How many documents to fetch, so that prominent ones are among them.
    pub fetch: usize,
    /// How many of them to keep.
    pub limit: usize,
}

/// Whether `a` tries what `clauses` say in the index for a country.
pub open spec fn tries(
    a: Attempt,
    indexes: ForwardIndexes,
    country_code: Option<&str>,
    clauses: Seq<ClauseText>,
    limit: usize,
) -> bool {
    &&& indexes.is_pick(country_code, Some(a.index))
    &&& clause_views(a.clauses@) == clauses
    &&& a.limit == hit_limit(limit as int)
    &&& a.fetch == 3 * a.limit
}

/// Whether step `step` of the ladder can be tried at all.
pub open spec fn can_try(indexes: ForwardIndexes, q: StructuredQuery<'_>, step: int) -> bool {
    !indexes.is_pick(relaxed(q, step).country_code, None) && clauses_of(relaxed(q, step)).len() > 0
}

/// What the last resort looks for: names that have every other token of the
/// free-form text up to one edit.
pub open spec fn fuzzy_clauses(q: StructuredQuery<'_>) -> Seq<ClauseText> {
    match present(q.q) {
        Some(text) => if bag_in(text).len() > 0 {
            bag_in(text).map_values(|tok: Seq<char>| ClauseText::FuzzyName(tok)) + kind_clauses(
                q.kind,
            )
        } else {
            Seq::empty()
        },
        None => Seq::empty(),
    }
}

/// How many of the first `n` steps of the ladder can be tried.
pub open spec fn steps_tried(indexes: ForwardIndexes, q: StructuredQuery<'_>, n: int) -> nat
    decreases n,
{
    if n <= 0 {
        0
    } else {
        steps_tried(indexes, q, n - 1) + if can_try(indexes, q, n - 1) {
            1nat
        } else {
            0
        }
    }
}

/// Whether `plan` holds the first `n` steps of the ladder, in order.
pub open spec fn is_ladder(
    plan: Seq<Attempt>,
    indexes: ForwardIndexes,
    q: StructuredQuery<'_>,
    n: int,
) -> bool {
    &&& plan.len() >= steps_tried(indexes, q, n)
    &&& forall|k: int|
        0 <= k < n && #[trigger] can_try(indexes, q, k) ==> tries(
            plan[steps_tried(indexes, q, k) as int],
            indexes,
            relaxed(q, k).country_code,
            clauses_of(relaxed(q, k)),
            q.limit,
        )
}

/// Whether `plan` is what is tried for a query: nothing where no index serves
/// it; else the query itself, then with ever fewer constraints, and as the
/// last resort with edits allowed.
pub open spec fn is_plan(
    plan: Seq<Attempt>,
    indexes: ForwardIndexes,
    q: StructuredQuery<'_>,
) -> bool {
    if indexes.is_pick(q.country_code, None) {
        plan.len() == 0
    } else {
        let n = steps_tried(indexes, q, 5);
        &&& is_ladder(plan, indexes, q, 5)
        &&& if fuzzy_clauses(q).len() > 0 {
            plan.len() == n + 1 && tries(
                plan[n as int],
                indexes,
                q.country_code,
                fuzzy_clauses(q),
                q.limit,
            )
        } else {
            plan.len() == n
        }
    }
}

fn fuzzy(q: &StructuredQuery<'_>) -> (r: Vec<Clause>)
    ensures
        clause_views(r@) == fuzzy_clauses(*q),
{
    let mut out: Vec<Clause> = Vec::new();
    match non_blank(q.q) {
        Some(text) => {
            let parsed = parse_freeform_query(text);
            let ghost bag = bag_in(text@).map_values(|tok: Seq<char>| ClauseText::FuzzyName(tok));
            if parsed.rest.len() == 0 {
                assert(string_views(parsed.rest@).len() == 0);
                assert(clause_views(out@) =~= fuzzy_clauses(*q));
                return out;
            }
            assert(clause_views(out@) =~= bag.take(0));
            for i in 0..parsed.rest.len()
                invariant
                    string_views(parsed.rest@) == bag_in(text@),
                    bag == bag_in(text@).map_values(
                        |tok: Seq<char>| ClauseText::FuzzyName(tok),
                    ),
                    clause_views(out@) == bag.take(i as int),
            {
                let ghost now = clause_views(out@);
                out.push(Clause::FuzzyName(parsed.rest[i].clone()));
                assert(string_views(parsed.rest@)[i as int] == parsed.rest@[i as int]@);
                assert(clause_views(out@) =~= now.push(bag[i as int]));
                assert(bag.take(i + 1) =~= bag.take(i as int).push(bag[i as int]));
            }
            assert(bag.take(bag.len() as int) =~= bag);
            push_kind(&mut out, q.kind);
            assert(string_views(parsed.rest@).len() > 0);
        },
        None => {
            assert(clause_views(out@) =~= Seq::<ClauseText>::empty());
        },
    }
    out
}

/// Lists what is tried for a query. The hits of the first search that finds
/// any are the answer.
pub fn search_plan(indexes: &ForwardIndexes, q: &StructuredQuery<'_>) -> (r: Vec<Attempt>)
    ensures
        is_plan(r@, *indexes, *q),
{
    let mut plan: Vec<Attempt> = Vec::new();
    let first = match indexes.pick(q.country_code) {
        Some(index) => index,
        None => return plan,
    };
    let limit: usize = search_limit(q.limit);
    let fetch: usize = limit * 3;
    for step in 0..5usize
        invariant
            limit == hit_limit(q.limit as int),
            fetch == 3 * limit,
            plan@.len() == steps_tried(*indexes, *q, step as int),
            is_ladder(plan@, *indexes, *q, step as int),
    {
        let ghost before = plan@;
        let now = relax(q, step);
        match indexes.pick(now.country_code) {
            Some(index) => {
                let clauses = search_clauses(&now);
                if clauses.len() > 0 {
                    assert(clause_views(clauses@).len() > 0);
                    plan.push(Attempt { index, clauses, fetch, limit });
                    assert(can_try(*indexes, *q, step as int));
                } else {
                    assert(clause_views(clauses@).len() == 0);
                }
            },
            None => {},
        }
        proof {
            assert forall|k: int| 0 <= k < step + 1 && #[trigger] can_try(*indexes, *q, k) implies tries(
                plan@[steps_tried(*indexes, *q, k) as int],
                *indexes,
                relaxed(*q, k).country_code,
                clauses_of(relaxed(*q, k)),
                q.limit,
            ) by {
                if k < step {
                    lemma_steps_grow(*indexes, *q, k, step as int);
                    assert(plan@[steps_tried(*indexes, *q, k) as int] == before[steps_tried(
                        *indexes,
                        *q,
                        k,
                    ) as int]);
                }
            }
        }
    }
    let ghost ladder = plan@;
    let clauses = fuzzy(q);
    if clauses.len() > 0 {
        assert(clause_views(clauses@).len() > 0);
        plan.push(Attempt { index: first, clauses, fetch, limit });
        proof {
            let n = steps_tried(*indexes, *q, 5);
            assert forall|k: int| 0 <= k < 5 && #[trigger] can_try(*indexes, *q, k) implies tries(
                plan@[steps_tried(*indexes, *q, k) as int],
                *indexes,
                relaxed(*q, k).country_code,
                clauses_of(relaxed(*q, k)),
                q.limit,
            ) by {
                lemma_steps_grow(*indexes, *q, k, 5);
                assert(plan@[steps_tried(*indexes, *q, k) as int] == ladder[steps_tried(
                    *indexes,
                    *q,
                    k,
                ) as int]);
            }
        }
    } else {
        assert(clause_views(clauses@).len() == 0);
    }
    plan
}

proof fn lemma_steps_grow(indexes: ForwardIndexes, q: StructuredQuery<'_>, k: int, n: int)
    requires
        0 <= k < n,
        can_try(indexes, q, k),
    ensures
        steps_tried(indexes, q, k) < steps_tried(indexes, q, n),
    decreases n - k,
{
    if k + 1 < n {
        lemma_steps_grow_weak(indexes, q, k + 1, n);
    }
}

proof fn lemma_steps_grow_weak(indexes: ForwardIndexes, q: StructuredQuery<'_>, k: int, n: int)
    requires
        0 <= k <= n,
    ensures
        steps_tried(indexes, q, k) <= steps_tried(indexes, q, n),
    decreases n - k,
{
    if k < n {
        lemma_steps_grow_weak(indexes, q, k, n - 1);
    }
}

/// A search under way.
pub struct SearchRun {
    pub plan: Vec<Attempt>,
    /// The search that is tried next, or the one that found something.
    pub at: usize,
    pub found: bool,
    /// The hits to answer, as positions among what that search found.
    pub answer: Vec<u64>,
    /// The scores of what each search that was tried found.
    pub replies: Ghost<Seq<Seq<u32>>>,
}

impl SearchRun {
    /// Only the last search that was tried may have found something, and the
    /// best of that is the answer.
    pub open spec fn wf(&self) -> bool {
        &&& self.at <= self.plan@.len()
        &&& forall|i: int| 0 <= i < self.at ==> (#[trigger] self.replies@[i]).len() == 0
        &&& if self.found {
            &&& self.at < self.plan@.len()
            &&& self.replies@.len() == self.at + 1
            &&& self.replies@[self.at as int].len() > 0
            &&& is_ranking(
                self.replies@[self.at as int],
                self.plan@[self.at as int].limit as nat,
                self.answer@,
            )
        } else {
            &&& self.replies@.len() == self.at
            &&& self.answer@.len() == 0
        }
    }

    /// Whether nothing is left to try.
    pub open spec fn is_done(&self) -> bool {
        self.found || self.at == self.plan@.len()
    }

    pub fn new(indexes: &ForwardIndexes, q: &StructuredQuery<'_>) -> (r: SearchRun)
        ensures
            r.wf(),
            is_plan(r.plan@, *indexes, *q),
            r.at == 0,
            !r.found,
    {
        SearchRun {
            plan: search_plan(indexes, q),
            at: 0,
            found: false,
            answer: Vec::new(),
            replies: Ghost(Seq::empty()),
        }
    }

    /// The search to try now; none where something was found or all was tried.
    pub fn current(&self) -> (r: Option<&Attempt>)
        requires
            self.wf(),
        ensures
            match r {
                Some(a) => !self.is_done() && *a == self.plan@[self.at as int],
                None => self.is_done(),
            },
    {
        if self.found || self.at >= self.plan.len() {
            None
        } else {
            Some(&self.plan[self.at])
        }
    }

    /// Takes note of the scores of what the current search found.
    pub fn report(&mut self, scores: &[u32])
        requires
            old(self).wf(),
            !old(self).is_done(),
        ensures
            final(self).wf(),
            final(self).plan == old(self).plan,
            final(self).replies@ == old(self).replies@.push(scores@),
            final(self).found == (scores@.len() > 0),
            final(self).at == (if scores@.len() > 0 {
                old(self).at as int
            } else {
                old(self).at + 1
            }),
    {
        assert(self.at < self.plan.len());
        self.replies = Ghost(self.replies@.push(scores@));
        if scores.len() > 0 {
            self.answer = rerank(scores, self.plan[self.at].limit);
            self.found = true;
        } else {
            self.at = self.at + 1;
        }
    }
}

/// Whether what was tried for the first `n` steps of the ladder found nothing.
pub open spec fn steps_failed(
    run: SearchRun,
    indexes: ForwardIndexes,
    q: StructuredQuery<'_>,
    n: int,
) -> bool {
    forall|k: int|
        0 <= k < n && #[trigger] can_try(indexes, q, k) ==> run.replies@[steps_tried(
            indexes,
            q,
            k,
        ) as int].len() == 0
}

/// Whether the search that answers is step `step` of the ladder, in the index
/// for its own country, and no step before it found anything.
pub open spec fn answered_by_step(
    run: SearchRun,
    indexes: ForwardIndexes,
    q: StructuredQuery<'_>,
    step: int,
) -> bool {
    &&& 0 <= step < 5
    &&& can_try(indexes, q, step)
    &&& run.at == steps_tried(indexes, q, step)
    &&& tries(
        run.plan@[run.at as int],
        indexes,
        relaxed(q, step).country_code,
        clauses_of(relaxed(q, step)),
        q.limit,
    )
    &&& steps_failed(run, indexes, q, step)
}

/// Whether the search that answers is the one with edits, and no step of the
/// ladder found anything.
pub open spec fn answered_by_edits(
    run: SearchRun,
    indexes: ForwardIndexes,
    q: StructuredQuery<'_>,
) -> bool {
    &&& run.at == steps_tried(indexes, q, 5)
    &&& tries(
        run.plan@[run.at as int],
        indexes,
        q.country_code,
        fuzzy_clauses(q),
        q.limit,
    )
    &&& steps_failed(run, indexes, q, 5)
}

proof fn lemma_step_at(indexes: ForwardIndexes, q: StructuredQuery<'_>, at: int, n: int)
    requires
        0 <= at < steps_tried(indexes, q, n),
    ensures
        exists|step: int|
            0 <= step < n && #[trigger] can_try(indexes, q, step) && steps_tried(indexes, q, step)
                == at,
    decreases n,
{
    if at < steps_tried(indexes, q, n - 1) {
        lemma_step_at(indexes, q, at, n - 1);
    } else {
        assert(can_try(indexes, q, n - 1));
    }
}

proof fn lemma_steps_failed(
    run: SearchRun,
    indexes: ForwardIndexes,
    q: StructuredQuery<'_>,
    n: int,
)
    requires
        run.wf(),
        steps_tried(indexes, q, n) <= run.at,
    ensures
        steps_failed(run, indexes, q, n),
{
    assert forall|k: int| 0 <= k < n && #[trigger] can_try(indexes, q, k) implies run.replies@[
    steps_tried(indexes, q, k) as int].len() == 0 by {
        lemma_steps_grow(indexes, q, k, n);
    }
}

/// A search answers with the best of what the first attempt found that found
/// anything, each made in the index for its own country; with the hits of the
/// attempt that allows edits only where no step of the ladder found any; with
/// nothing where no attempt did; and never with more hits than were asked for,
/// nor with more than fifty.
pub proof fn law_first_find_answers(
    run: SearchRun,
    indexes: ForwardIndexes,
    q: StructuredQuery<'_>,
)
    requires
        run.wf(),
        is_plan(run.plan@, indexes, q),
        run.is_done(),
    ensures
        run.answer@.len() <= hit_limit(q.limit as int),
        run.found <==> run.answer@.len() > 0,
        run.found ==> {
            &&& !indexes.is_pick(q.country_code, None)
            &&& is_ranking(
                run.replies@[run.at as int],
                hit_limit(q.limit as int) as nat,
                run.answer@,
            )
            &&& answered_by_edits(run, indexes, q) || exists|step: int| #[trigger]
                answered_by_step(run, indexes, q, step)
        },
        !run.found && !indexes.is_pick(q.country_code, None) ==> {
            &&& steps_failed(run, indexes, q, 5)
            &&& fuzzy_clauses(q).len() > 0 ==> run.replies@[steps_tried(
                indexes,
                q,
                5,
            ) as int].len() == 0
        },
{
    let n = steps_tried(indexes, q, 5);
    if run.found {
        let at = run.at as int;
        if at < n {
            lemma_step_at(indexes, q, at, 5);
            let step = choose|step: int|
                0 <= step < 5 && #[trigger] can_try(indexes, q, step) && steps_tried(
                    indexes,
                    q,
                    step,
                ) == at;
            lemma_steps_failed(run, indexes, q, step);
            assert(answered_by_step(run, indexes, q, step));
        } else {
            lemma_steps_failed(run, indexes, q, 5);
        }
    } else if !indexes.is_pick(q.country_code, None) {
        lemma_steps_failed(run, indexes, q, 5);
    }
}

/// Each step of the ladder asks for no more than the one before: its query has
/// the same texts, and every constraint it has the one before has too.
pub proof fn law_ladder_only_drops(q: StructuredQuery<'_>, step: int)
    requires
        0 <= step < 4,
    ensures
        relaxed(q, 0) == q,
        ({
            let a = relaxed(q, step);
            let b = relaxed(q, step + 1);
            &&& b.q == a.q && b.street == a.street && b.limit == a.limit
            &&& b.country_code is Some ==> b.country_code == a.country_code
            &&& b.state is Some ==> b.state == a.state
            &&& b.city is Some ==> b.city == a.city
            &&& b.kind is Some ==> b.kind == a.kind
        }),
        ({
            let b = relaxed(q, 4);
            b.country_code is None && b.state is None && b.city is None && b.kind is None
        }),
{
}

// --- Ranking ---
/// Where a score (a binary32 bit pattern) stands when scores are listed from
/// the highest down. What is no number comes last.
pub open spec fn score_place(bits: u32) -> int {
    match rank32(bits) {
        Some(r) => 0x7f80_0000 - r,
        None => 0xffff_ffff,
    }
}

/// Whether `order` lists the best of the scores: from the highest down, equal
/// ones in their order, as many as `limit` allows.
pub open spec fn is_ranking(scores: Seq<u32>, limit: nat, order: Seq<u64>) -> bool {
    &&& order.len() == (if scores.len() < limit {
        scores.len()
    } else {
        limit
    })
    &&& forall|i: int| 0 <= i < order.len() ==> (#[trigger] order[i]) < scores.len()
    &&& forall|i: int, j: int|
        0 <= i < j < order.len() ==> ranks_before(
            scores,
            #[trigger] order[i] as int,
            #[trigger] order[j] as int,
        )
    &&& forall|k: int, i: int|
        #![trigger order[i], scores[k]]
        0 <= i < order.len() && 0 <= k < scores.len() && !order.contains(k as u64) ==> ranks_before(
            scores,
            order[i] as int,
            k,
        )
}

/// Whether the score at `a` is listed before the one at `b`.
pub open spec fn ranks_before(scores: Seq<u32>, a: int, b: int) -> bool {
    score_place(scores[a]) < score_place(scores[b]) || (score_place(scores[a]) == score_place(
        scores[b],
    ) && a < b)
}

fn place_of(bits: u32) -> (r: u64)
    ensures
        r == score_place(bits),
{
    let mag: u64 = (bits % 0x8000_0000) as u64;
    if mag > 0x7f80_0000 {
        0xffff_ffff
    } else if bits >= 0x8000_0000 {
        0x7f80_0000 + mag
    } else {
        0x7f80_0000 - mag
    }
}

/// Lists the positions of the best scores.
pub fn rerank(scores: &[u32], limit: usize) -> (r: Vec<u64>)
    ensures
        is_ranking(scores@, limit as nat, r@),
{
    let mut places: Vec<u64> = Vec::new();
    for i in 0..scores.len()
        invariant
            places@.len() == i,
            forall|j: int| 0 <= j < i ==> #[trigger] places@[j] == score_place(scores@[j]),
    {
        places.push(place_of(scores[i]));
    }
    let order = sort_positions(places.as_slice());
    let n: usize = if order.len() < limit {
        order.len()
    } else {
        limit
    };
    let mut out: Vec<u64> = Vec::new();
    for i in 0..n
        invariant
            n <= order@.len(),
            out@ == order@.take(i as int),
    {
        out.push(order[i]);
        assert(out@ =~= order@.take(i + 1));
    }
    proof {
        assert forall|i: int, j: int| 0 <= i < j < order@.len() implies ranks_before(
            scores@,
            #[trigger] order@[i] as int,
            #[trigger] order@[j] as int,
        ) by {
            assert(places@[order@[i] as int] == score_place(scores@[order@[i] as int]));
            assert(places@[order@[j] as int] == score_place(scores@[order@[j] as int]));
        }
        assert forall|i: int, j: int| 0 <= i < j < out@.len() implies ranks_before(
            scores@,
            #[trigger] out@[i] as int,
            #[trigger] out@[j] as int,
        ) by {
            assert(out@[i] == order@[i] && out@[j] == order@[j]);
        }
        assert forall|i: int| 0 <= i < out@.len() implies (#[trigger] out@[i]) < scores@.len() by {
            assert(out@[i] == order@[i]);
        }
        assert forall|k: int, i: int|
            #![trigger out@[i], scores@[k]]
            0 <= i < out@.len() && 0 <= k < scores@.len() && !out@.contains(k as u64) implies ranks_before(
            scores@,
            out@[i] as int,
            k,
        ) by {
            assert(order@.contains(k as u64));
            let j = choose|j: int| 0 <= j < order@.len() && order@[j] == k as u64;
            if j < n {
                assert(out@[j] == k as u64);
            }
            assert(out@[i] == order@[i]);
            assert(ranks_before(scores@, order@[i] as int, order@[j] as int));
        }
    }
    out
}

} // verus!
