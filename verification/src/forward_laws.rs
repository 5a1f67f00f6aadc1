//! What a forward search promises: which documents a query finds, and in which
//! order.
use vstd::prelude::*;
use crate::forward::{
    is_number, rest_of, role, state_name, street_type, tokens, with_role, ParsedQuery, Role,
};
use crate::forward_search::{
    bag_clauses, bag_in, can_try, clause_views, clauses_of, fuzzy_clauses, is_plan, is_ranking,
    kind_clauses, present, ranks_before, relaxed, state_in, steps_tried, term_clauses, tries,
    Attempt, ClauseText, ForwardIndexes, IndexChoice, SearchField, StructuredQuery,
};
use crate::openaddresses::code_text;
use crate::requests::house_number_in;
use crate::text::{is_ascii_letter, lower_char, opt_view, string_views, trim_seq, upper_char};

verus! {

broadcast use vstd::seq::group_seq_axioms;

// --- What a query finds ---
/// An indexed document: the tokens of its fields, its country and its kind.
pub struct Document {
    pub name: Set<Seq<char>>,
    pub suburb: Set<Seq<char>>,
    pub state: Set<Seq<char>>,
    pub country_code: Seq<char>,
    pub kind: u64,
}

/// Whether a document has a token in its name, its suburb or its state.
pub open spec fn mentions(d: Document, token: Seq<char>) -> bool {
    d.name.contains(token) || d.suburb.contains(token) || d.state.contains(token)
}

/// Whether a document meets a clause. Clauses that allow edits are left open.
pub open spec fn meets(d: Document, c: ClauseText) -> bool {
    match c {
        ClauseText::Term(field, t) => match field {
            SearchField::Name => d.name.contains(t),
            SearchField::Suburb => d.suburb.contains(t),
            SearchField::State => d.state.contains(t),
            SearchField::CountryCode => d.country_code == t,
        },
        ClauseText::NameSuburbOrState(t) => mentions(d, t),
        ClauseText::FuzzyName(_) => true,
        ClauseText::Kind(k) => d.kind == k,
    }
}

/// Whether a document meets all clauses.
pub open spec fn is_hit(d: Document, clauses: Seq<ClauseText>) -> bool {
    forall|i: int| 0 <= i < clauses.len() ==> meets(d, #[trigger] clauses[i])
}

/// Whether a field has every token of a text that is given.
pub open spec fn has_tokens(field: Set<Seq<char>>, text: Option<&str>) -> bool {
    text matches Some(t) ==> trim_seq(t@).len() == 0 || forall|i: int|
        0 <= i < tokens(t@).len() ==> field.contains(#[trigger] tokens(t@)[i])
}

/// Whether a document fits a free-form text: every token that is no house
/// number, postcode or state stands in its name, its suburb or its state, and
/// the state that the text names, if it counts, is the state of the document.
pub open spec fn fits_text(d: Document, text: Seq<char>, state_counts: bool) -> bool {
    &&& forall|i: int|
        0 <= i < tokens(text).len() && role(tokens(text), i) == Role::Rest ==> mentions(
            d,
            #[trigger] tokens(text)[i],
        )
    &&& state_counts ==> forall|i: int, k: int|
        #![trigger tokens(text)[i], tokens(state_name(tokens(text)[i])->0)[k]]
        0 <= i < tokens(text).len() && role(tokens(text), i) == Role::State && 0 <= k < tokens(
            state_name(tokens(text)[i])->0,
        ).len() ==> d.state.contains(tokens(state_name(tokens(text)[i])->0)[k])
}

/// What it means for a document to be found by a query: its name has every
/// token of the street, its suburb every token of the city, its state every
/// token of the state; it is of the country and of the kind; and it fits the
/// free-form text, whose state counts where no state is given.
pub open spec fn is_wanted(d: Document, q: StructuredQuery<'_>) -> bool {
    &&& has_tokens(d.name, q.street)
    &&& has_tokens(d.suburb, q.city)
    &&& has_tokens(d.state, q.state)
    &&& q.country_code matches Some(cc) ==> trim_seq(cc@).len() == 0 || {
        &&& d.country_code.len() == cc@.len()
        &&& forall|i: int| 0 <= i < cc@.len() ==> d.country_code[i] == upper_char(#[trigger] cc@[i])
    }
    &&& q.kind matches Some(k) ==> d.kind == k
    &&& q.q matches Some(text) ==> trim_seq(text@).len() == 0 || fits_text(
        d,
        text@,
        q.state is None || trim_seq((q.state->0)@).len() == 0,
    )
}

proof fn lemma_hit_concat(d: Document, a: Seq<ClauseText>, b: Seq<ClauseText>)
    ensures
        is_hit(d, a + b) <==> is_hit(d, a) && is_hit(d, b),
{
    let ab = a + b;
    if is_hit(d, ab) {
        assert forall|i: int| 0 <= i < a.len() implies meets(d, #[trigger] a[i]) by {
            assert(ab[i] == a[i]);
        }
        assert forall|i: int| 0 <= i < b.len() implies meets(d, #[trigger] b[i]) by {
            assert(ab[a.len() + i] == b[i]);
        }
    }
    if is_hit(d, a) && is_hit(d, b) {
        assert forall|i: int| 0 <= i < ab.len() implies meets(d, #[trigger] ab[i]) by {
            if i < a.len() {
                assert(ab[i] == a[i]);
            } else {
                assert(ab[i] == b[i - a.len()]);
            }
        }
    }
}

proof fn lemma_hit_terms(d: Document, field: SearchField, text: Seq<char>)
    ensures
        is_hit(d, term_clauses(field, Some(text))) <==> forall|i: int|
            0 <= i < tokens(text).len() ==> meets(
                d,
                ClauseText::Term(field, #[trigger] tokens(text)[i]),
            ),
{
    let clauses = term_clauses(field, Some(text));
    assert(clauses.len() == tokens(text).len());
    assert forall|i: int| 0 <= i < clauses.len() implies #[trigger] clauses[i] == ClauseText::Term(
        field,
        tokens(text)[i],
    ) by {}
    if is_hit(d, clauses) {
        assert forall|i: int| 0 <= i < tokens(text).len() implies meets(
            d,
            ClauseText::Term(field, #[trigger] tokens(text)[i]),
        ) by {
            assert(clauses[i] == ClauseText::Term(field, tokens(text)[i]));
        }
    }
}

proof fn lemma_hit_given(d: Document, field: SearchField, set: Set<Seq<char>>, text: Option<&str>)
    requires
        field != SearchField::CountryCode,
        field == SearchField::Name ==> set == d.name,
        field == SearchField::Suburb ==> set == d.suburb,
        field == SearchField::State ==> set == d.state,
    ensures
        is_hit(d, term_clauses(field, present(text))) <==> has_tokens(set, text),
{
    if let Some(t) = text {
        if trim_seq(t@).len() > 0 {
            lemma_hit_terms(d, field, t@);
            assert forall|i: int| 0 <= i < tokens(t@).len() implies (meets(
                d,
                ClauseText::Term(field, #[trigger] tokens(t@)[i]),
            ) <==> set.contains(tokens(t@)[i])) by {}
        }
    }
}

proof fn lemma_rest(toks: Seq<Seq<char>>, n: int, d: Document)
    requires
        0 <= n <= toks.len(),
    ensures
        is_hit(d, bag_clauses(rest_of(toks, n))) <==> forall|i: int|
            0 <= i < n && role(toks, i) == Role::Rest ==> mentions(d, #[trigger] toks[i]),
    decreases n,
{
    let now = bag_clauses(rest_of(toks, n));
    if n > 0 {
        lemma_rest(toks, n - 1, d);
        let before = bag_clauses(rest_of(toks, n - 1));
        if role(toks, n - 1) == Role::Rest {
            let one = seq![ClauseText::NameSuburbOrState(toks[n - 1])];
            assert(now =~= before + one);
            lemma_hit_concat(d, before, one);
            assert(is_hit(d, one) <==> mentions(d, toks[n - 1])) by {
                if is_hit(d, one) {
                    assert(meets(d, one[0]));
                }
            }
        } else {
            assert(now == before);
        }
    }
}

proof fn lemma_one_state(toks: Seq<Seq<char>>, i: int, j: int)
    requires
        0 <= i < toks.len(),
        0 <= j < toks.len(),
        role(toks, i) == Role::State,
        role(toks, j) == Role::State,
    ensures
        i == j,
        state_name(toks[i]) is Some,
{
    if i < j {
        assert(state_name(toks[i]) is None);
    } else if j < i {
        assert(state_name(toks[j]) is None);
    }
}

proof fn lemma_with_role(toks: Seq<Seq<char>>, what: Role, n: int)
    requires
        0 <= n <= toks.len(),
    ensures
        match with_role(toks, what, n) {
            Some(t) => exists|i: int|
                0 <= i < n && role(toks, i) == what && #[trigger] toks[i] == t,
            None => forall|i: int| 0 <= i < n ==> #[trigger] role(toks, i) != what,
        },
    decreases n,
{
    if n > 0 {
        lemma_with_role(toks, what, n - 1);
        if with_role(toks, what, n - 1) is None && role(toks, n - 1) == what {
            assert(toks[n - 1] == toks[n - 1]);
        }
    }
}

proof fn lemma_text_state(d: Document, text: Seq<char>)
    ensures
        is_hit(d, term_clauses(SearchField::State, state_in(text))) <==> forall|i: int, k: int|
            #![trigger tokens(text)[i], tokens(state_name(tokens(text)[i])->0)[k]]
            0 <= i < tokens(text).len() && role(tokens(text), i) == Role::State && 0 <= k < tokens(
                state_name(tokens(text)[i])->0,
            ).len() ==> d.state.contains(tokens(state_name(tokens(text)[i])->0)[k]),
{
    let toks = tokens(text);
    lemma_with_role(toks, Role::State, toks.len() as int);
    match with_role(toks, Role::State, toks.len() as int) {
        Some(t) => {
            let at = choose|i: int|
                0 <= i < toks.len() && role(toks, i) == Role::State && #[trigger] toks[i] == t;
            lemma_one_state(toks, at, at);
            let full = state_name(t)->0;
            lemma_hit_terms(d, SearchField::State, full);
            assert forall|i: int| 0 <= i < toks.len() && #[trigger] role(toks, i)
                == Role::State implies i == at by {
                lemma_one_state(toks, i, at);
            }
            if is_hit(d, term_clauses(SearchField::State, state_in(text))) {
                assert forall|i: int, k: int|
                    #![trigger tokens(text)[i], tokens(state_name(tokens(text)[i])->0)[k]]
                    0 <= i < toks.len() && role(toks, i) == Role::State && 0 <= k < tokens(
                        state_name(toks[i])->0,
                    ).len() implies d.state.contains(tokens(state_name(toks[i])->0)[k]) by {
                    assert(i == at);
                    assert(meets(d, ClauseText::Term(SearchField::State, tokens(full)[k])));
                }
            } else {
                let k = choose|k: int|
                    0 <= k < tokens(full).len() && !meets(
                        d,
                        ClauseText::Term(SearchField::State, #[trigger] tokens(full)[k]),
                    );
                assert(toks[at] == t);
                assert(!d.state.contains(tokens(state_name(tokens(text)[at])->0)[k]));
            }
        },
        None => {
            assert(state_in(text) is None);
        },
    }
}

/// A query asks for exactly the documents that are wanted: what it is given as a
/// street is looked for in names, what it is given as a city in suburbs, and so
/// on, and nothing else is asked of a document.
pub proof fn law_query_finds_what_is_wanted(d: Document, q: StructuredQuery<'_>)
    ensures
        is_hit(d, clauses_of(q)) <==> is_wanted(d, q),
{
    let street = term_clauses(SearchField::Name, present(q.street));
    let city = term_clauses(SearchField::Suburb, present(q.city));
    let state = term_clauses(SearchField::State, present(q.state));
    let country = match present(q.country_code) {
        Some(cc) => seq![ClauseText::Term(SearchField::CountryCode, crate::text::upper_seq(cc))],
        None => Seq::empty(),
    };
    let named = match present(q.q) {
        Some(text) => if present(q.state) is None {
            term_clauses(SearchField::State, state_in(text))
        } else {
            Seq::empty()
        },
        None => Seq::empty(),
    };
    let bag = match present(q.q) {
        Some(text) => bag_clauses(bag_in(text)),
        None => Seq::empty(),
    };
    let kind = kind_clauses(q.kind);
    assert(clauses_of(q) =~= street + city + state + country + (named + bag) + kind);
    lemma_hit_concat(d, street + city + state + country + (named + bag), kind);
    lemma_hit_concat(d, street + city + state + country, named + bag);
    lemma_hit_concat(d, named, bag);
    lemma_hit_concat(d, street + city + state, country);
    lemma_hit_concat(d, street + city, state);
    lemma_hit_concat(d, street, city);
    lemma_hit_given(d, SearchField::Name, d.name, q.street);
    lemma_hit_given(d, SearchField::Suburb, d.suburb, q.city);
    lemma_hit_given(d, SearchField::State, d.state, q.state);
    if let Some(text) = present(q.q) {
        lemma_rest(tokens(text), tokens(text).len() as int, d);
        lemma_text_state(d, text);
    }
    assert(is_hit(d, country) <==> (q.country_code matches Some(cc) ==> trim_seq(cc@).len() == 0 || {
        &&& d.country_code.len() == cc@.len()
        &&& forall|i: int| 0 <= i < cc@.len() ==> d.country_code[i] == upper_char(#[trigger] cc@[i])
    })) by {
        if let Some(cc) = present(q.country_code) {
            let up = crate::text::upper_seq(cc);
            assert(up.len() == cc.len());
            if is_hit(d, country) {
                assert(meets(d, country[0]));
                assert(d.country_code == up);
                assert forall|i: int| 0 <= i < cc.len() implies d.country_code[i] == upper_char(
                    #[trigger] cc[i],
                ) by {
                    assert(up[i] == upper_char(cc[i]));
                }
            } else if d.country_code.len() == cc.len() && forall|i: int|
                0 <= i < cc.len() ==> d.country_code[i] == upper_char(#[trigger] cc[i]) {
                assert(d.country_code =~= up);
            }
        }
    }
    assert(is_hit(d, kind) <==> (q.kind matches Some(k) ==> d.kind == k)) by {
        if q.kind is Some && is_hit(d, kind) {
            assert(meets(d, kind[0]));
        }
    }
}

/// The last resort asks that every token of the text that is no house number,
/// postcode or state is in the name, up to an edit, and that the kind is right;
/// it asks nothing else.
pub proof fn law_last_resort_allows_edits(q: StructuredQuery<'_>, text: &str)
    requires
        q.q == Some(text),
        trim_seq(text@).len() > 0,
    ensures
        forall|i: int|
            0 <= i < fuzzy_clauses(q).len() ==> match #[trigger] fuzzy_clauses(q)[i] {
                ClauseText::FuzzyName(t) => exists|j: int|
                    0 <= j < tokens(text@).len() && role(tokens(text@), j) == Role::Rest
                        && #[trigger] tokens(text@)[j] == t,
                ClauseText::Kind(k) => q.kind == Some(k),
                _ => false,
            },
        forall|j: int|
            0 <= j < tokens(text@).len() && role(tokens(text@), j) == Role::Rest
                ==> fuzzy_clauses(q).contains(
                ClauseText::FuzzyName(#[trigger] tokens(text@)[j]),
            ),
        fuzzy_clauses(q).len() > 0 && q.kind is Some ==> fuzzy_clauses(q).contains(
            ClauseText::Kind(q.kind->0),
        ),
{
    let toks = tokens(text@);
    let bag = bag_in(text@);
    let n = toks.len() as int;
    lemma_rest_members(toks, n);
    let names = bag.map_values(|tok: Seq<char>| ClauseText::FuzzyName(tok));
    let all = fuzzy_clauses(q);
    assert forall|j: int| 0 <= j < toks.len() && role(toks, j) == Role::Rest implies all.contains(
        ClauseText::FuzzyName(#[trigger] toks[j]),
    ) by {
        assert(bag.contains(toks[j]));
        let k = choose|k: int| 0 <= k < bag.len() && bag[k] == toks[j];
        assert(all[k] == names[k]);
        assert(all[k] == ClauseText::FuzzyName(toks[j]));
    }
    assert forall|i: int| 0 <= i < all.len() implies match #[trigger] all[i] {
        ClauseText::FuzzyName(t) => exists|j: int|
            0 <= j < toks.len() && role(toks, j) == Role::Rest && #[trigger] toks[j] == t,
        ClauseText::Kind(k) => q.kind == Some(k),
        _ => false,
    } by {
        if i < names.len() {
            assert(all[i] == names[i]);
            assert(all[i] == ClauseText::FuzzyName(bag[i]));
            assert(bag.contains(bag[i]));
        } else {
            assert(all[i] == kind_clauses(q.kind)[i - names.len()]);
        }
    }
    if all.len() > 0 && q.kind is Some {
        assert(all[names.len() as int] == ClauseText::Kind(q.kind->0));
    }
}

proof fn lemma_rest_members(toks: Seq<Seq<char>>, n: int)
    requires
        0 <= n <= toks.len(),
    ensures
        forall|t: Seq<char>| #[trigger]
            rest_of(toks, n).contains(t) <==> exists|j: int|
                0 <= j < n && role(toks, j) == Role::Rest && #[trigger] toks[j] == t,
    decreases n,
{
    if n > 0 {
        lemma_rest_members(toks, n - 1);
        let before = rest_of(toks, n - 1);
        let now = rest_of(toks, n);
        assert forall|t: Seq<char>| #[trigger] now.contains(t) <==> exists|j: int|
            0 <= j < n && role(toks, j) == Role::Rest && #[trigger] toks[j] == t by {
            assert(before.contains(t) <==> exists|j: int|
                0 <= j < n - 1 && role(toks, j) == Role::Rest && #[trigger] toks[j] == t);
            if before.contains(t) {
                let k = choose|k: int| 0 <= k < before.len() && before[k] == t;
                assert(now[k] == t);
            }
            if role(toks, n - 1) == Role::Rest && t == toks[n - 1] {
                assert(now[now.len() - 1] == t);
            }
            if now.contains(t) {
                let k = choose|k: int| 0 <= k < now.len() && now[k] == t;
                if k < before.len() {
                    assert(before[k] == t);
                } else {
                    assert(toks[n - 1] == t);
                }
            }
        }
    }
}

/// A search gives up its constraints one after the other: first the country,
/// then the state, then the city, and the kind at last. It never gives up the
/// text or the street.
pub proof fn law_constraints_go_in_order(q: StructuredQuery<'_>, step: int)
    requires
        0 <= step <= 4,
    ensures
        ({
            let r = relaxed(q, step);
            &&& r.q == q.q
            &&& r.street == q.street
            &&& r.limit == q.limit
            &&& r.country_code == (if step == 0 {
                q.country_code
            } else {
                None
            })
            &&& r.state == (if step <= 1 {
                q.state
            } else {
                None
            })
            &&& r.city == (if step <= 2 {
                q.city
            } else {
                None
            })
            &&& r.kind == (if step <= 3 {
                q.kind
            } else {
                None
            })
        }),
{
}

/// A step of the search still finds what the step before it would have found,
/// but where the state is dropped from a query with free-form text: the state of
/// the text may count then.
pub proof fn law_steps_only_widen(d: Document, q: StructuredQuery<'_>, step: int)
    requires
        0 <= step < 4,
        q.q is None || step != 1,
        is_hit(d, clauses_of(relaxed(q, step))),
    ensures
        is_hit(d, clauses_of(relaxed(q, step + 1))),
{
    law_query_finds_what_is_wanted(d, relaxed(q, step));
    law_query_finds_what_is_wanted(d, relaxed(q, step + 1));
}

/// An attempt is made in the index of the country that a query names, where
/// there is one, and else in the index of everything; it keeps as many hits as
/// were asked for, but at least one and at most fifty, and fetches three times
/// as many.
pub proof fn law_attempt_fits_the_query(
    a: Attempt,
    indexes: ForwardIndexes,
    country_code: Option<&str>,
    clauses: Seq<ClauseText>,
    limit: usize,
)
    requires
        tries(a, indexes, country_code, clauses, limit),
    ensures
        1 <= a.limit <= 50,
        1 <= limit <= 50 ==> a.limit == limit,
        limit > 50 ==> a.limit == 50,
        a.fetch == a.limit + a.limit + a.limit,
        match a.index {
            IndexChoice::Country(c) => {
                &&& country_code matches Some(cc)
                &&& trim_seq(cc@).len() == 2
                &&& c[0] as char == lower_char(trim_seq(cc@)[0])
                &&& c[1] as char == lower_char(trim_seq(cc@)[1])
                &&& exists|i: int|
                    0 <= i < indexes.countries@.len() && (#[trigger] indexes.countries@[i])@ == c@
            },
            IndexChoice::Default => {
                &&& indexes.has_default
                &&& country_code matches Some(cc) ==> forall|i: int|
                    0 <= i < indexes.countries@.len() ==> !(trim_seq(cc@).len() == 2
                        && is_ascii_letter(trim_seq(cc@)[0]) && is_ascii_letter(trim_seq(cc@)[1])
                        && (#[trigger] indexes.countries@[i])[0] as char == lower_char(
                        trim_seq(cc@)[0],
                    ) && indexes.countries@[i][1] as char == lower_char(trim_seq(cc@)[1]))
            },
        },
{
    if let Some(cc) = country_code {
        let t = trim_seq(cc@);
        if t.len() == 2 && is_ascii_letter(t[0]) && is_ascii_letter(t[1]) {
            let code = crate::text::lower_seq(t);
            assert(code[0] == lower_char(t[0]) && code[1] == lower_char(t[1]));
            match a.index {
                IndexChoice::Country(c) => {
                    assert(code_text(c)[0] == code[0] && code_text(c)[1] == code[1]);
                    let i = choose|i: int|
                        0 <= i < indexes.countries@.len() && code_text(
                            #[trigger] indexes.countries@[i],
                        ) == code;
                    let o = indexes.countries@[i];
                    assert(code_text(o)[0] == code[0] && code_text(o)[1] == code[1]);
                    assert(o@ =~= c@);
                },
                IndexChoice::Default => {
                    assert forall|i: int| 0 <= i < indexes.countries@.len() implies !((
                    #[trigger] indexes.countries@[i])[0] as char == lower_char(t[0])
                        && indexes.countries@[i][1] as char == lower_char(t[1])) by {
                        if indexes.countries@[i][0] as char == lower_char(t[0])
                            && indexes.countries@[i][1] as char == lower_char(t[1]) {
                            assert(code_text(indexes.countries@[i]) =~= code);
                        }
                    }
                },
            }
        }
    }
}

/// The answer lists the highest scores first, and nothing that is left out has
/// a higher score than what is listed.
pub proof fn law_best_scores_come_first(scores: Seq<u32>, limit: nat, order: Seq<u64>)
    requires
        is_ranking(scores, limit, order),
        forall|i: int| 0 <= i < scores.len() ==> (#[trigger] scores[i]) < 0x7f80_0000,
        scores.len() < u64::MAX,
    ensures
        order.len() == if limit < scores.len() {
            limit
        } else {
            scores.len()
        },
        forall|i: int, j: int|
            0 <= i < j < order.len() ==> scores[(#[trigger] order[i]) as int] >= scores[(
            #[trigger] order[j]) as int] && order[i] != order[j],
        forall|i: int, k: int|
            #![trigger order[i], scores[k]]
            0 <= i < order.len() && 0 <= k < scores.len() && !order.contains(k as u64)
                ==> scores[order[i] as int] >= scores[k],
{
    assert forall|i: int, j: int| 0 <= i < j < order.len() implies scores[(#[trigger] order[i]) as int]
        >= scores[(#[trigger] order[j]) as int] && order[i] != order[j] by {
        assert(ranks_before(scores, order[i] as int, order[j] as int));
        assert(scores[order[i] as int] < 0x7f80_0000);
        assert(scores[order[j] as int] < 0x7f80_0000);
    }
    assert forall|i: int, k: int|
        #![trigger order[i], scores[k]]
        0 <= i < order.len() && 0 <= k < scores.len() && !order.contains(k as u64) implies scores[order[i] as int]
        >= scores[k] by {
        assert(ranks_before(scores, order[i] as int, k));
        assert(scores[order[i] as int] < 0x7f80_0000);
        assert(scores[k] < 0x7f80_0000);
    }
}

// --- Free-form text ---
/// What the parts of a free-form text are. A number that comes first is the
/// house number. Of two tokens or more, a last one of four digits is the
/// postcode. Where the first is no number, a last one of up to three or of five
/// digits is the house number. The state is that of the first token that stands
/// for one; numbers are never states. All other tokens, and only those, stay,
/// in their order.
pub proof fn law_parts_of_a_text(p: ParsedQuery, toks: Seq<Seq<char>>)
    requires
        p.is_parse_of(toks),
        toks.len() > 0,
    ensures
        is_number(toks[0]) ==> opt_view(p.house_number) == Some(toks[0]),
        toks.len() > 1 && is_number(toks.last()) && toks.last().len() == 4 ==> opt_view(p.postcode)
            == Some(toks.last()),
        !is_number(toks[0]) && is_number(toks.last()) && toks.last().len() != 4 && toks.last().len()
            <= 5 ==> opt_view(p.house_number) == Some(toks.last()),
        opt_view(p.postcode) matches Some(c) ==> c == toks.last() && c.len() == 4 && is_number(c),
        opt_view(p.house_number) matches Some(c) ==> is_number(c) && (c == toks[0] || c
            == toks.last()),
        forall|i: int|
            0 <= i < toks.len() && !is_number(toks[i]) && state_name(#[trigger] toks[i]) is None
                ==> string_views(p.rest@).contains(toks[i]),
        forall|t: Seq<char>| #[trigger]
            string_views(p.rest@).contains(t) ==> toks.contains(t),
        forall|i: int|
            0 <= i < toks.len() && !is_number(toks[i]) && state_name(#[trigger] toks[i]) is Some && (
            forall|j: int| 0 <= j < i ==> state_name(#[trigger] toks[j]) is None) ==> opt_view(
                p.state,
            ) == state_name(toks[i]),
        (forall|i: int| 0 <= i < toks.len() ==> state_name(#[trigger] toks[i]) is None)
            ==> p.state is None,
{
    let n = toks.len() as int;
    lemma_with_role(toks, Role::HouseNumber, n);
    lemma_with_role(toks, Role::Postcode, n);
    lemma_with_role(toks, Role::State, n);
    lemma_rest_members(toks, n);
    let rest = rest_of(toks, n);
    assert(toks.last() == toks[n - 1]);
    assert(role(toks, 0) == role(toks, 0) && role(toks, n - 1) == role(toks, n - 1));
    assert forall|i: int| 0 <= i < toks.len() && !is_number(toks[i]) && state_name(
        #[trigger] toks[i],
    ) is None implies rest.contains(toks[i]) by {
        assert(role(toks, i) == Role::Rest);
    }
    assert forall|t: Seq<char>| #[trigger] rest.contains(t) implies toks.contains(t) by {}
    if let Some(t) = with_role(toks, Role::HouseNumber, n) {
        let at = choose|i: int|
            0 <= i < n && role(toks, i) == Role::HouseNumber && #[trigger] toks[i] == t;
        assert(is_number(toks[0]) ==> at == 0);
    } else {
        assert(role(toks, 0) != Role::HouseNumber);
    }
    if let Some(t) = with_role(toks, Role::State, n) {
        let at = choose|i: int|
            0 <= i < n && role(toks, i) == Role::State && #[trigger] toks[i] == t;
        assert forall|i: int|
            0 <= i < toks.len() && !is_number(toks[i]) && state_name(#[trigger] toks[i]) is Some && (
            forall|j: int| 0 <= j < i ==> state_name(#[trigger] toks[j]) is None) implies opt_view(
            p.state,
        ) == state_name(toks[i]) by {
            assert(role(toks, i) == Role::State);
            lemma_one_state(toks, i, at);
        }
    } else {
        assert forall|i: int|
            0 <= i < toks.len() && !is_number(toks[i]) && state_name(#[trigger] toks[i]) is Some && (
            forall|j: int| 0 <= j < i ==> state_name(#[trigger] toks[j]) is None) implies false by {
            assert(role(toks, i) == Role::State);
        }
    }
}

// --- What is tried ---
/// Where an index serves a query and the query asks for something, the query
/// itself is tried first; as the last resort edits are allowed, where there is
/// free text to find. Without an index nothing is tried.
pub proof fn law_query_itself_is_tried_first(
    plan: Seq<Attempt>,
    indexes: ForwardIndexes,
    q: StructuredQuery<'_>,
)
    requires
        is_plan(plan, indexes, q),
    ensures
        indexes.is_pick(q.country_code, None) ==> plan.len() == 0,
        !indexes.is_pick(q.country_code, None) && clauses_of(q).len() > 0 ==> {
            &&& plan.len() > 0
            &&& clause_views(plan[0].clauses@) == clauses_of(q)
            &&& indexes.is_pick(q.country_code, Some(plan[0].index))
        },
        !indexes.is_pick(q.country_code, None) && fuzzy_clauses(q).len() > 0 ==> {
            &&& plan.len() > 0
            &&& clause_views(plan.last().clauses@) == fuzzy_clauses(q)
            &&& indexes.is_pick(q.country_code, Some(plan.last().index))
        },
        plan.len() <= 6,
{
    assert(relaxed(q, 0) == q);
    assert(steps_tried(indexes, q, 0) == 0);
    reveal_with_fuel(steps_tried, 6);
    if !indexes.is_pick(q.country_code, None) && clauses_of(q).len() > 0 {
        assert(can_try(indexes, q, 0));
    }
}

/// A word of lower-case letters and digits is one token: itself, or its full form
/// where it abbreviates a street type.
pub proof fn law_plain_word_is_a_token(w: Seq<char>)
    requires
        w.len() > 0,
        forall|i: int| 0 <= i < w.len() ==> 'a' <= #[trigger] w[i] <= 'z' || '0' <= w[i] <= '9',
    ensures
        tokens(w) == seq![
            match street_type(w) {
                Some(full) => full,
                None => w,
            },
        ],
{
    crate::fold::lemma_plain_word(w);
    let runs = seq![w];
    assert(runs.drop_last() =~= Seq::<Seq<char>>::empty());
    assert(crate::text::nonempty(runs.drop_last()) =~= Seq::<Seq<char>>::empty());
    assert(crate::text::nonempty(runs) =~= runs);
    assert(crate::text::lower_seq(w) =~= w) by {
        assert forall|i: int| 0 <= i < w.len() implies crate::text::lower_seq(w)[i] == w[i] by {
            assert('a' <= w[i] <= 'z' || '0' <= w[i] <= '9');
        }
    }
    assert(tokens(w) =~= seq![crate::forward::token_of(w)]);
}

/// The house number of a text is the number that it begins with, or else a short
/// number that it ends with.
pub proof fn law_text_begins_or_ends_with_its_number(text: Seq<char>)
    requires
        tokens(text).len() > 0,
    ensures
        ({
            let toks = tokens(text);
            let found = house_number_in(Some(text));
            &&& is_number(toks[0]) ==> found == Some(toks[0])
            &&& !is_number(toks[0]) && is_number(toks.last()) && toks.last().len() <= 3 ==> found
                == Some(toks.last())
            &&& !is_number(toks[0]) && !is_number(toks.last()) ==> found is None
        }),
        house_number_in(None) is None,
{
    let toks = tokens(text);
    let n = toks.len() as int;
    lemma_with_role(toks, Role::HouseNumber, n);
    assert(toks.last() == toks[n - 1]);
    assert(role(toks, 0) == role(toks, 0) && role(toks, n - 1) == role(toks, n - 1));
    if let Some(t) = with_role(toks, Role::HouseNumber, n) {
        let at = choose|i: int|
            0 <= i < n && role(toks, i) == Role::HouseNumber && #[trigger] toks[i] == t;
        assert(is_number(toks[0]) ==> at == 0);
        assert(at == 0 || at == n - 1);
        assert(is_number(toks[at]));
    } else {
        assert(role(toks, 0) != Role::HouseNumber);
        assert(role(toks, n - 1) != Role::HouseNumber);
    }
}

} // verus!
