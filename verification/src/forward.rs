//! Free-form search text: its tokens, and what they stand for.
use vstd::prelude::*;
use crate::fold::{
    alnum_runs, fold_char, fold_chars, fold_seq, lemma_fold_case, lemma_fold_concat,
    lemma_nonempty_case, lemma_nonempty_concat, lemma_plain_word, lemma_split_case,
    lemma_split_concat, non_alnum, same_but_case,
};
use crate::query::state_abbreviation;
use crate::text::{
    chars_are, chars_of, is_ascii_digit, is_ascii_lower, is_white_space, join, join_chars,
    lower_char, lower_chars, lower_seq, nonempty, opt_view, space_char, split_where, string_of,
    string_views, sub_chars, views, words, words_of,
};
use crate::unicode::is_alnum;

verus! {

broadcast use vstd::seq::group_seq_axioms;

// --- Street types ---
/// The full form of the abbreviation of a street type. `st` is none: it may
/// be a street or a saint.
pub open spec fn street_type(w: Seq<char>) -> Option<Seq<char>> {
    if w == "hwy"@ {
        Some("highway"@)
    } else if w == "pde"@ {
        Some("parade"@)
    } else if w == "tce"@ || w == "ter"@ {
        Some("terrace"@)
    } else if w == "cres"@ {
        Some("crescent"@)
    } else if w == "blvd"@ || w == "blv"@ || w == "bvd"@ {
        Some("boulevard"@)
    } else if w == "ln"@ {
        Some("lane"@)
    } else if w == "ave"@ || w == "av"@ {
        Some("avenue"@)
    } else if w == "rd"@ {
        Some("road"@)
    } else if w == "dr"@ {
        Some("drive"@)
    } else if w == "ct"@ {
        Some("court"@)
    } else if w == "cl"@ {
        Some("close"@)
    } else if w == "pl"@ {
        Some("place"@)
    } else {
        None
    }
}

/// A token with an abbreviated street type in full.
pub open spec fn full_form(w: Seq<char>) -> Seq<char> {
    match street_type(w) {
        Some(full) => full,
        None => w,
    }
}

/// The full form of the abbreviation of a street type.
fn street_type_of(w: &[char]) -> (r: Option<&'static str>)
    ensures
        match r {
            Some(full) => street_type(w@) == Some(full@),
            None => street_type(w@) is None,
        },
{
    if chars_are(w, "hwy") {
        Some("highway")
    } else if chars_are(w, "pde") {
        Some("parade")
    } else if chars_are(w, "tce") || chars_are(w, "ter") {
        Some("terrace")
    } else if chars_are(w, "cres") {
        Some("crescent")
    } else if chars_are(w, "blvd") || chars_are(w, "blv") || chars_are(w, "bvd") {
        Some("boulevard")
    } else if chars_are(w, "ln") {
        Some("lane")
    } else if chars_are(w, "ave") || chars_are(w, "av") {
        Some("avenue")
    } else if chars_are(w, "rd") {
        Some("road")
    } else if chars_are(w, "dr") {
        Some("drive")
    } else if chars_are(w, "ct") {
        Some("court")
    } else if chars_are(w, "cl") {
        Some("close")
    } else if chars_are(w, "pl") {
        Some("place")
    } else {
        None
    }
}

/// A token with an abbreviated street type in full.
pub fn canonicalise_token(token: &[char]) -> (r: Vec<char>)
    ensures
        r@ == full_form(token@),
{
    match street_type_of(token) {
        Some(full) => chars_of(full),
        None => {
            let r = sub_chars(token, 0, token.len());
            assert(r@ =~= token@);
            r
        },
    }
}

/// The token that a run of letters and digits makes.
pub open spec fn token_of(run: Seq<char>) -> Seq<char> {
    full_form(lower_seq(run))
}

pub open spec fn to_token() -> spec_fn(Seq<char>) -> Seq<char> {
    |run: Seq<char>| token_of(run)
}

/// The tokens of a text: its runs of letters and digits without diacritics, in
/// lower case, with street types in full.
pub open spec fn tokens(s: Seq<char>) -> Seq<Seq<char>> {
    nonempty(split_where(fold_seq(s), non_alnum())).map_values(to_token())
}

/// Splits what a user typed into tokens.
pub fn tokenize_user_input(s: &str) -> (r: Vec<String>)
    ensures
        string_views(r@) == tokens(s@),
{
    let runs = alnum_runs(&fold_chars(&chars_of(s)));
    let mut out: Vec<String> = Vec::new();
    for i in 0..runs.len()
        invariant
            out@.len() == i,
            forall|j: int| 0 <= j < i ==> (#[trigger] out@[j])@ == token_of(runs@[j]@),
    {
        out.push(string_of(&canonicalise_token(&lower_chars(&runs[i]))));
    }
    assert(string_views(out@) =~= tokens(s@)) by {
        let w = nonempty(split_where(fold_seq(s@), non_alnum()));
        assert(views(runs@) == w);
        assert forall|j: int| 0 <= j < out@.len() implies string_views(out@)[j] == tokens(s@)[j] by {
            assert(runs@[j]@ == w[j]);
        }
    }
    out
}

// --- Phrases ---
/// A word without the dots at its end.
pub open spec fn without_dots(w: Seq<char>) -> Seq<char>
    decreases w.len(),
{
    if w.len() > 0 && w.last() == '.' {
        without_dots(w.drop_last())
    } else {
        w
    }
}

/// A word of an indexed name: an abbreviated street type in full, any other
/// word as it is. Case, diacritics and dots at the end do not count.
pub open spec fn indexed_word(w: Seq<char>) -> Seq<char> {
    match street_type(lower_seq(fold_seq(without_dots(w)))) {
        Some(full) => full,
        None => w,
    }
}

pub open spec fn to_indexed() -> spec_fn(Seq<char>) -> Seq<char> {
    |w: Seq<char>| indexed_word(w)
}

/// A name as it is indexed: its words with single spaces between them, and
/// street types in full.
pub open spec fn indexed_name(s: Seq<char>) -> Seq<char> {
    join(words(s).map_values(to_indexed()), seq![' '])
}

fn trim_dots(w: &[char]) -> (r: Vec<char>)
    ensures
        r@ == without_dots(w@),
{
    let mut n: usize = w.len();
    assert(w@.take(n as int) =~= w@);
    while n > 0 && w[n - 1] == '.'
        invariant
            n <= w@.len(),
            without_dots(w@.take(n as int)) == without_dots(w@),
        decreases n,
    {
        assert(w@.take(n as int).drop_last() =~= w@.take(n - 1));
        n = n - 1;
    }
    let r = sub_chars(w, 0, n);
    assert(r@ =~= w@.take(n as int));
    r
}

/// Writes a name with its street types in full.
pub fn canonicalise_phrase(s: &str) -> (r: String)
    ensures
        r@ == indexed_name(s@),
{
    let list = words_of(&chars_of(s));
    let ghost given = words(s@);
    let mut out: Vec<Vec<char>> = Vec::new();
    for i in 0..list.len()
        invariant
            given == views(list@),
            given == words(s@),
            views(out@) == given.map_values(to_indexed()).take(i as int),
    {
        let word = list[i].as_slice();
        assert(given[i as int] == word@);
        let key = lower_chars(&fold_chars(&trim_dots(word)));
        let ghost before = views(out@);
        match street_type_of(&key) {
            Some(full) => {
                out.push(chars_of(full));
            },
            None => {
                let copy = sub_chars(word, 0, word.len());
                assert(copy@ =~= word@);
                out.push(copy);
            },
        }
        assert(views(out@) =~= before.push(indexed_word(word@)));
        assert(views(out@) =~= given.map_values(to_indexed()).take(i + 1));
    }
    assert(given.map_values(to_indexed()).take(given.len() as int) =~= given.map_values(
        to_indexed(),
    ));
    string_of(&join_chars(&out, ' '))
}

// --- Free-form queries ---
/// The state that a token stands for. `new` stands for the state that begins
/// with it.
pub open spec fn state_name(tok: Seq<char>) -> Option<Seq<char>> {
    let t = lower_seq(tok);
    if t == "nsw"@ || t == "new"@ {
        Some("New South Wales"@)
    } else if t == "vic"@ || t == "victoria"@ {
        Some("Victoria"@)
    } else if t == "qld"@ || t == "queensland"@ {
        Some("Queensland"@)
    } else if t == "wa"@ {
        Some("Western Australia"@)
    } else if t == "sa"@ {
        Some("South Australia"@)
    } else if t == "tas"@ || t == "tasmania"@ {
        Some("Tasmania"@)
    } else if t == "nt"@ {
        Some("Northern Territory"@)
    } else if t == "act"@ {
        Some("Australian Capital Territory"@)
    } else {
        None
    }
}

/// The state that a token stands for.
pub fn canonicalise_state(token: &str) -> (r: Option<&'static str>)
    ensures
        match r {
            Some(full) => state_name(token@) == Some(full@),
            None => state_name(token@) is None,
        },
{
    let t = lower_chars(&chars_of(token));
    if chars_are(&t, "nsw") || chars_are(&t, "new") {
        Some("New South Wales")
    } else if chars_are(&t, "vic") || chars_are(&t, "victoria") {
        Some("Victoria")
    } else if chars_are(&t, "qld") || chars_are(&t, "queensland") {
        Some("Queensland")
    } else if chars_are(&t, "wa") {
        Some("Western Australia")
    } else if chars_are(&t, "sa") {
        Some("South Australia")
    } else if chars_are(&t, "tas") || chars_are(&t, "tasmania") {
        Some("Tasmania")
    } else if chars_are(&t, "nt") {
        Some("Northern Territory")
    } else if chars_are(&t, "act") {
        Some("Australian Capital Territory")
    } else {
        None
    }
}

/// Whether a token consists of digits.
pub open spec fn is_number(tok: Seq<char>) -> bool {
    tok.len() > 0 && forall|i: int| 0 <= i < tok.len() ==> is_ascii_digit(#[trigger] tok[i])
}

fn all_digits(tok: &[char]) -> (r: bool)
    ensures
        r == is_number(tok@),
{
    if tok.len() == 0 {
        return false;
    }
    for i in 0..tok.len()
        invariant
            forall|j: int| 0 <= j < i ==> is_ascii_digit(#[trigger] tok@[j]),
    {
        if tok[i] < '0' || tok[i] > '9' {
            return false;
        }
    }
    true
}

/// What a token of a free-form query is.
#[derive(Clone, Copy, Debug, PartialEq, Eq, Structural)]
pub enum Role {
    HouseNumber,
    Postcode,
    State,
    Rest,
}

/// Whether the token at `i` is the first that stands for a state.
pub open spec fn is_first_state(toks: Seq<Seq<char>>, i: int) -> bool {
    &&& state_name(toks[i]) is Some
    &&& forall|j: int| 0 <= j < i ==> state_name(#[trigger] toks[j]) is None
}

/// What the token at `i` is. A number in the first place is a house number,
/// one of four digits in the last place a postcode, and one of one to three or
/// of five digits there a house number if the first place has none. The first
/// token that stands for a state is the state.
pub open spec fn role(toks: Seq<Seq<char>>, i: int) -> Role {
    let tok = toks[i];
    let in_last_place = i == toks.len() - 1;
    if is_number(tok) && i == 0 {
        Role::HouseNumber
    } else if is_number(tok) && in_last_place && tok.len() == 4 {
        Role::Postcode
    } else if is_number(tok) && in_last_place && !is_number(toks[0]) && (tok.len() <= 3 || tok.len()
        == 5) {
        Role::HouseNumber
    } else if is_first_state(toks, i) {
        Role::State
    } else {
        Role::Rest
    }
}

/// The first token with a role among the first `n`.
pub open spec fn with_role(toks: Seq<Seq<char>>, what: Role, n: int) -> Option<Seq<char>>
    decreases n,
{
    if n <= 0 {
        None
    } else {
        match with_role(toks, what, n - 1) {
            Some(t) => Some(t),
            None => if role(toks, n - 1) == what {
                Some(toks[n - 1])
            } else {
                None
            },
        }
    }
}

/// The other tokens among the first `n`.
pub open spec fn rest_of(toks: Seq<Seq<char>>, n: int) -> Seq<Seq<char>>
    decreases n,
{
    if n <= 0 {
        Seq::empty()
    } else if role(toks, n - 1) == Role::Rest {
        rest_of(toks, n - 1).push(toks[n - 1])
    } else {
        rest_of(toks, n - 1)
    }
}

/// A free-form query in parts.
pub struct ParsedQuery {
    pub house_number: Option<String>,
    /// The full name of the state.
    pub state: Option<String>,
    pub postcode: Option<String>,
    /// The other tokens.
    pub rest: Vec<String>,
}

impl ParsedQuery {
    /// Whether these are the parts of a text with these tokens.
    pub open spec fn is_parse_of(&self, toks: Seq<Seq<char>>) -> bool {
        let n = toks.len() as int;
        &&& opt_view(self.house_number) == with_role(toks, Role::HouseNumber, n)
        &&& opt_view(self.postcode) == with_role(toks, Role::Postcode, n)
        &&& opt_view(self.state) == (match with_role(toks, Role::State, n) {
            Some(t) => state_name(t),
            None => None,
        })
        &&& string_views(self.rest@) == rest_of(toks, n)
    }
}

proof fn lemma_no_state_yet(toks: Seq<Seq<char>>, n: int)
    requires
        0 <= n <= toks.len(),
        with_role(toks, Role::State, n) is None,
        forall|j: int| 0 <= j < toks.len() ==> !(is_number(#[trigger] toks[j]) && state_name(
            toks[j],
        ) is Some),
    ensures
        forall|j: int| 0 <= j < n ==> state_name(#[trigger] toks[j]) is None,
    decreases n,
{
    if n > 0 {
        lemma_no_state_yet(toks, n - 1);
        let tok = toks[n - 1];
        if state_name(tok) is Some {
            assert(!is_number(tok));
            assert(is_first_state(toks, n - 1));
        }
    }
}

proof fn lemma_state_taken(toks: Seq<Seq<char>>, n: int)
    requires
        0 <= n <= toks.len(),
        with_role(toks, Role::State, n) is Some,
    ensures
        exists|j: int| 0 <= j < n && state_name(#[trigger] toks[j]) is Some,
    decreases n,
{
    if with_role(toks, Role::State, n - 1) is Some {
        lemma_state_taken(toks, n - 1);
    } else {
        assert(role(toks, n - 1) == Role::State);
    }
}

proof fn lemma_state_no_number(tok: Seq<char>)
    requires
        state_name(tok) is Some,
    ensures
        !is_number(tok),
{
    reveal_strlit("nsw");
    reveal_strlit("new");
    reveal_strlit("vic");
    reveal_strlit("victoria");
    reveal_strlit("qld");
    reveal_strlit("queensland");
    reveal_strlit("wa");
    reveal_strlit("sa");
    reveal_strlit("tas");
    reveal_strlit("tasmania");
    reveal_strlit("nt");
    reveal_strlit("act");
    assert(lower_seq(tok).len() == tok.len());
    assert(lower_seq(tok)[0] == lower_char(tok[0]));
    if is_number(tok) {
        assert(is_ascii_digit(tok[0]));
    }
}

proof fn lemma_house_first(toks: Seq<Seq<char>>, n: int)
    requires
        0 < n < toks.len(),
    ensures
        with_role(toks, Role::HouseNumber, n) is Some <==> is_number(toks[0]),
    decreases n,
{
    if n > 1 {
        lemma_house_first(toks, n - 1);
    } else {
        assert(with_role(toks, Role::HouseNumber, 0) is None);
    }
}

proof fn lemma_postcode_last(toks: Seq<Seq<char>>, n: int)
    requires
        0 <= n < toks.len(),
    ensures
        with_role(toks, Role::Postcode, n) is None,
    decreases n,
{
    if n > 0 {
        lemma_postcode_last(toks, n - 1);
    }
}

/// Splits a free-form query into its parts. What is no house number, postcode
/// or state stays among the other tokens.
pub fn parse_freeform_query(input: &str) -> (r: ParsedQuery)
    ensures
        r.is_parse_of(tokens(input@)),
{
    let list = tokenize_user_input(input);
    let ghost toks = tokens(input@);
    let mut house_number: Option<String> = None;
    let mut state: Option<String> = None;
    let mut postcode: Option<String> = None;
    let mut rest: Vec<String> = Vec::new();
    let n: usize = list.len();
    for i in 0..n
        invariant
            n == list@.len(),
            toks == string_views(list@),
            opt_view(house_number) == with_role(toks, Role::HouseNumber, i as int),
            opt_view(postcode) == with_role(toks, Role::Postcode, i as int),
            opt_view(state) == (match with_role(toks, Role::State, i as int) {
                Some(t) => state_name(t),
                None => None,
            }),
            with_role(toks, Role::State, i as int) is Some ==> state is Some,
            string_views(rest@) == rest_of(toks, i as int),
    {
        let tok = list[i].as_str();
        assert(toks[i as int] == tok@);
        let chars = chars_of(tok);
        let number = all_digits(&chars);
        let ghost before_rest = string_views(rest@);
        proof {
            if i > 0 {
                lemma_house_first(toks, i as int);
            }
            lemma_postcode_last(toks, i as int);
            assert forall|j: int| 0 <= j < toks.len() implies !(is_number(#[trigger] toks[j])
                && state_name(toks[j]) is Some) by {
                if state_name(toks[j]) is Some {
                    lemma_state_no_number(toks[j]);
                }
            }
            if with_role(toks, Role::State, i as int) is Some {
                lemma_state_taken(toks, i as int);
            } else {
                lemma_no_state_yet(toks, i as int);
            }
        }
        if number && i == 0 {
            house_number = Some(list[i].clone());
        } else if number && i == n - 1 && chars.len() == 4 {
            postcode = Some(list[i].clone());
        } else if number && i == n - 1 && house_number.is_none() && (chars.len() <= 3 || chars.len()
            == 5) {
            house_number = Some(list[i].clone());
        } else {
            match canonicalise_state(tok) {
                Some(full) if state.is_none() => {
                    assert(is_first_state(toks, i as int));
                    state = Some(full.to_owned());
                },
                _ => {
                    assert(role(toks, i as int) == Role::Rest);
                    rest.push(list[i].clone());
                    assert(string_views(rest@) =~= before_rest.push(tok@));
                },
            }
        }
    }
    ParsedQuery { house_number, state, postcode, rest }
}

// --- Laws ---
/// Punctuation only separates tokens: which separator stands between two
/// texts makes no difference.
pub proof fn law_separator_splits_tokens(a: Seq<char>, x: char, b: Seq<char>)
    requires
        fold_char(x) == seq![x],
        !is_alnum(x),
    ensures
        tokens(a.push(x) + b) == tokens(a) + tokens(b),
{
    lemma_fold_concat(a.push(x), b);
    assert(a.push(x).drop_last() =~= a);
    let fa = fold_seq(a);
    let fb = fold_seq(b);
    assert(fold_seq(a.push(x)) =~= fa.push(x));
    lemma_split_concat(fa, x, fb, non_alnum());
    lemma_nonempty_concat(split_where(fa, non_alnum()), split_where(fb, non_alnum()));
    assert(tokens(a.push(x) + b) =~= tokens(a) + tokens(b));
}

/// The case of ASCII letters makes no difference to the tokens of a text.
pub proof fn law_tokens_ignore_case(a: Seq<char>, b: Seq<char>)
    requires
        same_but_case(a, b),
    ensures
        tokens(a) == tokens(b),
{
    lemma_fold_case(a, b);
    lemma_split_case(fold_seq(a), fold_seq(b));
    let x = split_where(fold_seq(a), non_alnum());
    let y = split_where(fold_seq(b), non_alnum());
    lemma_nonempty_case(x, y);
    assert forall|i: int| 0 <= i < nonempty(x).len() implies tokens(a)[i] == tokens(b)[i] by {
        assert(same_but_case(nonempty(x)[i], nonempty(y)[i]));
    }
    assert(tokens(a) =~= tokens(b));
}

/// The tokens of several texts, one list behind the other.
pub open spec fn tokens_of_all(ws: Seq<Seq<char>>) -> Seq<Seq<char>>
    decreases ws.len(),
{
    if ws.len() == 0 {
        Seq::empty()
    } else {
        tokens_of_all(ws.drop_last()) + tokens(ws.last())
    }
}

proof fn lemma_tokens_empty()
    ensures
        tokens(Seq::empty()) == Seq::<Seq<char>>::empty(),
{
    let e = Seq::<char>::empty();
    assert(fold_seq(e) =~= e);
    let pieces = split_where(e, non_alnum());
    assert(pieces =~= seq![e]);
    assert(nonempty(pieces.drop_last()) =~= Seq::<Seq<char>>::empty());
    assert(nonempty(pieces) =~= Seq::<Seq<char>>::empty());
    assert(tokens(e) =~= Seq::<Seq<char>>::empty());
}

proof fn lemma_tokens_of_join(ws: Seq<Seq<char>>)
    ensures
        tokens(join(ws, seq![' '])) == tokens_of_all(ws),
    decreases ws.len(),
{
    if ws.len() == 0 {
        lemma_tokens_empty();
    } else if ws.len() == 1 {
        assert(tokens_of_all(ws.drop_last()) =~= Seq::<Seq<char>>::empty());
        assert(tokens_of_all(ws) =~= tokens(ws[0]));
    } else {
        let front = join(ws.drop_last(), seq![' ']);
        lemma_tokens_of_join(ws.drop_last());
        assert(join(ws, seq![' ']) =~= front.push(' ') + ws.last());
        law_separator_splits_tokens(front, ' ', ws.last());
    }
}

proof fn lemma_tokens_of_concat(a: Seq<Seq<char>>, b: Seq<Seq<char>>)
    ensures
        tokens_of_all(a + b) == tokens_of_all(a) + tokens_of_all(b),
    decreases b.len(),
{
    if b.len() == 0 {
        assert(a + b =~= a);
        assert(tokens_of_all(a) + tokens_of_all(b) =~= tokens_of_all(a));
    } else {
        assert((a + b).drop_last() =~= a + b.drop_last());
        lemma_tokens_of_concat(a, b.drop_last());
        assert(tokens_of_all(a + b) =~= tokens_of_all(a) + tokens_of_all(b));
    }
}

proof fn lemma_one_word(s: Seq<char>)
    requires
        forall|i: int| 0 <= i < s.len() ==> !is_white_space(#[trigger] s[i]),
    ensures
        split_where(s, space_char()) == seq![s],
    decreases s.len(),
{
    if s.len() > 0 {
        let t = s.drop_last();
        assert forall|i: int| 0 <= i < t.len() implies !is_white_space(#[trigger] t[i]) by {
            assert(t[i] == s[i]);
        }
        lemma_one_word(t);
        assert(!is_white_space(s[s.len() - 1]));
        assert(split_where(s, space_char()) =~= seq![s]) by {
            assert(t.push(s.last()) =~= s);
        }
    } else {
        assert(s =~= Seq::<char>::empty());
    }
}

/// Where the last white space of a text stands, before `n`.
spec fn last_space(s: Seq<char>, n: int) -> int
    decreases n,
{
    if n <= 0 {
        -1
    } else if is_white_space(s[n - 1]) {
        n - 1
    } else {
        last_space(s, n - 1)
    }
}

proof fn lemma_last_space(s: Seq<char>, n: int)
    requires
        0 <= n <= s.len(),
    ensures
        -1 <= last_space(s, n) < n || (n == 0 && last_space(s, n) == -1),
        last_space(s, n) >= 0 ==> is_white_space(s[last_space(s, n)]),
        forall|i: int| last_space(s, n) < i < n ==> !is_white_space(#[trigger] s[i]),
    decreases n,
{
    if n > 0 {
        lemma_last_space(s, n - 1);
    }
}

proof fn lemma_tokens_of_words(s: Seq<char>)
    ensures
        tokens_of_all(words(s)) == tokens(s),
    decreases s.len(),
{
    let p = last_space(s, s.len() as int);
    lemma_last_space(s, s.len() as int);
    if p < 0 {
        lemma_one_word(s);
        let pieces = seq![s];
        assert(nonempty(pieces.drop_last()) =~= Seq::<Seq<char>>::empty());
        if s.len() == 0 {
            assert(s =~= Seq::<char>::empty());
            assert(nonempty(pieces) =~= Seq::<Seq<char>>::empty());
            lemma_tokens_empty();
        } else {
            assert(nonempty(pieces) =~= pieces);
            assert(tokens_of_all(pieces.drop_last()) =~= Seq::<Seq<char>>::empty());
            assert(tokens_of_all(pieces) =~= tokens(s));
        }
    } else {
        let a = s.take(p);
        let x = s[p];
        let b = s.skip(p + 1);
        assert(s =~= a.push(x) + b);
        lemma_tokens_of_words(a);
        lemma_tokens_of_words(b);
        lemma_split_concat(a, x, b, space_char());
        lemma_nonempty_concat(split_where(a, space_char()), split_where(b, space_char()));
        lemma_tokens_of_concat(words(a), words(b));
        law_separator_splits_tokens(a, x, b);
    }
}

proof fn lemma_dots(w: Seq<char>)
    ensures
        tokens(w) == tokens(without_dots(w)),
    decreases w.len(),
{
    if w.len() > 0 && w.last() == '.' {
        let t = w.drop_last();
        lemma_dots(t);
        assert(fold_seq(w) =~= fold_seq(t).push('.'));
        assert(fold_seq(w).drop_last() =~= fold_seq(t));
        let done = split_where(fold_seq(t), non_alnum());
        assert(split_where(fold_seq(w), non_alnum()) == done.push(Seq::empty()));
        assert(done.push(Seq::empty()).drop_last() =~= done);
    }
}

spec fn lower_word(w: Seq<char>) -> bool {
    w.len() > 0 && forall|i: int| 0 <= i < w.len() ==> is_ascii_lower(#[trigger] w[i])
}

proof fn lemma_street_type(w: Seq<char>)
    requires
        street_type(w) is Some,
    ensures
        lower_word(w),
        lower_word(street_type(w)->0),
        street_type(street_type(w)->0) is None,
{
    reveal_strlit("hwy");
    reveal_strlit("pde");
    reveal_strlit("tce");
    reveal_strlit("ter");
    reveal_strlit("cres");
    reveal_strlit("blvd");
    reveal_strlit("blv");
    reveal_strlit("bvd");
    reveal_strlit("ln");
    reveal_strlit("ave");
    reveal_strlit("av");
    reveal_strlit("rd");
    reveal_strlit("dr");
    reveal_strlit("ct");
    reveal_strlit("cl");
    reveal_strlit("pl");
    reveal_strlit("highway");
    reveal_strlit("parade");
    reveal_strlit("terrace");
    reveal_strlit("crescent");
    reveal_strlit("boulevard");
    reveal_strlit("lane");
    reveal_strlit("avenue");
    reveal_strlit("road");
    reveal_strlit("drive");
    reveal_strlit("court");
    reveal_strlit("close");
    reveal_strlit("place");
    let full = street_type(w)->0;
    if full.len() == 4 {
        assert(full[0] != "cres"@[0]);
        assert(full[0] != "blvd"@[0]);
    }
}

proof fn lemma_letters_split(f: Seq<char>)
    requires
        forall|i: int| 0 <= i < f.len() ==> is_ascii_lower(lower_char(#[trigger] f[i])),
    ensures
        split_where(f, non_alnum()) == seq![f],
    decreases f.len(),
{
    if f.len() > 0 {
        let t = f.drop_last();
        assert forall|i: int| 0 <= i < t.len() implies is_ascii_lower(lower_char(#[trigger] t[i])) by {
            assert(t[i] == f[i]);
        }
        lemma_letters_split(t);
        assert(is_ascii_lower(lower_char(f[f.len() - 1])));
        assert(t.push(f.last()) =~= f);
        assert(split_where(f, non_alnum()) =~= seq![f]);
    } else {
        assert(f =~= Seq::<char>::empty());
    }
}

proof fn lemma_tokens_of_letters(s: Seq<char>)
    requires
        lower_word(lower_seq(fold_seq(s))),
    ensures
        tokens(s) == seq![token_of(fold_seq(s))],
{
    let f = fold_seq(s);
    assert(lower_seq(f).len() == f.len());
    assert forall|i: int| 0 <= i < f.len() implies is_ascii_lower(lower_char(#[trigger] f[i])) by {
        assert(lower_seq(f)[i] == lower_char(f[i]));
    }
    lemma_letters_split(f);
    let pieces = seq![f];
    assert(nonempty(pieces.drop_last()) =~= Seq::<Seq<char>>::empty());
    assert(nonempty(pieces) =~= pieces);
    assert(tokens(s) =~= seq![token_of(f)]);
}

proof fn lemma_indexed_word(w: Seq<char>)
    ensures
        tokens(indexed_word(w)) == tokens(w),
{
    let t = without_dots(w);
    let key = lower_seq(fold_seq(t));
    if street_type(key) is Some {
        lemma_street_type(key);
        lemma_tokens_of_letters(t);
        lemma_dots(w);
        let full = street_type(key)->0;
        lemma_plain_word(full);
        assert(lower_seq(full) =~= full);
        lemma_tokens_of_letters(full);
        assert(tokens(full) =~= tokens(t));
    }
}

proof fn lemma_indexed_words(ws: Seq<Seq<char>>)
    ensures
        tokens_of_all(ws.map_values(to_indexed())) == tokens_of_all(ws),
    decreases ws.len(),
{
    if ws.len() > 0 {
        lemma_indexed_words(ws.drop_last());
        lemma_indexed_word(ws.last());
        assert(ws.map_values(to_indexed()).drop_last() =~= ws.drop_last().map_values(to_indexed()));
    }
}

/// A name has the same tokens as it is indexed and as it is typed: whether a
/// street type is abbreviated on either side makes no difference.
pub proof fn law_indexed_name_keeps_tokens(s: Seq<char>)
    ensures
        tokens(indexed_name(s)) == tokens(s),
{
    let ws = words(s);
    lemma_tokens_of_join(ws.map_values(to_indexed()));
    lemma_indexed_words(ws);
    lemma_tokens_of_words(s);
}

/// Whether a text is one word.
spec fn is_word(w: Seq<char>) -> bool {
    w.len() > 0 && forall|i: int| 0 <= i < w.len() ==> !is_white_space(#[trigger] w[i])
}

proof fn lemma_pieces_have_no_space(s: Seq<char>, j: int, i: int)
    requires
        0 <= j < split_where(s, space_char()).len(),
        0 <= i < split_where(s, space_char())[j].len(),
    ensures
        !is_white_space(split_where(s, space_char())[j][i]),
    decreases s.len(),
{
    if s.len() > 0 {
        let done = split_where(s.drop_last(), space_char());
        crate::text::lemma_split_nonempty(s.drop_last(), space_char());
        if j < done.len() && i < done[j].len() {
            lemma_pieces_have_no_space(s.drop_last(), j, i);
        }
    }
}

proof fn lemma_nonempty_words(pieces: Seq<Seq<char>>)
    requires
        forall|j: int, i: int|
            0 <= j < pieces.len() && 0 <= i < pieces[j].len() ==> !is_white_space(
                #[trigger] pieces[j][i],
            ),
    ensures
        forall|j: int| 0 <= j < nonempty(pieces).len() ==> is_word(#[trigger] nonempty(pieces)[j]),
    decreases pieces.len(),
{
    if pieces.len() > 0 {
        let front = pieces.drop_last();
        assert forall|j: int, i: int|
            0 <= j < front.len() && 0 <= i < front[j].len() implies !is_white_space(
            #[trigger] front[j][i],
        ) by {
            assert(front[j] == pieces[j]);
            assert(!is_white_space(pieces[j][i]));
        }
        lemma_nonempty_words(front);
        let last = pieces.last();
        assert forall|i: int| 0 <= i < last.len() implies !is_white_space(#[trigger] last[i]) by {
            assert(!is_white_space(pieces[pieces.len() - 1][i]));
        }
        assert forall|j: int| 0 <= j < nonempty(pieces).len() implies is_word(
            #[trigger] nonempty(pieces)[j],
        ) by {
            if j < nonempty(front).len() {
                assert(is_word(nonempty(front)[j]));
            } else {
                assert(is_word(last));
            }
        }
    }
}

proof fn lemma_words_of_join(ws: Seq<Seq<char>>)
    requires
        forall|j: int| 0 <= j < ws.len() ==> is_word(#[trigger] ws[j]),
    ensures
        words(join(ws, seq![' '])) == ws,
    decreases ws.len(),
{
    if ws.len() == 0 {
        let e = Seq::<char>::empty();
        lemma_one_word(e);
        assert(nonempty(seq![e].drop_last()) =~= Seq::<Seq<char>>::empty());
        assert(nonempty(seq![e]) =~= ws);
    } else {
        let w = ws.last();
        assert(is_word(ws[ws.len() - 1]));
        lemma_one_word(w);
        assert(nonempty(seq![w].drop_last()) =~= Seq::<Seq<char>>::empty());
        assert(nonempty(seq![w]) =~= seq![w]);
        if ws.len() == 1 {
            assert(ws =~= seq![w]);
        } else {
            let front = ws.drop_last();
            assert forall|j: int| 0 <= j < front.len() implies is_word(#[trigger] front[j]) by {
                assert(front[j] == ws[j]);
            }
            lemma_words_of_join(front);
            let a = join(front, seq![' ']);
            assert(join(ws, seq![' ']) =~= a.push(' ') + w);
            lemma_split_concat(a, ' ', w, space_char());
            lemma_nonempty_concat(split_where(a, space_char()), split_where(w, space_char()));
            assert(ws =~= front + seq![w]);
        }
    }
}

proof fn lemma_indexed_word_is_fixed(w: Seq<char>)
    requires
        is_word(w),
    ensures
        is_word(indexed_word(w)),
        indexed_word(indexed_word(w)) == indexed_word(w),
{
    let key = lower_seq(fold_seq(without_dots(w)));
    if street_type(key) is Some {
        lemma_street_type(key);
        let full = street_type(key)->0;
        lemma_plain_word(full);
        assert(lower_seq(full) =~= full);
        assert(is_ascii_lower(full[full.len() - 1]));
        assert(without_dots(full) == full);
        assert forall|i: int| 0 <= i < full.len() implies !is_white_space(#[trigger] full[i]) by {
            assert(is_ascii_lower(full[i]));
        }
    }
}

/// Writing a name as it is indexed a second time changes nothing.
pub proof fn law_indexed_name_is_fixed(s: Seq<char>)
    ensures
        indexed_name(indexed_name(s)) == indexed_name(s),
{
    let ws = words(s);
    let full = ws.map_values(to_indexed());
    let pieces = split_where(s, space_char());
    assert forall|j: int, i: int|
        0 <= j < pieces.len() && 0 <= i < pieces[j].len() implies !is_white_space(
        #[trigger] pieces[j][i],
    ) by {
        lemma_pieces_have_no_space(s, j, i);
    }
    lemma_nonempty_words(pieces);
    assert forall|j: int| 0 <= j < full.len() implies is_word(#[trigger] full[j]) && indexed_word(
        full[j],
    ) == full[j] by {
        assert(is_word(ws[j]));
        lemma_indexed_word_is_fixed(ws[j]);
    }
    lemma_words_of_join(full);
    assert(full.map_values(to_indexed()) =~= full);
}

/// How many tokens among the first `n` have a role.
pub open spec fn role_count(toks: Seq<Seq<char>>, what: Role, n: int) -> nat
    decreases n,
{
    if n <= 0 {
        0
    } else {
        role_count(toks, what, n - 1) + if role(toks, n - 1) == what {
            1nat
        } else {
            0
        }
    }
}

/// Parsing a query loses no token and gives none two parts: at most one is the
/// house number, at most one the postcode, at most one the state, and all
/// others stay.
pub proof fn law_parse_partitions(toks: Seq<Seq<char>>)
    ensures
        ({
            let n = toks.len() as int;
            let house = with_role(toks, Role::HouseNumber, n);
            let postcode = with_role(toks, Role::Postcode, n);
            let state = with_role(toks, Role::State, n);
            n == rest_of(toks, n).len() + (if house is Some {
                1int
            } else {
                0
            }) + (if postcode is Some {
                1int
            } else {
                0
            }) + (if state is Some {
                1int
            } else {
                0
            })
        }),
{
    let n = toks.len() as int;
    lemma_counts(toks, n);
    lemma_state_once(toks, n);
    if n > 0 {
        if n > 1 {
            lemma_house_first(toks, n - 1);
            lemma_house_count(toks, n - 1);
            lemma_postcode_last(toks, n - 1);
            lemma_postcode_count(toks, n - 1);
        } else {
            assert(role_count(toks, Role::HouseNumber, 0) == 0);
            assert(role_count(toks, Role::Postcode, 0) == 0);
            assert(with_role(toks, Role::HouseNumber, 0) is None);
            assert(with_role(toks, Role::Postcode, 0) is None);
        }
    }
}

proof fn lemma_counts(toks: Seq<Seq<char>>, n: int)
    requires
        0 <= n <= toks.len(),
    ensures
        n == rest_of(toks, n).len() + role_count(toks, Role::HouseNumber, n) + role_count(
            toks,
            Role::Postcode,
            n,
        ) + role_count(toks, Role::State, n),
    decreases n,
{
    if n > 0 {
        lemma_counts(toks, n - 1);
    }
}

proof fn lemma_state_once(toks: Seq<Seq<char>>, n: int)
    requires
        0 <= n <= toks.len(),
    ensures
        role_count(toks, Role::State, n) == (if with_role(toks, Role::State, n) is Some {
            1nat
        } else {
            0
        }),
    decreases n,
{
    if n > 0 {
        lemma_state_once(toks, n - 1);
        if with_role(toks, Role::State, n - 1) is Some {
            lemma_state_taken(toks, n - 1);
            assert(role(toks, n - 1) != Role::State);
        }
    }
}

proof fn lemma_house_count(toks: Seq<Seq<char>>, n: int)
    requires
        0 < n < toks.len(),
    ensures
        role_count(toks, Role::HouseNumber, n) == (if is_number(toks[0]) {
            1nat
        } else {
            0
        }),
    decreases n,
{
    if n > 1 {
        lemma_house_count(toks, n - 1);
    } else {
        assert(role_count(toks, Role::HouseNumber, 0) == 0);
    }
}

proof fn lemma_postcode_count(toks: Seq<Seq<char>>, n: int)
    requires
        0 <= n < toks.len(),
    ensures
        role_count(toks, Role::Postcode, n) == 0,
    decreases n,
{
    if n > 0 {
        lemma_postcode_count(toks, n - 1);
    }
}

/// The abbreviation of a street type begins as its full form does, is shorter,
/// and has no letter that the full form lacks; the full form is no abbreviation
/// itself.
pub proof fn law_street_types_are_shortened(w: Seq<char>)
    ensures
        street_type(w) matches Some(full) ==> {
            &&& 2 <= w.len() < full.len()
            &&& w[0] == full[0]
            &&& forall|i: int| 0 <= i < w.len() ==> full.contains(#[trigger] w[i])
            &&& street_type(full) is None
            &&& full.len() == 5 <==> w[0] == 'd' || w == seq!['c', 't'] || w == seq!['c', 'l'] || w
                == seq!['p', 'l']
        },
        street_type("st"@) is None,
{
    reveal_strlit("st");
    reveal_strlit("hwy");
    reveal_strlit("pde");
    reveal_strlit("tce");
    reveal_strlit("ter");
    reveal_strlit("cres");
    reveal_strlit("blvd");
    reveal_strlit("blv");
    reveal_strlit("bvd");
    reveal_strlit("ln");
    reveal_strlit("ave");
    reveal_strlit("av");
    reveal_strlit("rd");
    reveal_strlit("dr");
    reveal_strlit("ct");
    reveal_strlit("cl");
    reveal_strlit("pl");
    reveal_strlit("highway");
    reveal_strlit("parade");
    reveal_strlit("terrace");
    reveal_strlit("crescent");
    reveal_strlit("boulevard");
    reveal_strlit("lane");
    reveal_strlit("avenue");
    reveal_strlit("road");
    reveal_strlit("drive");
    reveal_strlit("court");
    reveal_strlit("close");
    reveal_strlit("place");
    assert("st"@[0] == 's');
    assert("ct"@ =~= seq!['c', 't']);
    assert("cl"@ =~= seq!['c', 'l']);
    assert("pl"@ =~= seq!['p', 'l']);
    if street_type(w) is Some {
        let full = street_type(w)->0;
        if w == "hwy"@ {
            assert(full[0] == 'h' && full[4] == 'w' && full[6] == 'y');
        } else if w == "pde"@ {
            assert(full[0] == 'p' && full[4] == 'd' && full[5] == 'e');
        } else if w == "tce"@ || w == "ter"@ {
            assert(full[0] == 't' && full[1] == 'e' && full[2] == 'r' && full[5] == 'c');
        } else if w == "cres"@ {
            assert(full[0] == 'c' && full[1] == 'r' && full[2] == 'e' && full[3] == 's');
        } else if w == "blvd"@ || w == "blv"@ || w == "bvd"@ {
            assert(full[0] == 'b' && full[4] == 'l' && full[6] == 'v' || full[5] == 'v');
            assert(full[3] == 'l' && full[5] == 'v' && full[8] == 'd');
        } else if w == "ln"@ {
            assert(full[0] == 'l' && full[2] == 'n');
        } else if w == "ave"@ || w == "av"@ {
            assert(full[0] == 'a' && full[1] == 'v' && full[2] == 'e');
        } else if w == "rd"@ {
            assert(full[0] == 'r' && full[3] == 'd');
        } else if w == "dr"@ {
            assert(full[0] == 'd' && full[1] == 'r');
        } else if w == "ct"@ {
            assert(full[0] == 'c' && full[4] == 't');
        } else if w == "cl"@ {
            assert(full[0] == 'c' && full[1] == 'l');
        } else if w == "pl"@ {
            assert(full[0] == 'p' && full[1] == 'l');
        }
    }
}

/// The abbreviation of a state stands for the state that it abbreviates, in any
/// case; other than abbreviations only names of one word and the word `new`
/// stand for a state.
pub proof fn law_states_are_named(tok: Seq<char>, name: Seq<char>)
    ensures
        state_abbreviation(name) matches Some(abbr) && lower_seq(tok) == lower_seq(abbr)
            ==> state_name(tok) == Some(name),
        state_name(tok) == Some(name) ==> {
            ||| state_abbreviation(name) matches Some(abbr) && lower_seq(abbr) == lower_seq(tok)
            ||| lower_seq(tok) == lower_seq(name)
            ||| lower_seq(tok) == "new"@ && name == "New South Wales"@
        },
        state_abbreviation(name) is Some && lower_seq(tok) == lower_seq(name) && !name.contains(' ')
            ==> state_name(tok) == Some(name),
{
    reveal_strlit("nsw");
    reveal_strlit("new");
    reveal_strlit("vic");
    reveal_strlit("victoria");
    reveal_strlit("qld");
    reveal_strlit("queensland");
    reveal_strlit("wa");
    reveal_strlit("sa");
    reveal_strlit("tas");
    reveal_strlit("tasmania");
    reveal_strlit("nt");
    reveal_strlit("act");
    reveal_strlit("New South Wales");
    reveal_strlit("Victoria");
    reveal_strlit("Queensland");
    reveal_strlit("Western Australia");
    reveal_strlit("South Australia");
    reveal_strlit("Tasmania");
    reveal_strlit("Northern Territory");
    reveal_strlit("Australian Capital Territory");
    reveal_strlit("NSW");
    reveal_strlit("VIC");
    reveal_strlit("QLD");
    reveal_strlit("WA");
    reveal_strlit("SA");
    reveal_strlit("TAS");
    reveal_strlit("NT");
    reveal_strlit("ACT");
    assert(lower_seq("NSW"@) =~= "nsw"@);
    assert(lower_seq("VIC"@) =~= "vic"@);
    assert(lower_seq("QLD"@) =~= "qld"@);
    assert(lower_seq("WA"@) =~= "wa"@);
    assert(lower_seq("SA"@) =~= "sa"@);
    assert(lower_seq("TAS"@) =~= "tas"@);
    assert(lower_seq("NT"@) =~= "nt"@);
    assert(lower_seq("ACT"@) =~= "act"@);
    assert(lower_seq("Victoria"@) =~= "victoria"@);
    assert(lower_seq("Queensland"@) =~= "queensland"@);
    assert(lower_seq("Tasmania"@) =~= "tasmania"@);
    assert("New South Wales"@[3] == ' ');
    assert("Western Australia"@[7] == ' ');
    assert("South Australia"@[5] == ' ');
    assert("Northern Territory"@[8] == ' ');
    assert("Australian Capital Territory"@[10] == ' ');
    assert("nsw"@[0] == 'n' && "nsw"@[1] == 's');
    assert("new"@[0] == 'n' && "new"@[1] == 'e');
    assert("vic"@[0] == 'v' && "qld"@[0] == 'q' && "wa"@[0] == 'w' && "sa"@[0] == 's');
    assert("tas"@[0] == 't' && "nt"@[0] == 'n' && "act"@[0] == 'a');
    assert("victoria"@[0] == 'v' && "queensland"@[0] == 'q' && "tasmania"@[0] == 't');
    assert("New South Wales"@[0] == 'N' && "New South Wales"@[1] == 'e');
    assert("Victoria"@[0] == 'V' && "Queensland"@[0] == 'Q' && "Western Australia"@[0] == 'W');
    assert("South Australia"@[0] == 'S' && "Tasmania"@[0] == 'T');
    assert("Northern Territory"@[0] == 'N' && "Northern Territory"@[1] == 'o');
    assert("Australian Capital Territory"@[0] == 'A');
    assert(lower_seq(name).len() == name.len());
}

} // verus!
