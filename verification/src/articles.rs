//! Leading definite articles of place names.
//!
//! Whoever types a name leaves out its article: *Hague* for *The Hague*,
//! *Aquila* for *L'Aquila*. Such names are indexed under both forms.
use vstd::prelude::*;
use crate::fold::{lowered, lowered_chars};
use crate::text::{
    chars_are, chars_of, first_where, is_white_space, is_whitespace, lemma_first_where_is, space_char,
    string_of, sub_chars, trim_start_chars, trim_start_seq,
};
use crate::unicode::{lower_of, to_lowercase};

verus! {

broadcast use vstd::seq::group_seq_axioms;

/// Whether two characters are an elided article: an L, D or N and an
/// apostrophe.
pub open spec fn is_elision(a: char, b: char) -> bool {
    let head = lower_of(a) + lower_of(b);
    ||| head == seq!['l', '\'']
    ||| head == seq!['l', '\u{2019}']
    ||| head == seq!['d', '\'']
    ||| head == seq!['d', '\u{2019}']
    ||| head == seq!['n', '\'']
    ||| head == seq!['n', '\u{2019}']
}

/// Whether a word in lower case is a definite article: English, French,
/// Spanish, Italian, Portuguese and Galician, Catalan, German, Dutch, Welsh.
pub open spec fn is_article(w: Seq<char>) -> bool {
    ||| w == "the"@
    ||| w == "le"@
    ||| w == "la"@
    ||| w == "les"@
    ||| w == "el"@
    ||| w == "los"@
    ||| w == "las"@
    ||| w == "il"@
    ||| w == "lo"@
    ||| w == "i"@
    ||| w == "gli"@
    ||| w == "o"@
    ||| w == "a"@
    ||| w == "os"@
    ||| w == "as"@
    ||| w == "els"@
    ||| w == "der"@
    ||| w == "die"@
    ||| w == "das"@
    ||| w == "de"@
    ||| w == "het"@
    ||| w == "y"@
    ||| w == "yr"@
}

/// What follows the article of a name, if it has one and something follows.
pub open spec fn without_article(name: Seq<char>) -> Option<Seq<char>> {
    let t = trim_start_seq(name);
    let elided = trim_start_seq(t.skip(2));
    let n = first_where(t, space_char());
    let rest = trim_start_seq(t.skip(n + 1));
    if t.len() >= 2 && is_elision(t[0], t[1]) && elided.len() > 0 {
        Some(elided)
    } else if n < t.len() && rest.len() > 0 && is_article(lowered(t.take(n))) {
        Some(rest)
    } else {
        None
    }
}

fn check_elision(a: char, b: char) -> (r: bool)
    ensures
        r == is_elision(a, b),
{
    let mut head = to_lowercase(a);
    let mut tail = to_lowercase(b);
    head.append(&mut tail);
    assert(head@ == lower_of(a) + lower_of(b));
    if head.len() != 2 {
        return false;
    }
    let letter = head[0] == 'l' || head[0] == 'd' || head[0] == 'n';
    let mark = head[1] == '\'' || head[1] == '\u{2019}';
    proof {
        let h = head@;
        assert(h =~= seq![h[0], h[1]]);
        if letter && mark {
        } else {
            assert(h != seq!['l', '\''] && h != seq!['l', '\u{2019}'] && h != seq!['d', '\''] && h
                != seq!['d', '\u{2019}'] && h != seq!['n', '\''] && h != seq!['n', '\u{2019}']) by {
                assert(seq!['l', '\''][0] == 'l' && seq!['l', '\''][1] == '\'');
                assert(seq!['l', '\u{2019}'][0] == 'l' && seq!['l', '\u{2019}'][1] == '\u{2019}');
                assert(seq!['d', '\''][0] == 'd' && seq!['d', '\''][1] == '\'');
                assert(seq!['d', '\u{2019}'][0] == 'd' && seq!['d', '\u{2019}'][1] == '\u{2019}');
                assert(seq!['n', '\''][0] == 'n' && seq!['n', '\''][1] == '\'');
                assert(seq!['n', '\u{2019}'][0] == 'n' && seq!['n', '\u{2019}'][1] == '\u{2019}');
            }
        }
    }
    letter && mark
}

fn check_article(w: &[char]) -> (r: bool)
    ensures
        r == is_article(w@),
{
    chars_are(w, "the") || chars_are(w, "le") || chars_are(w, "la") || chars_are(w, "les")
        || chars_are(w, "el") || chars_are(w, "los") || chars_are(w, "las") || chars_are(w, "il")
        || chars_are(w, "lo") || chars_are(w, "i") || chars_are(w, "gli") || chars_are(w, "o")
        || chars_are(w, "a") || chars_are(w, "os") || chars_are(w, "as") || chars_are(w, "els")
        || chars_are(w, "der") || chars_are(w, "die") || chars_are(w, "das") || chars_are(w, "de")
        || chars_are(w, "het") || chars_are(w, "y") || chars_are(w, "yr")
}

/// Takes the leading article off a name. The rest of the name stays as it is.
pub fn strip_leading_article(name: &str) -> (r: Option<String>)
    ensures
        crate::text::opt_view(r) == without_article(name@),
{
    let t = trim_start_chars(&chars_of(name));
    if t.len() >= 2 && check_elision(t[0], t[1]) {
        let tail = sub_chars(&t, 2, t.len());
        assert(tail@ =~= t@.skip(2));
        let rest = trim_start_chars(&tail);
        if rest.len() > 0 {
            return Some(string_of(&rest));
        }
    }
    let mut n: usize = 0;
    while n < t.len() && !is_whitespace(t[n])
        invariant
            n <= t@.len(),
            forall|j: int| 0 <= j < n ==> !is_white_space(t@[j]),
        decreases t@.len() - n,
    {
        n += 1;
    }
    proof {
        lemma_first_where_is(t@, space_char(), n as int);
    }
    if n == t.len() {
        return None;
    }
    let tail = sub_chars(&t, n + 1, t.len());
    assert(tail@ =~= t@.skip(n + 1));
    let rest = trim_start_chars(&tail);
    if rest.len() == 0 {
        return None;
    }
    let first = sub_chars(&t, 0, n);
    assert(first@ =~= t@.take(n as int));
    if check_article(&lowered_chars(&first)) {
        Some(string_of(&rest))
    } else {
        None
    }
}

} // verus!
