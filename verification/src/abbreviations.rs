//! Place-name abbreviations, and the normal form of names in the autocomplete
//! index.
use vstd::prelude::*;
use crate::fold::{law_case_insensitive, normalised, normalise, same_but_case};
use crate::text::{
    chars_are, chars_of, join, join_chars, nonempty, nonempty_pieces, split_on, split_seq,
    string_of, views,
};

verus! {

broadcast use vstd::seq::group_seq_axioms;

/// The short form of a word inside a name.
pub open spec fn short_form(w: Seq<char>) -> Seq<char> {
    if w == "saint"@ || w == "sainte"@ || w == "st"@ || w == "ste"@ {
        "st"@
    } else if w == "mount"@ || w == "mt"@ {
        "mt"@
    } else if w == "fort"@ || w == "ft"@ {
        "ft"@
    } else {
        w
    }
}

/// The long form of the last word of a name: there `st` is a street.
pub open spec fn last_form(w: Seq<char>) -> Seq<char> {
    if w == "st"@ {
        "street"@
    } else {
        w
    }
}

/// The words of a name, with the abbreviations made alike.
pub open spec fn collapsed(words: Seq<Seq<char>>) -> Seq<Seq<char>> {
    Seq::new(
        words.len(),
        |i: int|
            if i == words.len() - 1 {
                last_form(words[i])
            } else {
                short_form(words[i])
            },
    )
}

/// A name with the abbreviations made alike. A single word stays as it is.
pub open spec fn with_abbreviations(s: Seq<char>) -> Seq<char> {
    let words = nonempty(split_seq(s, ' '));
    if words.len() < 2 {
        s
    } else {
        join(collapsed(words), seq![' '])
    }
}

fn push_word(out: &mut Vec<Vec<char>>, w: &str)
    ensures
        views(final(out)@) == views(old(out)@).push(w@),
{
    out.push(chars_of(w));
    assert(views(out@) =~= views(old(out)@).push(w@));
}

/// Makes the abbreviations of a name alike: `saint`, `sainte`, `st` and `ste`
/// become `st`, `mount` becomes `mt` and `fort` becomes `ft`, except in the
/// last place, where `st` becomes `street`.
pub fn fold_place_abbreviations(s: &str) -> (r: String)
    ensures
        r@ == with_abbreviations(s@),
{
    let parts = nonempty_pieces(split_on(&chars_of(s), ' '));
    let ghost words = nonempty(split_seq(s@, ' '));
    if parts.len() < 2 {
        return s.to_owned();
    }
    let last: usize = parts.len() - 1;
    let mut out: Vec<Vec<char>> = Vec::new();
    for i in 0..parts.len()
        invariant
            last == parts@.len() - 1,
            words == views(parts@),
            views(out@) == collapsed(words).take(i as int),
    {
        let w: &[char] = parts[i].as_slice();
        assert(words[i as int] == w@);
        if i == last {
            if chars_are(w, "st") {
                push_word(&mut out, "street");
            } else {
                push_word(&mut out, string_of(w).as_str());
            }
        } else if chars_are(w, "saint") || chars_are(w, "sainte") || chars_are(w, "st") || chars_are(
            w,
            "ste",
        ) {
            push_word(&mut out, "st");
        } else if chars_are(w, "mount") || chars_are(w, "mt") {
            push_word(&mut out, "mt");
        } else if chars_are(w, "fort") || chars_are(w, "ft") {
            push_word(&mut out, "ft");
        } else {
            push_word(&mut out, string_of(w).as_str());
        }
        assert(views(out@) =~= collapsed(words).take(i + 1));
    }
    assert(views(out@) =~= collapsed(words));
    string_of(&join_chars(&out, ' '))
}

/// The normal form of a name: folded words in lower case with single spaces
/// between them, and the abbreviations made alike.
pub open spec fn name_key(q: Seq<char>) -> Seq<char> {
    with_abbreviations(normalised(q))
}

/// Brings a typed prefix, or a name to be indexed, into normal form.
pub fn normalise_prefix(q: &str) -> (r: String)
    ensures
        r@ == name_key(q@),
{
    let s = normalise(q);
    fold_place_abbreviations(s.as_str())
}

// --- Laws ---
/// The case of ASCII letters makes no difference to the normal form.
pub proof fn law_key_ignores_case(a: Seq<char>, b: Seq<char>)
    requires
        same_but_case(a, b),
    ensures
        name_key(a) == name_key(b),
{
    law_case_insensitive(a, b);
}

/// Making the words alike a second time changes nothing.
pub proof fn law_collapsed_idempotent(words: Seq<Seq<char>>)
    ensures
        collapsed(collapsed(words)) == collapsed(words),
{
    reveal_strlit("saint");
    reveal_strlit("sainte");
    reveal_strlit("st");
    reveal_strlit("ste");
    reveal_strlit("mount");
    reveal_strlit("mt");
    reveal_strlit("fort");
    reveal_strlit("ft");
    reveal_strlit("street");
    let once = collapsed(words);
    assert("street"@.len() != "st"@.len());
    assert("mt"@[0] != "st"@[0]);
    assert("ft"@[0] != "st"@[0]);
    assert("ft"@[0] != "mt"@[0]);
    assert("saint"@.len() != "mt"@.len());
    assert("sainte"@.len() != "mt"@.len());
    assert("ste"@.len() != "mt"@.len());
    assert("mount"@.len() != "ft"@.len());
    assert(collapsed(once) =~= once);
}

/// The spellings of a saint, a mount and a fort have the same normal form,
/// wherever they stand but in the last place.
pub proof fn law_spellings_are_alike(a: Seq<Seq<char>>, b: Seq<Seq<char>>)
    requires
        a.len() == b.len(),
        forall|i: int|
            0 <= i < a.len() ==> #[trigger] a[i] == b[i] || (i < a.len() - 1 && short_form(a[i])
                == short_form(b[i])),
    ensures
        collapsed(a) == collapsed(b),
{
    assert forall|i: int| 0 <= i < a.len() implies collapsed(a)[i] == collapsed(b)[i] by {
        assert(a[i] == b[i] || (i < a.len() - 1 && short_form(a[i]) == short_form(b[i])));
    }
    assert(collapsed(a) =~= collapsed(b));
}

/// Inside a name a saint is `st`, a mount `mt` and a fort `ft`, however they are
/// spelt; in the last place `st` is a street. Every other word stays.
pub proof fn law_words_are_shortened(words: Seq<Seq<char>>, i: int)
    requires
        0 <= i < words.len(),
    ensures
        collapsed(words).len() == words.len(),
        i < words.len() - 1 ==> {
            let w = words[i];
            let r = collapsed(words)[i];
            &&& w == "saint"@ || w == "sainte"@ || w == "ste"@ || w == "st"@ ==> r == seq!['s', 't']
            &&& w == "mount"@ || w == "mt"@ ==> r == seq!['m', 't']
            &&& w == "fort"@ || w == "ft"@ ==> r == seq!['f', 't']
            &&& r != w ==> w == "saint"@ || w == "sainte"@ || w == "ste"@ || w == "mount"@ || w
                == "fort"@
        },
        i == words.len() - 1 ==> {
            let w = words[i];
            let r = collapsed(words)[i];
            &&& w == seq!['s', 't'] ==> r == "street"@
            &&& w != seq!['s', 't'] ==> r == w
        },
{
    reveal_strlit("saint");
    reveal_strlit("sainte");
    reveal_strlit("ste");
    reveal_strlit("st");
    reveal_strlit("mount");
    reveal_strlit("mt");
    reveal_strlit("fort");
    reveal_strlit("ft");
    assert("st"@ =~= seq!['s', 't']);
    assert("mt"@ =~= seq!['m', 't']);
    assert("ft"@ =~= seq!['f', 't']);
    assert("saint"@[0] == 's' && "sainte"@[0] == 's' && "ste"@[0] == 's' && "st"@[0] == 's');
    assert("mount"@[0] == 'm' && "mt"@[0] == 'm' && "fort"@[0] == 'f' && "ft"@[0] == 'f');
}

proof fn lemma_word_alone(w: Seq<char>)
    requires
        w.len() > 0,
        forall|i: int| 0 <= i < w.len() ==> #[trigger] w[i] != ' ',
    ensures
        nonempty(split_seq(w, ' ')) == seq![w],
{
    crate::text::law_one_piece_without_separators(w, ' ');
    let one = seq![w];
    assert(one.drop_last() =~= Seq::<Seq<char>>::empty());
    assert(nonempty(one.drop_last()) =~= Seq::<Seq<char>>::empty());
    assert(one.last() == w);
    assert(nonempty(one) =~= one);
}

/// A single word stays as it is; of two words the first is shortened where it is
/// one of those that are, and the second is written in full where it is the
/// abbreviation of a street.
pub proof fn law_names_of_two_words(a: Seq<char>, b: Seq<char>)
    requires
        a.len() > 0,
        b.len() > 0,
        forall|i: int| 0 <= i < a.len() ==> #[trigger] a[i] != ' ',
        forall|i: int| 0 <= i < b.len() ==> #[trigger] b[i] != ' ',
    ensures
        with_abbreviations(a) == a,
        b != seq!['s', 't'] && (a == "saint"@ || a == "sainte"@ || a == "ste"@ || a == "st"@)
            ==> with_abbreviations(a + seq![' '] + b) == seq!['s', 't', ' '] + b,
        b != seq!['s', 't'] && (a == "mount"@ || a == "mt"@) ==> with_abbreviations(
            a + seq![' '] + b,
        ) == seq!['m', 't', ' '] + b,
        b == seq!['s', 't'] && a != "saint"@ && a != "sainte"@ && a != "ste"@ && a != "mount"@ && a
            != "fort"@ ==> with_abbreviations(a + seq![' '] + b) == a + " street"@,
{
    lemma_word_alone(a);
    lemma_word_alone(b);
    crate::text::law_separator_ends_a_piece(a, ' ', b);
    crate::fold::lemma_nonempty_concat(split_seq(a, ' '), split_seq(b, ' '));
    let ws = seq![a] + seq![b];
    assert(nonempty(split_seq(a + seq![' '] + b, ' ')) == ws);
    law_words_are_shortened(ws, 0);
    law_words_are_shortened(ws, 1);
    let c = collapsed(ws);
    let sep = seq![' '];
    let first = c.drop_last();
    assert(first.len() == 1 && first[0] == c[0]);
    assert(join(first, sep) == c[0]);
    assert(join(c, sep) == c[0] + sep + c[1]);
    assert(ws[0] == a && ws[1] == b);
    reveal_strlit(" street");
    reveal_strlit("street");
    assert(sep + "street"@ =~= " street"@);
    assert(a + (sep + "street"@) =~= a + sep + "street"@);
    assert(seq!['s', 't'] + sep + b =~= seq!['s', 't', ' '] + b);
    assert(seq!['m', 't'] + sep + b =~= seq!['m', 't', ' '] + b);
}

} // verus!
