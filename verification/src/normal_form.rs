//! What the normal forms of names look like: of localities, and of the names in
//! the autocomplete index.
use vstd::prelude::*;
use crate::abbreviations::{
    collapsed, law_collapsed_idempotent, name_key, with_abbreviations,
};
use crate::fold::{
    folded_words, law_case_insensitive, law_normalised_idempotent, lemma_ascii_words,
    lemma_nonempty_concat, lemma_split_concat, lemma_words_of_join, non_alnum, normalised,
    plain_word, plain_words, same_but_case,
};
use crate::text::{
    is_ascii_digit, is_ascii_letter, is_ascii_lower, is_char, join, lower_char, lower_seq, nonempty,
    split_seq, split_where, upper_seq,
};

verus! {

broadcast use vstd::seq::group_seq_axioms;

/// Whether `c` is an ASCII letter or digit.
pub open spec fn is_ascii_alnum(c: char) -> bool {
    is_ascii_letter(c) || is_ascii_digit(c)
}

pub open spec fn is_ascii_text(s: Seq<char>) -> bool {
    forall|i: int| 0 <= i < s.len() ==> (#[trigger] s[i] as u32) < 128
}

/// The ASCII letters and digits of `s`, in order.
pub open spec fn ascii_alnums(s: Seq<char>) -> Seq<char>
    decreases s.len(),
{
    if s.len() == 0 {
        Seq::empty()
    } else if is_ascii_alnum(s.last()) {
        ascii_alnums(s.drop_last()).push(s.last())
    } else {
        ascii_alnums(s.drop_last())
    }
}

/// Whether `s` has only digits, lower-case letters and spaces, with no space at
/// either end and no two in a row.
pub open spec fn is_spaced(s: Seq<char>) -> bool {
    &&& forall|i: int|
        0 <= i < s.len() ==> is_ascii_lower(#[trigger] s[i]) || is_ascii_digit(s[i]) || s[i] == ' '
    &&& s.len() > 0 ==> s[0] != ' ' && s[s.len() - 1] != ' '
    &&& forall|i: int, j: int|
        0 <= i < s.len() && j == i + 1 && j < s.len() ==> #[trigger] s[i] != ' ' || #[trigger] s[j]
            != ' '
}

/// The words one after the other.
spec fn glued(ws: Seq<Seq<char>>) -> Seq<char>
    decreases ws.len(),
{
    if ws.len() == 0 {
        Seq::empty()
    } else {
        glued(ws.drop_last()) + ws.last()
    }
}

proof fn lemma_alnums_concat(a: Seq<char>, b: Seq<char>)
    ensures
        ascii_alnums(a + b) == ascii_alnums(a) + ascii_alnums(b),
    decreases b.len(),
{
    if b.len() == 0 {
        assert(a + b =~= a);
    } else {
        assert((a + b).drop_last() =~= a + b.drop_last());
        lemma_alnums_concat(a, b.drop_last());
    }
    assert(ascii_alnums(a + b) =~= ascii_alnums(a) + ascii_alnums(b));
}

proof fn lemma_alnums_of_word(w: Seq<char>)
    requires
        forall|i: int| 0 <= i < w.len() ==> is_ascii_alnum(#[trigger] w[i]),
    ensures
        ascii_alnums(w) == w,
    decreases w.len(),
{
    if w.len() > 0 {
        let v = w.drop_last();
        assert forall|i: int| 0 <= i < v.len() implies is_ascii_alnum(#[trigger] v[i]) by {
            assert(v[i] == w[i]);
        }
        lemma_alnums_of_word(v);
        assert(is_ascii_alnum(w[w.len() - 1]));
    }
    assert(ascii_alnums(w) =~= w);
}

/// Words with spaces between them are spaced, and have the letters of the words.
proof fn lemma_join_is_spaced(ws: Seq<Seq<char>>)
    requires
        plain_words(ws),
    ensures
        is_spaced(join(ws, seq![' '])),
        ascii_alnums(join(ws, seq![' '])) == glued(ws),
        join(ws, seq![' ']).len() == 0 <==> ws.len() == 0,
    decreases ws.len(),
{
    let sep = seq![' '];
    let s = join(ws, sep);
    if ws.len() > 0 {
        let front = ws.drop_last();
        let w = ws[ws.len() - 1];
        assert(plain_word(w));
        assert forall|i: int| 0 <= i < front.len() implies plain_word(#[trigger] front[i]) by {
            assert(plain_word(ws[i]));
        }
        lemma_join_is_spaced(front);
        lemma_alnums_of_word(w);
        if ws.len() == 1 {
            assert(front =~= Seq::<Seq<char>>::empty());
            assert(glued(ws) =~= w);
        } else {
            let t = join(front, sep);
            assert(s == t + sep + w);
            lemma_alnums_concat(t + sep, w);
            lemma_alnums_concat(t, sep);
            assert(sep.drop_last() =~= Seq::<char>::empty());
            assert(ascii_alnums(sep.drop_last()) =~= Seq::<char>::empty());
            assert(ascii_alnums(sep) =~= Seq::<char>::empty());
            assert(ascii_alnums(s) =~= glued(ws));
            assert forall|i: int| 0 <= i < s.len() implies is_ascii_lower(#[trigger] s[i])
                || is_ascii_digit(s[i]) || s[i] == ' ' by {
                if i < t.len() {
                    assert(s[i] == t[i]);
                } else if i > t.len() {
                    assert(s[i] == w[i - t.len() - 1]);
                }
            }
            assert forall|i: int, j: int| 0 <= i < s.len() && j == i + 1 && j < s.len() implies
                #[trigger] s[i] != ' ' || #[trigger] s[j] != ' ' by {
                if j < t.len() {
                    assert(s[i] == t[i] && s[j] == t[j]);
                } else if i < t.len() {
                    assert(s[i] == t[t.len() - 1]);
                } else {
                    assert(s[j] == w[j - t.len() - 1]);
                }
            }
            assert(s[0] == t[0]);
            assert(s[s.len() - 1] == w[w.len() - 1]);
        }
    }
}

proof fn lemma_glued_nonempty(ws: Seq<Seq<char>>)
    ensures
        glued(nonempty(ws)) == glued(ws),
    decreases ws.len(),
{
    if ws.len() > 0 {
        lemma_glued_nonempty(ws.drop_last());
        let done = nonempty(ws.drop_last());
        if ws.last().len() == 0 {
            assert(glued(ws) =~= glued(ws.drop_last()));
        } else {
            assert(done.push(ws.last()).drop_last() =~= done);
        }
    }
}

/// The pieces of a text between what is no letter or digit hold all its letters
/// and digits.
proof fn lemma_glued_pieces(s: Seq<char>)
    requires
        is_ascii_text(s),
    ensures
        glued(split_where(s, non_alnum())) == ascii_alnums(s),
    decreases s.len(),
{
    let p = non_alnum();
    if s.len() == 0 {
        let one = split_where(s, p);
        assert(one.drop_last() =~= Seq::<Seq<char>>::empty());
        assert(glued(one.drop_last()) =~= Seq::<char>::empty());
        assert(glued(one) =~= Seq::<char>::empty());
    } else {
        let t = s.drop_last();
        assert forall|i: int| 0 <= i < t.len() implies (#[trigger] t[i] as u32) < 128 by {
            assert(t[i] == s[i]);
        }
        lemma_glued_pieces(t);
        crate::text::lemma_split_nonempty(t, p);
        let c = s[s.len() - 1];
        assert((c as u32) < 128);
        let done = split_where(t, p);
        if p(c) {
            assert(done.push(Seq::empty()).drop_last() =~= done);
            assert(glued(done.push(Seq::empty())) =~= glued(done));
        } else {
            let last = done.last().push(c);
            assert(done.drop_last().push(last).drop_last() =~= done.drop_last());
            assert(glued(done.drop_last().push(last)) =~= glued(done).push(c));
        }
    }
}

proof fn lemma_lowered_ascii(w: Seq<char>)
    requires
        is_ascii_text(w),
    ensures
        crate::fold::lowered(w) == lower_seq(w),
    decreases w.len(),
{
    if w.len() > 0 {
        let v = w.drop_last();
        assert forall|i: int| 0 <= i < v.len() implies (#[trigger] v[i] as u32) < 128 by {
            assert(v[i] == w[i]);
        }
        lemma_lowered_ascii(v);
        assert((w[w.len() - 1] as u32) < 128);
        assert(crate::unicode::lower_of(w.last()) =~= seq![lower_char(w.last())]);
    }
    assert(crate::fold::lowered(w) =~= lower_seq(w));
}

proof fn lemma_glued_ascii(ws: Seq<Seq<char>>)
    requires
        is_ascii_text(glued(ws)),
    ensures
        glued(ws.map_values(|w: Seq<char>| crate::fold::lowered(w))) == lower_seq(glued(ws)),
    decreases ws.len(),
{
    let f = |w: Seq<char>| crate::fold::lowered(w);
    if ws.len() > 0 {
        let front = ws.drop_last();
        let g = glued(front);
        let all = glued(ws);
        assert forall|i: int| 0 <= i < g.len() implies (#[trigger] g[i] as u32) < 128 by {
            assert(all[i] == g[i]);
        }
        assert forall|i: int| 0 <= i < ws.last().len() implies (#[trigger] ws.last()[i] as u32) < 128 by {
            assert(all[g.len() + i] == ws.last()[i]);
        }
        lemma_glued_ascii(front);
        lemma_lowered_ascii(ws.last());
        assert(ws.map_values(f).drop_last() =~= front.map_values(f));
        assert(lower_seq(all) =~= lower_seq(g) + lower_seq(ws.last()));
    } else {
        assert(ws.map_values(f) =~= Seq::<Seq<char>>::empty());
        assert(lower_seq(glued(ws)) =~= Seq::<char>::empty());
    }
}

proof fn lemma_alnums_are_ascii(s: Seq<char>)
    ensures
        is_ascii_text(ascii_alnums(s)),
        ascii_alnums(s).len() == 0 <==> forall|i: int| 0 <= i < s.len() ==> !is_ascii_alnum(
            #[trigger] s[i],
        ),
    decreases s.len(),
{
    if s.len() > 0 {
        let t = s.drop_last();
        lemma_alnums_are_ascii(t);
        assert(s.last() == s[s.len() - 1]);
        if forall|i: int| 0 <= i < s.len() ==> !is_ascii_alnum(#[trigger] s[i]) {
            assert forall|i: int| 0 <= i < t.len() implies !is_ascii_alnum(#[trigger] t[i]) by {
                assert(t[i] == s[i]);
            }
        }
        if ascii_alnums(s).len() == 0 {
            assert forall|i: int| 0 <= i < s.len() implies !is_ascii_alnum(#[trigger] s[i]) by {
                if i < t.len() {
                    assert(t[i] == s[i]);
                }
            }
        }
    }
}

/// The words of an ASCII text are plain, and hold its letters and digits.
proof fn lemma_words_hold_alnums(s: Seq<char>)
    requires
        is_ascii_text(s),
    ensures
        plain_words(folded_words(s)),
        glued(folded_words(s)) == lower_seq(ascii_alnums(s)),
{
    law_normalised_idempotent(s);
    lemma_ascii_words(s);
    lemma_glued_pieces(s);
    let pieces = split_where(s, non_alnum());
    lemma_glued_nonempty(pieces);
    lemma_alnums_are_ascii(s);
    lemma_glued_ascii(nonempty(pieces));
}

proof fn lemma_upper_is_same(s: Seq<char>)
    ensures
        same_but_case(upper_seq(s), s),
{
    assert(lower_seq(upper_seq(s)) =~= lower_seq(s));
}

/// The normal form of an ASCII locality name has only digits, lower-case letters
/// and single inner spaces. Every letter and digit of the name survives in
/// order, in lower case. Normalising the form again, or the name in upper case,
/// gives the same form.
pub proof fn law_locality_form(s: Seq<char>)
    requires
        is_ascii_text(s),
    ensures
        is_spaced(normalised(s)),
        ascii_alnums(normalised(s)) == lower_seq(ascii_alnums(s)),
        normalised(normalised(s)) == normalised(s),
        normalised(upper_seq(s)) == normalised(s),
{
    lemma_words_hold_alnums(s);
    lemma_join_is_spaced(folded_words(s));
    law_normalised_idempotent(s);
    lemma_upper_is_same(s);
    law_case_insensitive(upper_seq(s), s);
}

proof fn lemma_split_plain(w: Seq<char>)
    requires
        forall|i: int| 0 <= i < w.len() ==> is_ascii_alnum(#[trigger] w[i]),
    ensures
        split_seq(w, ' ') == seq![w],
    decreases w.len(),
{
    if w.len() > 0 {
        let v = w.drop_last();
        assert forall|i: int| 0 <= i < v.len() implies is_ascii_alnum(#[trigger] v[i]) by {
            assert(v[i] == w[i]);
        }
        lemma_split_plain(v);
        let c = w[w.len() - 1];
        assert(is_ascii_alnum(c));
        assert(!is_char(' ')(c));
        assert(w =~= v.push(c));
    } else {
        assert(w =~= Seq::<char>::empty());
    }
    assert(split_seq(w, ' ') =~= seq![w]);
}

proof fn lemma_pieces_of_word(w: Seq<char>)
    requires
        plain_word(w),
    ensures
        nonempty(split_seq(w, ' ')) == seq![w],
{
    lemma_split_plain(w);
    let one = seq![w];
    assert(one.drop_last() =~= Seq::<Seq<char>>::empty());
    assert(nonempty(one.drop_last()) =~= Seq::<Seq<char>>::empty());
    assert(nonempty(one) =~= one);
}

proof fn lemma_pieces_of_join(ws: Seq<Seq<char>>)
    requires
        plain_words(ws),
    ensures
        nonempty(split_seq(join(ws, seq![' ']), ' ')) == ws,
    decreases ws.len(),
{
    let sep = seq![' '];
    if ws.len() == 0 {
        let one = split_seq(join(ws, sep), ' ');
        assert(one =~= seq![Seq::<char>::empty()]);
        assert(one.drop_last() =~= Seq::<Seq<char>>::empty());
        assert(nonempty(one.drop_last()) =~= Seq::<Seq<char>>::empty());
        assert(nonempty(one) =~= ws);
    } else {
        let front = ws.drop_last();
        let w = ws[ws.len() - 1];
        assert(plain_word(w));
        lemma_pieces_of_word(w);
        if ws.len() == 1 {
            assert(ws =~= seq![w]);
        } else {
            assert forall|i: int| 0 <= i < front.len() implies plain_word(#[trigger] front[i]) by {
                assert(plain_word(ws[i]));
            }
            lemma_pieces_of_join(front);
            let t = join(front, sep);
            lemma_split_concat(t, ' ', w, is_char(' '));
            lemma_nonempty_concat(split_seq(t, ' '), split_seq(w, ' '));
            assert(join(ws, sep) =~= t.push(' ') + w);
            assert(ws =~= front + seq![w]);
        }
    }
}

proof fn lemma_collapsed_plain(ws: Seq<Seq<char>>)
    requires
        plain_words(ws),
    ensures
        plain_words(collapsed(ws)),
{
    reveal_strlit("st");
    reveal_strlit("mt");
    reveal_strlit("ft");
    reveal_strlit("street");
    assert forall|i: int| 0 <= i < collapsed(ws).len() implies plain_word(
        #[trigger] collapsed(ws)[i],
    ) by {
        assert(plain_word(ws[i]));
    }
}

/// The words of the normal form of a name.
spec fn key_words(q: Seq<char>) -> Seq<Seq<char>> {
    let ws = folded_words(q);
    if ws.len() < 2 {
        ws
    } else {
        collapsed(ws)
    }
}

proof fn lemma_key_words(q: Seq<char>)
    requires
        is_ascii_text(q),
    ensures
        plain_words(key_words(q)),
        name_key(q) == join(key_words(q), seq![' ']),
        with_abbreviations(name_key(q)) == name_key(q),
{
    law_normalised_idempotent(q);
    let ws = folded_words(q);
    lemma_pieces_of_join(ws);
    lemma_collapsed_plain(ws);
    lemma_pieces_of_join(key_words(q));
    law_collapsed_idempotent(ws);
}

/// The normal form of an ASCII name has only digits, lower-case letters and
/// single inner spaces. It is empty just where the name has no letter or digit.
/// Normalising the form again, or the name in upper case, gives the same form.
pub proof fn law_key_form(q: Seq<char>)
    requires
        is_ascii_text(q),
    ensures
        is_spaced(name_key(q)),
        name_key(q).len() == 0 <==> forall|i: int| 0 <= i < q.len() ==> !is_ascii_alnum(
            #[trigger] q[i],
        ),
        name_key(name_key(q)) == name_key(q),
        name_key(upper_seq(q)) == name_key(q),
{
    lemma_key_words(q);
    lemma_words_hold_alnums(q);
    lemma_alnums_are_ascii(q);
    let ws = folded_words(q);
    lemma_join_is_spaced(ws);
    lemma_join_is_spaced(key_words(q));
    lemma_words_of_join(key_words(q));
    if ws.len() > 0 {
        assert(plain_word(ws[ws.len() - 1]));
        assert(glued(ws).len() > 0);
    }
    lemma_upper_is_same(q);
    law_case_insensitive(upper_seq(q), q);
}

} // verus!
