//! Folding of names: diacritics, case and punctuation.
use vstd::prelude::*;
use crate::text::{
    append_chars, chars_of, join, join_chars, lower_char, lower_seq, nonempty, nonempty_pieces,
    split_chars, split_where, string_of, views,
};
use crate::unicode::{is_alnum, is_alphanumeric, lower_of, to_lowercase};

verus! {

broadcast use vstd::seq::group_seq_axioms;

/// The ASCII letter under a Latin letter with a diacritic, in the same case;
/// any other character stands for itself.
pub open spec fn fold_char(c: char) -> Seq<char> {
    if c == 'á' || c == 'à' || c == 'â' || c == 'ä' || c == 'ã' || c == 'å' {
        seq!['a']
    } else if c == 'Á' || c == 'À' || c == 'Â' || c == 'Ä' || c == 'Ã' || c == 'Å' {
        seq!['A']
    } else if c == 'é' || c == 'è' || c == 'ê' || c == 'ë' {
        seq!['e']
    } else if c == 'É' || c == 'È' || c == 'Ê' || c == 'Ë' {
        seq!['E']
    } else if c == 'í' || c == 'ì' || c == 'î' || c == 'ï' {
        seq!['i']
    } else if c == 'Í' || c == 'Ì' || c == 'Î' || c == 'Ï' {
        seq!['I']
    } else if c == 'ó' || c == 'ò' || c == 'ô' || c == 'ö' || c == 'õ' || c == 'ø' {
        seq!['o']
    } else if c == 'Ó' || c == 'Ò' || c == 'Ô' || c == 'Ö' || c == 'Õ' || c == 'Ø' {
        seq!['O']
    } else if c == 'ú' || c == 'ù' || c == 'û' || c == 'ü' {
        seq!['u']
    } else if c == 'Ú' || c == 'Ù' || c == 'Û' || c == 'Ü' {
        seq!['U']
    } else if c == 'ñ' {
        seq!['n']
    } else if c == 'Ñ' {
        seq!['N']
    } else if c == 'ç' {
        seq!['c']
    } else if c == 'Ç' {
        seq!['C']
    } else if c == 'ß' {
        seq!['s', 's']
    } else {
        seq![c]
    }
}

/// Every character of `s` folded.
pub open spec fn fold_seq(s: Seq<char>) -> Seq<char>
    decreases s.len(),
{
    if s.len() == 0 {
        Seq::empty()
    } else {
        fold_seq(s.drop_last()) + fold_char(s.last())
    }
}

/// Every character of `s` in lower case.
pub open spec fn lowered(s: Seq<char>) -> Seq<char>
    decreases s.len(),
{
    if s.len() == 0 {
        Seq::empty()
    } else {
        lowered(s.drop_last()) + lower_of(s.last())
    }
}

/// The predicate that holds of what separates words.
pub open spec fn non_alnum() -> spec_fn(char) -> bool {
    |c: char| !is_alnum(c)
}

/// The words of `s`, folded and in lower case: its runs of letters and digits.
pub open spec fn folded_words(s: Seq<char>) -> Seq<Seq<char>> {
    nonempty(split_where(fold_seq(s), non_alnum())).map_values(|w: Seq<char>| lowered(w))
}

/// The folded words of `s` with single spaces between them.
pub open spec fn normalised(s: Seq<char>) -> Seq<char> {
    join(folded_words(s), seq![' '])
}

/// Folds one character into `out`.
fn push_folded(out: &mut Vec<char>, c: char)
    ensures
        final(out)@ == old(out)@ + fold_char(c),
{
    match c {
        'á' | 'à' | 'â' | 'ä' | 'ã' | 'å' => out.push('a'),
        'Á' | 'À' | 'Â' | 'Ä' | 'Ã' | 'Å' => out.push('A'),
        'é' | 'è' | 'ê' | 'ë' => out.push('e'),
        'É' | 'È' | 'Ê' | 'Ë' => out.push('E'),
        'í' | 'ì' | 'î' | 'ï' => out.push('i'),
        'Í' | 'Ì' | 'Î' | 'Ï' => out.push('I'),
        'ó' | 'ò' | 'ô' | 'ö' | 'õ' | 'ø' => out.push('o'),
        'Ó' | 'Ò' | 'Ô' | 'Ö' | 'Õ' | 'Ø' => out.push('O'),
        'ú' | 'ù' | 'û' | 'ü' => out.push('u'),
        'Ú' | 'Ù' | 'Û' | 'Ü' => out.push('U'),
        'ñ' => out.push('n'),
        'Ñ' => out.push('N'),
        'ç' => out.push('c'),
        'Ç' => out.push('C'),
        'ß' => {
            out.push('s');
            out.push('s');
        },
        _ => out.push(c),
    }
    assert(out@ =~= old(out)@ + fold_char(c));
}

/// The ASCII spelling of one character.
pub fn ascii_fold_char(ch: char) -> (r: String)
    ensures
        r@ == fold_char(ch),
{
    let mut out: Vec<char> = Vec::new();
    push_folded(&mut out, ch);
    assert(out@ =~= fold_char(ch));
    string_of(&out)
}

/// Every character of `v` folded.
pub fn fold_chars(v: &[char]) -> (r: Vec<char>)
    ensures
        r@ == fold_seq(v@),
{
    let mut out: Vec<char> = Vec::new();
    for i in 0..v.len()
        invariant
            out@ == fold_seq(v@.take(i as int)),
    {
        push_folded(&mut out, v[i]);
        assert(v@.take(i + 1).drop_last() =~= v@.take(i as int));
    }
    assert(v@.take(v@.len() as int) =~= v@);
    out
}

/// Every character of `v` in lower case.
pub fn lowered_chars(v: &[char]) -> (r: Vec<char>)
    ensures
        r@ == lowered(v@),
{
    let mut out: Vec<char> = Vec::new();
    for i in 0..v.len()
        invariant
            out@ == lowered(v@.take(i as int)),
    {
        let low = to_lowercase(v[i]);
        append_chars(&mut out, &low);
        assert(v@.take(i + 1).drop_last() =~= v@.take(i as int));
    }
    assert(v@.take(v@.len() as int) =~= v@);
    out
}

/// The runs of letters and digits in `v`.
pub fn alnum_runs(v: &[char]) -> (r: Vec<Vec<char>>)
    ensures
        views(r@) == nonempty(split_where(v@, non_alnum())),
{
    let is_sep = |c: char| -> (b: bool)
        ensures
            b == !is_alnum(c),
    {
        !is_alphanumeric(c)
    };
    let pieces = split_chars(v, is_sep, Ghost(non_alnum()));
    nonempty_pieces(pieces)
}

/// The words of `s`, folded and in lower case.
pub fn folded_words_of(s: &str) -> (r: Vec<Vec<char>>)
    ensures
        views(r@) == folded_words(s@),
{
    let folded = fold_chars(&chars_of(s));
    let runs = alnum_runs(&folded);
    let mut out: Vec<Vec<char>> = Vec::new();
    for i in 0..runs.len()
        invariant
            out@.len() == i,
            forall|j: int| 0 <= j < i ==> out@[j]@ == lowered(#[trigger] runs@[j]@),
    {
        out.push(lowered_chars(&runs[i]));
    }
    assert(views(out@) =~= folded_words(s@)) by {
        let w = nonempty(split_where(fold_seq(s@), non_alnum()));
        assert(views(runs@) == w);
        assert forall|j: int| 0 <= j < out@.len() implies views(out@)[j] == folded_words(s@)[j] by {
            assert(runs@[j]@ == w[j]);
        }
    }
    out
}

/// The folded words of `s` with single spaces between them.
pub fn normalise(s: &str) -> (r: String)
    ensures
        r@ == normalised(s@),
{
    let words = folded_words_of(s);
    string_of(&join_chars(&words, ' '))
}

// --- Laws ---
pub proof fn lemma_fold_concat(a: Seq<char>, b: Seq<char>)
    ensures
        fold_seq(a + b) == fold_seq(a) + fold_seq(b),
    decreases b.len(),
{
    if b.len() == 0 {
        assert(a + b =~= a);
        assert(fold_seq(a) + fold_seq(b) =~= fold_seq(a));
    } else {
        assert((a + b).drop_last() =~= a + b.drop_last());
        lemma_fold_concat(a, b.drop_last());
        assert(fold_seq(a) + (fold_seq(b.drop_last()) + fold_char(b.last())) =~= fold_seq(a)
            + fold_seq(b.drop_last()) + fold_char(b.last()));
    }
}

pub proof fn lemma_split_concat(a: Seq<char>, x: char, b: Seq<char>, p: spec_fn(char) -> bool)
    requires
        p(x),
    ensures
        split_where(a.push(x) + b, p) == split_where(a, p) + split_where(b, p),
    decreases b.len(),
{
    let s = a.push(x) + b;
    crate::text::lemma_split_nonempty(b, p);
    if b.len() == 0 {
        assert(s.drop_last() =~= a);
        assert(s.last() == x);
        assert(split_where(b, p) =~= seq![Seq::<char>::empty()]);
        assert(split_where(s, p) =~= split_where(a, p) + split_where(b, p));
    } else {
        let c = b.drop_last();
        crate::text::lemma_split_nonempty(c, p);
        assert(s.drop_last() =~= a.push(x) + c);
        lemma_split_concat(a, x, c, p);
        let done = split_where(a, p) + split_where(c, p);
        assert(done.last() == split_where(c, p).last());
        assert(done.drop_last() =~= split_where(a, p) + split_where(c, p).drop_last());
        assert(split_where(s, p) =~= split_where(a, p) + split_where(b, p));
    }
}

pub proof fn lemma_nonempty_concat(a: Seq<Seq<char>>, b: Seq<Seq<char>>)
    ensures
        nonempty(a + b) == nonempty(a) + nonempty(b),
    decreases b.len(),
{
    if b.len() == 0 {
        assert(a + b =~= a);
        assert(nonempty(a) + nonempty(b) =~= nonempty(a));
    } else {
        assert((a + b).drop_last() =~= a + b.drop_last());
        lemma_nonempty_concat(a, b.drop_last());
        assert(nonempty(a + b) =~= nonempty(a) + nonempty(b));
    }
}

/// Punctuation only separates: the words of two texts with a separator between
/// them are the words of the one followed by the words of the other. So which
/// separator it is, and how many stand in a row, makes no difference.
pub proof fn law_separator_splits(a: Seq<char>, x: char, b: Seq<char>)
    requires
        fold_char(x) == seq![x],
        !is_alnum(x),
    ensures
        folded_words(a.push(x) + b) == folded_words(a) + folded_words(b),
{
    lemma_fold_concat(a.push(x), b);
    assert(a.push(x).drop_last() =~= a);
    let fa = fold_seq(a);
    let fb = fold_seq(b);
    assert(fold_seq(a.push(x)) =~= fa.push(x));
    lemma_split_concat(fa, x, fb, non_alnum());
    lemma_nonempty_concat(split_where(fa, non_alnum()), split_where(fb, non_alnum()));
    assert(folded_words(a.push(x) + b) =~= folded_words(a) + folded_words(b));
}

/// Two texts with the same length that agree up to the case of ASCII letters.
pub open spec fn same_but_case(a: Seq<char>, b: Seq<char>) -> bool {
    lower_seq(a) == lower_seq(b)
}

proof fn lemma_case_parts(a: Seq<char>, b: Seq<char>)
    requires
        same_but_case(a, b),
    ensures
        a.len() == b.len(),
        a.len() > 0 ==> {
            &&& same_but_case(a.drop_last(), b.drop_last())
            &&& lower_char(a.last()) == lower_char(b.last())
        },
{
    assert(lower_seq(a).len() == a.len());
    assert(lower_seq(b).len() == b.len());
    if a.len() > 0 {
        assert(lower_seq(a.drop_last()) =~= lower_seq(a).drop_last());
        assert(lower_seq(b.drop_last()) =~= lower_seq(b).drop_last());
        assert(lower_seq(a).last() == lower_seq(b).last());
    }
}

proof fn lemma_case_concat(a: Seq<char>, b: Seq<char>, x: Seq<char>, y: Seq<char>)
    requires
        same_but_case(a, b),
        same_but_case(x, y),
    ensures
        same_but_case(a + x, b + y),
{
    assert(lower_seq(a + x) =~= lower_seq(a) + lower_seq(x));
    assert(lower_seq(b + y) =~= lower_seq(b) + lower_seq(y));
}

pub proof fn lemma_fold_case(a: Seq<char>, b: Seq<char>)
    requires
        same_but_case(a, b),
    ensures
        same_but_case(fold_seq(a), fold_seq(b)),
    decreases a.len(),
{
    lemma_case_parts(a, b);
    if a.len() > 0 {
        lemma_fold_case(a.drop_last(), b.drop_last());
        let x = fold_char(a.last());
        let y = fold_char(b.last());
        assert(same_but_case(x, y)) by {
            assert(lower_seq(x) =~= lower_seq(y));
        }
        lemma_case_concat(fold_seq(a.drop_last()), fold_seq(b.drop_last()), x, y);
    }
}

/// Two lists of texts that agree up to the case of ASCII letters.
pub open spec fn all_same_but_case(a: Seq<Seq<char>>, b: Seq<Seq<char>>) -> bool {
    &&& a.len() == b.len()
    &&& forall|i: int| 0 <= i < a.len() ==> same_but_case(#[trigger] a[i], b[i])
}

pub proof fn lemma_split_case(a: Seq<char>, b: Seq<char>)
    requires
        same_but_case(a, b),
    ensures
        all_same_but_case(split_where(a, non_alnum()), split_where(b, non_alnum())),
    decreases a.len(),
{
    lemma_case_parts(a, b);
    if a.len() > 0 {
        let p = non_alnum();
        lemma_split_case(a.drop_last(), b.drop_last());
        let da = split_where(a.drop_last(), p);
        let db = split_where(b.drop_last(), p);
        crate::text::lemma_split_nonempty(a.drop_last(), p);
        assert(p(a.last()) == p(b.last()));
        assert(same_but_case(da[da.len() - 1], db[db.len() - 1]));
        if !p(a.last()) {
            let x = seq![a.last()];
            let y = seq![b.last()];
            assert(lower_seq(x) =~= lower_seq(y));
            lemma_case_concat(da.last(), db.last(), x, y);
            assert(da.last().push(a.last()) =~= da.last() + x);
            assert(db.last().push(b.last()) =~= db.last() + y);
        }
    }
}

pub proof fn lemma_nonempty_case(a: Seq<Seq<char>>, b: Seq<Seq<char>>)
    requires
        all_same_but_case(a, b),
    ensures
        all_same_but_case(nonempty(a), nonempty(b)),
    decreases a.len(),
{
    if a.len() > 0 {
        assert(same_but_case(a[a.len() - 1], b[b.len() - 1]));
        lemma_case_parts(a.last(), b.last());
        assert forall|i: int| 0 <= i < a.drop_last().len() implies same_but_case(
            #[trigger] a.drop_last()[i],
            b.drop_last()[i],
        ) by {
            assert(same_but_case(a[i], b[i]));
        }
        lemma_nonempty_case(a.drop_last(), b.drop_last());
    }
}

proof fn lemma_lowered_case(a: Seq<char>, b: Seq<char>)
    requires
        same_but_case(a, b),
    ensures
        lowered(a) == lowered(b),
    decreases a.len(),
{
    lemma_case_parts(a, b);
    if a.len() > 0 {
        lemma_lowered_case(a.drop_last(), b.drop_last());
        assert(lower_of(a.last()) =~= lower_of(b.last()));
    }
}

/// The case of ASCII letters makes no difference to the words of a text.
pub proof fn law_case_insensitive(a: Seq<char>, b: Seq<char>)
    requires
        same_but_case(a, b),
    ensures
        folded_words(a) == folded_words(b),
        normalised(a) == normalised(b),
{
    lemma_fold_case(a, b);
    lemma_split_case(fold_seq(a), fold_seq(b));
    let x = split_where(fold_seq(a), non_alnum());
    let y = split_where(fold_seq(b), non_alnum());
    lemma_nonempty_case(x, y);
    assert forall|i: int| 0 <= i < nonempty(x).len() implies folded_words(a)[i] == folded_words(
        b,
    )[i] by {
        assert(same_but_case(nonempty(x)[i], nonempty(y)[i]));
        lemma_lowered_case(nonempty(x)[i], nonempty(y)[i]);
    }
    assert(folded_words(a) =~= folded_words(b));
}

/// A word of ASCII digits and lower-case letters.
pub open spec fn plain_word(w: Seq<char>) -> bool {
    &&& w.len() > 0
    &&& forall|i: int|
        0 <= i < w.len() ==> crate::text::is_ascii_lower(#[trigger] w[i])
            || crate::text::is_ascii_digit(w[i])
}

pub open spec fn plain_words(ws: Seq<Seq<char>>) -> bool {
    forall|i: int| 0 <= i < ws.len() ==> plain_word(#[trigger] ws[i])
}

pub proof fn lemma_plain_word(w: Seq<char>)
    requires
        forall|i: int|
            0 <= i < w.len() ==> crate::text::is_ascii_lower(#[trigger] w[i])
                || crate::text::is_ascii_digit(w[i]),
    ensures
        fold_seq(w) == w,
        lowered(w) == w,
        split_where(w, non_alnum()) == seq![w],
    decreases w.len(),
{
    if w.len() > 0 {
        let v = w.drop_last();
        assert forall|i: int| 0 <= i < v.len() implies crate::text::is_ascii_lower(#[trigger] v[i])
            || crate::text::is_ascii_digit(v[i]) by {
            assert(v[i] == w[i]);
        }
        lemma_plain_word(v);
        let c = w[w.len() - 1];
        assert(crate::text::is_ascii_lower(c) || crate::text::is_ascii_digit(c));
        assert(w =~= v.push(c));
        assert(fold_seq(w) =~= w);
        assert(lowered(w) =~= w);
        assert(split_where(w, non_alnum()) =~= seq![w]);
    } else {
        assert(w =~= Seq::<char>::empty());
        assert(fold_seq(w) =~= w);
        assert(lowered(w) =~= w);
        assert(split_where(w, non_alnum()) =~= seq![w]);
    }
}

proof fn lemma_words_of_plain(w: Seq<char>)
    requires
        plain_word(w),
    ensures
        folded_words(w) == seq![w],
{
    lemma_plain_word(w);
    let one = seq![w];
    assert(one.drop_last() =~= Seq::<Seq<char>>::empty());
    assert(nonempty(one.drop_last()) =~= Seq::<Seq<char>>::empty());
    assert(nonempty(one) =~= one);
    assert(folded_words(w) =~= one);
}

pub proof fn lemma_words_of_join(ws: Seq<Seq<char>>)
    requires
        plain_words(ws),
    ensures
        folded_words(join(ws, seq![' '])) == ws,
    decreases ws.len(),
{
    let sep = seq![' '];
    if ws.len() == 0 {
        let s = join(ws, sep);
        assert(s =~= Seq::<char>::empty());
        assert(fold_seq(s) =~= Seq::<char>::empty());
        let one = split_where(fold_seq(s), non_alnum());
        assert(one =~= seq![Seq::<char>::empty()]);
        assert(one.drop_last() =~= Seq::<Seq<char>>::empty());
        assert(nonempty(one.drop_last()) =~= Seq::<Seq<char>>::empty());
        assert(nonempty(one) =~= Seq::<Seq<char>>::empty());
        assert(folded_words(s) =~= ws);
    } else if ws.len() == 1 {
        assert(plain_word(ws[0]));
        lemma_words_of_plain(ws[0]);
        assert(ws =~= seq![ws[0]]);
    } else {
        let front = ws.drop_last();
        let w = ws[ws.len() - 1];
        assert(plain_word(w));
        assert forall|i: int| 0 <= i < front.len() implies plain_word(#[trigger] front[i]) by {
            assert(plain_word(ws[i]));
        }
        lemma_words_of_join(front);
        lemma_words_of_plain(w);
        law_separator_splits(join(front, sep), ' ', w);
        assert(join(ws, sep) =~= join(front, sep).push(' ') + w);
        assert(ws =~= front + seq![w]);
    }
}

pub proof fn lemma_ascii_words(a: Seq<char>)
    requires
        forall|i: int| 0 <= i < a.len() ==> (#[trigger] a[i] as u32) < 128,
    ensures
        fold_seq(a) == a,
    decreases a.len(),
{
    if a.len() > 0 {
        let b = a.drop_last();
        assert forall|i: int| 0 <= i < b.len() implies (#[trigger] b[i] as u32) < 128 by {
            assert(b[i] == a[i]);
        }
        lemma_ascii_words(b);
        assert((a[a.len() - 1] as u32) < 128);
        assert(fold_seq(a) =~= a);
    } else {
        assert(fold_seq(a) =~= a);
    }
}

pub open spec fn ascii_alnum_pieces(ws: Seq<Seq<char>>) -> bool {
    forall|i: int, j: int|
        0 <= i < ws.len() && 0 <= j < ws[i].len() ==> crate::text::is_ascii_letter(
            #[trigger] ws[i][j],
        ) || crate::text::is_ascii_digit(ws[i][j])
}

proof fn lemma_ascii_pieces(a: Seq<char>)
    requires
        forall|i: int| 0 <= i < a.len() ==> (#[trigger] a[i] as u32) < 128,
    ensures
        ascii_alnum_pieces(split_where(a, non_alnum())),
    decreases a.len(),
{
    if a.len() > 0 {
        let b = a.drop_last();
        assert forall|i: int| 0 <= i < b.len() implies (#[trigger] b[i] as u32) < 128 by {
            assert(b[i] == a[i]);
        }
        lemma_ascii_pieces(b);
        crate::text::lemma_split_nonempty(b, non_alnum());
        let c = a[a.len() - 1];
        assert((c as u32) < 128);
        let done = split_where(b, non_alnum());
        let all = split_where(a, non_alnum());
        assert forall|i: int, j: int| 0 <= i < all.len() && 0 <= j < all[i].len() implies
            crate::text::is_ascii_letter(#[trigger] all[i][j]) || crate::text::is_ascii_digit(
            all[i][j],
        ) by {
            if i < done.len() && j < done[i].len() {
                assert(all[i][j] == done[i][j]);
            }
        }
    }
}

proof fn lemma_nonempty_members(ws: Seq<Seq<char>>)
    ensures
        forall|i: int|
            0 <= i < nonempty(ws).len() ==> (#[trigger] nonempty(ws)[i]).len() > 0 && exists|k: int|
                0 <= k < ws.len() && ws[k] == nonempty(ws)[i],
    decreases ws.len(),
{
    if ws.len() > 0 {
        let front = ws.drop_last();
        lemma_nonempty_members(front);
        assert forall|i: int| 0 <= i < nonempty(ws).len() implies (#[trigger] nonempty(ws)[i]).len() > 0
            && exists|k: int| 0 <= k < ws.len() && ws[k] == nonempty(ws)[i] by {
            if i < nonempty(front).len() {
                assert(nonempty(ws)[i] == nonempty(front)[i]);
                let k = choose|k: int| 0 <= k < front.len() && front[k] == nonempty(front)[i];
                assert(ws[k] == front[k]);
            } else {
                assert(ws[ws.len() - 1] == nonempty(ws)[i]);
            }
        }
    }
}

proof fn lemma_lowered_plain(w: Seq<char>)
    requires
        forall|j: int|
            0 <= j < w.len() ==> crate::text::is_ascii_letter(#[trigger] w[j])
                || crate::text::is_ascii_digit(w[j]),
    ensures
        lowered(w).len() == w.len(),
        forall|j: int|
            0 <= j < lowered(w).len() ==> crate::text::is_ascii_lower(#[trigger] lowered(w)[j])
                || crate::text::is_ascii_digit(lowered(w)[j]),
    decreases w.len(),
{
    if w.len() > 0 {
        let v = w.drop_last();
        assert forall|j: int| 0 <= j < v.len() implies crate::text::is_ascii_letter(#[trigger] v[j])
            || crate::text::is_ascii_digit(v[j]) by {
            assert(v[j] == w[j]);
        }
        lemma_lowered_plain(v);
        let c = w[w.len() - 1];
        assert(crate::text::is_ascii_letter(c) || crate::text::is_ascii_digit(c));
        assert(lowered(w) == lowered(v) + seq![lower_char(c)]);
    }
}

/// Normalising an ASCII text twice changes nothing more than normalising it
/// once.
pub proof fn law_normalised_idempotent(s: Seq<char>)
    requires
        forall|i: int| 0 <= i < s.len() ==> (#[trigger] s[i] as u32) < 128,
    ensures
        plain_words(folded_words(s)),
        normalised(normalised(s)) == normalised(s),
{
    lemma_ascii_words(s);
    lemma_ascii_pieces(s);
    let pieces = split_where(s, non_alnum());
    lemma_nonempty_members(pieces);
    let ws = folded_words(s);
    assert forall|i: int| 0 <= i < ws.len() implies plain_word(#[trigger] ws[i]) by {
        let w = nonempty(pieces)[i];
        let k = choose|k: int| 0 <= k < pieces.len() && pieces[k] == w;
        assert forall|j: int| 0 <= j < w.len() implies crate::text::is_ascii_letter(#[trigger] w[j])
            || crate::text::is_ascii_digit(w[j]) by {
            assert(pieces[k][j] == w[j]);
        }
        lemma_lowered_plain(w);
    }
    lemma_words_of_join(ws);
}

/// A letter of the Latin-1 block loses its diacritic and keeps its case; the
/// sharp S becomes two letters. Everything else stays, the crossed letters of
/// Icelandic and the ligatures among it.
pub proof fn law_letters_lose_their_diacritics(c: char)
    ensures
        ({
            let n = c as u32;
            let base = |m: u32| if 0xe0 <= n {
                n - 0x20 == m
            } else {
                n == m
            };
            let within = |a: u32, b: u32| if 0xe0 <= n {
                a <= n - 0x20 <= b
            } else {
                a <= n <= b
            };
            let letter = |up: char, low: char| if 0xe0 <= n {
                fold_char(c) == seq![low]
            } else {
                fold_char(c) == seq![up]
            };
            &&& 0xc0 <= n < 0x100 ==> {
                &&& within(0xc0, 0xc5) ==> letter('A', 'a')
                &&& base(0xc7) ==> letter('C', 'c')
                &&& within(0xc8, 0xcb) ==> letter('E', 'e')
                &&& within(0xcc, 0xcf) ==> letter('I', 'i')
                &&& base(0xd1) ==> letter('N', 'n')
                &&& within(0xd2, 0xd6) || base(0xd8) ==> letter('O', 'o')
                &&& within(0xd9, 0xdc) ==> letter('U', 'u')
                &&& n == 0xdf ==> fold_char(c) == seq!['s', 's']
                &&& base(0xc6) || base(0xd0) || base(0xd7) || base(0xdd) || base(0xde) || n == 0xff
                    ==> fold_char(c) == seq![c]
            }
            &&& n < 0xc0 || n >= 0x100 ==> fold_char(c) == seq![c]
        }),
{
}

} // verus!
