//! Lines of text.
use vstd::prelude::*;
use crate::fold::lemma_split_concat;
use crate::text::{
    is_char, law_one_piece_without_separators, law_separator_ends_a_piece, lemma_split_nonempty,
    split_on, split_seq, split_where, sub_chars, views,
};

verus! {

broadcast use vstd::seq::group_seq_axioms;

/// A line without the carriage return at its end.
pub open spec fn without_cr(s: Seq<char>) -> Seq<char> {
    if s.len() > 0 && s.last() == '\r' {
        s.drop_last()
    } else {
        s
    }
}

pub open spec fn cut_cr() -> spec_fn(Seq<char>) -> Seq<char> {
    |s: Seq<char>| without_cr(s)
}

/// The lines of a text (`str::lines`): each ends with a line feed, or with a
/// carriage return and a line feed; the last may end with the text.
pub open spec fn lines_seq(s: Seq<char>) -> Seq<Seq<char>> {
    let pieces = split_seq(s, '\n');
    let ended = pieces.drop_last().map_values(cut_cr());
    if pieces.last().len() == 0 {
        ended
    } else {
        ended.push(pieces.last())
    }
}

/// Splits a text into lines.
pub fn lines_of(v: &[char]) -> (r: Vec<Vec<char>>)
    ensures
        views(r@) == lines_seq(v@),
{
    let pieces = split_on(v, '\n');
    proof {
        lemma_split_nonempty(v@, is_char('\n'));
    }
    let ghost all = views(pieces@);
    assert(all.len() == pieces@.len());
    let last: usize = pieces.len() - 1;
    let mut out: Vec<Vec<char>> = Vec::new();
    for i in 0..last
        invariant
            last == pieces@.len() - 1,
            all == views(pieces@),
            views(out@) == all.drop_last().map_values(cut_cr()).take(i as int),
    {
        let p = &pieces[i];
        let ghost before = views(out@);
        let n: usize = p.len();
        if n > 0 && p[n - 1] == '\r' {
            let line = sub_chars(p, 0, n - 1);
            assert(line@ =~= p@.drop_last());
            out.push(line);
        } else {
            let line = sub_chars(p, 0, n);
            assert(line@ =~= p@);
            out.push(line);
        }
        assert(all[i as int] == p@);
        assert(views(out@) =~= before.push(without_cr(p@)));
        assert(views(out@) =~= all.drop_last().map_values(cut_cr()).take(i + 1));
    }
    let ghost ended = all.drop_last().map_values(cut_cr());
    assert(ended.take(last as int) =~= ended);
    let p = &pieces[last];
    assert(all.last() == p@);
    if p.len() > 0 {
        let line = sub_chars(p, 0, p.len());
        assert(line@ =~= p@);
        out.push(line);
        assert(views(out@) =~= ended.push(p@));
    }
    out
}

/// Lines, each with a line feed behind it.
pub open spec fn written_lines(ls: Seq<Seq<char>>) -> Seq<char>
    decreases ls.len(),
{
    if ls.len() == 0 {
        Seq::empty()
    } else {
        written_lines(ls.drop_last()) + ls.last().push('\n')
    }
}

/// Whether a text is one line.
pub open spec fn is_line(s: Seq<char>) -> bool {
    &&& forall|i: int| 0 <= i < s.len() ==> #[trigger] s[i] != '\n'
    &&& s.len() > 0 ==> s.last() != '\r'
}

proof fn lemma_one_piece(s: Seq<char>)
    requires
        forall|i: int| 0 <= i < s.len() ==> #[trigger] s[i] != '\n',
    ensures
        split_where(s, is_char('\n')) == seq![s],
    decreases s.len(),
{
    if s.len() > 0 {
        let t = s.drop_last();
        assert forall|i: int| 0 <= i < t.len() implies #[trigger] t[i] != '\n' by {
            assert(t[i] == s[i]);
        }
        lemma_one_piece(t);
        assert(s[s.len() - 1] != '\n');
        assert(t.push(s.last()) =~= s);
        assert(split_where(s, is_char('\n')) =~= seq![s]);
    } else {
        assert(s =~= Seq::<char>::empty());
    }
}

proof fn lemma_written_pieces(ls: Seq<Seq<char>>)
    requires
        forall|i: int| 0 <= i < ls.len() ==> is_line(#[trigger] ls[i]),
    ensures
        split_seq(written_lines(ls), '\n') == ls.push(Seq::empty()),
    decreases ls.len(),
{
    let p = is_char('\n');
    if ls.len() > 0 {
        let front = ls.drop_last();
        assert forall|i: int| 0 <= i < front.len() implies is_line(#[trigger] front[i]) by {
            assert(front[i] == ls[i]);
        }
        lemma_written_pieces(front);
        let l = ls[ls.len() - 1];
        assert(is_line(l));
        lemma_one_piece(l);
        let head = written_lines(front);
        if front.len() == 0 {
            assert(head =~= Seq::<char>::empty());
            lemma_split_concat(l, '\n', Seq::empty(), p);
            assert(written_lines(ls) =~= l.push('\n') + Seq::<char>::empty());
            assert(split_where(Seq::<char>::empty(), p) =~= seq![Seq::<char>::empty()]);
            assert(split_seq(written_lines(ls), '\n') =~= ls.push(Seq::empty()));
        } else {
            // The front ends with a line feed.
            let body = head.drop_last();
            lemma_ends_with_feed(front);
            assert(head =~= body.push('\n') + Seq::<char>::empty());
            lemma_split_concat(body, '\n', Seq::empty(), p);
            assert(split_where(Seq::<char>::empty(), p) =~= seq![Seq::<char>::empty()]);
            assert(split_where(body, p) =~= front) by {
                assert(split_where(head, p) == front.push(Seq::empty()));
                assert(split_where(head, p).drop_last() =~= front);
                assert((split_where(body, p) + seq![Seq::<char>::empty()]).drop_last()
                    =~= split_where(body, p));
            }
            let tail = l.push('\n');
            assert(written_lines(ls) =~= body.push('\n') + tail);
            lemma_split_concat(body, '\n', tail, p);
            lemma_split_concat(l, '\n', Seq::empty(), p);
            assert(tail =~= l.push('\n') + Seq::<char>::empty());
            assert(split_seq(written_lines(ls), '\n') =~= ls.push(Seq::empty()));
        }
    } else {
        assert(written_lines(ls) =~= Seq::<char>::empty());
        assert(split_seq(written_lines(ls), '\n') =~= ls.push(Seq::empty()));
    }
}

proof fn lemma_ends_with_feed(ls: Seq<Seq<char>>)
    requires
        ls.len() > 0,
    ensures
        written_lines(ls).len() > 0,
        written_lines(ls).last() == '\n',
{
    assert(written_lines(ls) =~= (written_lines(ls.drop_last()) + ls.last()).push('\n'));
}

/// Lines that are written are read back.
pub proof fn law_written_lines_read_back(ls: Seq<Seq<char>>)
    requires
        forall|i: int| 0 <= i < ls.len() ==> is_line(#[trigger] ls[i]),
    ensures
        lines_seq(written_lines(ls)) == ls,
{
    lemma_written_pieces(ls);
    let pieces = ls.push(Seq::<char>::empty());
    assert(pieces.drop_last() =~= ls);
    assert forall|i: int| 0 <= i < ls.len() implies without_cr(#[trigger] ls[i]) == ls[i] by {
        assert(is_line(ls[i]));
    }
    assert(ls.map_values(cut_cr()) =~= ls);
}

/// A line ends at a line feed, with or without a carriage return before it; the
/// last line needs no end.
pub proof fn law_line_feed_ends_a_line(line: Seq<char>, rest: Seq<char>)
    requires
        is_line(line),
    ensures
        lines_seq(line.push('\n') + rest) == seq![line] + lines_seq(rest),
        lines_seq(line.push('\r').push('\n') + rest) == seq![line] + lines_seq(rest),
        line.len() > 0 ==> lines_seq(line) == seq![line],
        lines_seq(Seq::empty()).len() == 0,
{
    let full = line.push('\r');
    assert forall|i: int| 0 <= i < full.len() implies #[trigger] full[i] != '\n' by {
        if i < line.len() {
            assert(full[i] == line[i]);
        }
    }
    lemma_first_line(line, rest);
    lemma_first_line(full, rest);
    assert(without_cr(line) =~= line);
    assert(without_cr(full) =~= line);
    law_one_piece_without_separators(line, '\n');
    assert(seq![line].drop_last() =~= Seq::<Seq<char>>::empty());
    assert(seq![line].drop_last().map_values(cut_cr()) =~= Seq::<Seq<char>>::empty());
    if line.len() > 0 {
        assert(lines_seq(line) =~= seq![line]);
    }
    let none = Seq::<char>::empty();
    law_one_piece_without_separators(none, '\n');
    assert(seq![none].drop_last().map_values(cut_cr()) =~= Seq::<Seq<char>>::empty());
    assert(lines_seq(none) =~= Seq::<Seq<char>>::empty());
}

proof fn lemma_first_line(line: Seq<char>, rest: Seq<char>)
    requires
        forall|i: int| 0 <= i < line.len() ==> #[trigger] line[i] != '\n',
    ensures
        lines_seq(line.push('\n') + rest) == seq![without_cr(line)] + lines_seq(rest),
{
    let nl = '\n';
    assert(line.push(nl) + rest =~= line + seq![nl] + rest);
    law_separator_ends_a_piece(line, nl, rest);
    law_one_piece_without_separators(line, nl);
    lemma_split_nonempty(rest, is_char(nl));
    let tail = split_seq(rest, nl);
    let all = seq![line] + tail;
    assert(all.drop_last() =~= seq![line] + tail.drop_last());
    assert(all.last() == tail.last());
    assert(all.drop_last().map_values(cut_cr()) =~= seq![without_cr(line)]
        + tail.drop_last().map_values(cut_cr()));
    let ended = tail.drop_last().map_values(cut_cr());
    if tail.last().len() == 0 {
        assert(lines_seq(line.push(nl) + rest) =~= seq![without_cr(line)] + ended);
    } else {
        assert((seq![without_cr(line)] + ended).push(tail.last()) =~= seq![without_cr(line)]
            + ended.push(tail.last()));
    }
}

} // verus!
