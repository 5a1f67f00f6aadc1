//! H3 cells on a response: which resolutions a request asks for, and the map
//! that answers it.
use vstd::prelude::*;
use crate::text::{
    append_chars, append_str, chars_of, decimal, decimal_chars, lemma_lex_irreflexive,
    lemma_lex_total, lemma_lex_transitive, lex_less, lex_lt, parse_uint, parse_uint_seq, split_on,
    split_seq, str_eq, string_of, trim_chars, trim_seq, views,
};

verus! {

broadcast use vstd::seq::group_seq_axioms;

/// Most resolutions in one request.
pub const MAX_RESOLUTIONS: usize = 4;

/// A string in the debug format of `str`.
pub uninterp spec fn debug_text(s: Seq<char>) -> Seq<char>;

/// `str` in its debug format: in double quotes, with escapes as the standard
/// library writes them.
#[verifier::external_body]
pub(crate) fn debug_string(s: &str) -> (r: String)
    ensures
        r@ == debug_text(s@),
{
    format!("{:?}", s)
}

/// What is wrong with a list of resolutions.
pub open spec fn not_an_integer(t: Seq<char>) -> Seq<char> {
    "h3_res: "@ + debug_text(t) + " is not a valid integer (0–15)"@
}

pub open spec fn out_of_range(n: nat) -> Seq<char> {
    "h3_res: "@ + decimal(n) + " is out of range 0–15"@
}

pub open spec fn too_many(n: nat) -> Seq<char> {
    "h3_res: too many resolutions ("@ + decimal(n) + ", max 4)"@
}

/// The resolutions that the first `n` tokens of a list name, or the first
/// error among them. Blank tokens do not count.
pub open spec fn token_resolutions(tokens: Seq<Seq<char>>, n: int) -> Result<Seq<u8>, Seq<char>>
    decreases n,
{
    if n <= 0 {
        Ok(Seq::empty())
    } else {
        match token_resolutions(tokens, n - 1) {
            Err(e) => Err(e),
            Ok(done) => {
                let t = trim_seq(tokens[n - 1]);
                if t.len() == 0 {
                    Ok(done)
                } else {
                    match parse_uint_seq(t, 255) {
                        None => Err(not_an_integer(t)),
                        Some(v) => if v > 15 {
                            Err(out_of_range(v))
                        } else {
                            Ok(done.push(v as u8))
                        },
                    }
                }
            },
        }
    }
}

/// The resolutions that a request asks for, or what is wrong with it.
pub open spec fn resolutions(raw: Seq<char>) -> Result<Seq<u8>, Seq<char>> {
    let t = trim_seq(raw);
    if t.len() == 0 {
        Ok(Seq::empty())
    } else {
        let tokens = split_seq(t, ',');
        match token_resolutions(tokens, tokens.len() as int) {
            Err(e) => Err(e),
            Ok(list) => if list.len() > MAX_RESOLUTIONS {
                Err(too_many(list.len()))
            } else {
                Ok(list)
            },
        }
    }
}

proof fn lemma_token_error_sticks(tokens: Seq<Seq<char>>, i: int, n: int)
    requires
        i <= n,
        token_resolutions(tokens, i) is Err,
    ensures
        token_resolutions(tokens, n) == token_resolutions(tokens, i),
    decreases n - i,
{
    if i < n {
        lemma_token_error_sticks(tokens, i, n - 1);
    }
}

/// Reads a comma-separated list of resolutions.
pub fn parse_h3_res(raw: &str) -> (r: Result<Vec<u8>, String>)
    ensures
        match r {
            Ok(v) => resolutions(raw@) == Ok::<Seq<u8>, Seq<char>>(v@),
            Err(e) => resolutions(raw@) == Err::<Seq<u8>, Seq<char>>(e@),
        },
{
    let t = trim_chars(&chars_of(raw));
    let mut out: Vec<u8> = Vec::new();
    if t.len() == 0 {
        return Ok(out);
    }
    let pieces = split_on(&t, ',');
    let ghost tokens = views(pieces@);
    for i in 0..pieces.len()
        invariant
            t@ == trim_seq(raw@),
            t@.len() > 0,
            tokens == split_seq(t@, ','),
            tokens == views(pieces@),
            token_resolutions(tokens, i as int) == Ok::<Seq<u8>, Seq<char>>(out@),
    {
        let tok = trim_chars(&pieces[i]);
        assert(tokens[i as int] == pieces@[i as int]@);
        if tok.len() > 0 {
            match parse_uint(&tok, 255) {
                None => {
                    let mut m: Vec<char> = Vec::new();
                    append_str(&mut m, "h3_res: ");
                    append_str(&mut m, debug_string(string_of(&tok).as_str()).as_str());
                    append_str(&mut m, " is not a valid integer (0–15)");
                    assert(m@ =~= not_an_integer(tok@));
                    proof {
                        lemma_token_error_sticks(tokens, i + 1, tokens.len() as int);
                    }
                    return Err(string_of(&m));
                },
                Some(v) => {
                    if v > 15 {
                        let mut m: Vec<char> = Vec::new();
                        append_str(&mut m, "h3_res: ");
                        append_chars(&mut m, &decimal_chars(v));
                        append_str(&mut m, " is out of range 0–15");
                        assert(m@ =~= out_of_range(v as nat));
                        proof {
                            lemma_token_error_sticks(tokens, i + 1, tokens.len() as int);
                        }
                        return Err(string_of(&m));
                    }
                    out.push(v as u8);
                },
            }
        }
    }
    if out.len() > MAX_RESOLUTIONS {
        let mut m: Vec<char> = Vec::new();
        append_str(&mut m, "h3_res: too many resolutions (");
        append_chars(&mut m, &decimal_chars(out.len() as u64));
        append_str(&mut m, ", max 4)");
        assert(m@ =~= too_many(out@.len()));
        return Err(string_of(&m));
    }
    Ok(out)
}

// --- The map of a response ---
/// The cell at one of the resolutions asked for; none where there is no cell.
pub struct H3Answer {
    pub res: u8,
    pub cell: Option<String>,
}

/// An entry of the map: a resolution, in decimal, and its cell.
pub struct H3Entry {
    pub res: String,
    pub cell: String,
}

/// The cell that the first `n` answers give a resolution; the last counts.
pub open spec fn answered(answers: Seq<H3Answer>, res: u8, n: int) -> Option<Seq<char>>
    decreases n,
{
    if n <= 0 {
        None
    } else if answers[n - 1].res == res && answers[n - 1].cell is Some {
        Some(answers[n - 1].cell->0@)
    } else {
        answered(answers, res, n - 1)
    }
}

/// Whether the entries are exactly the cells answered, in the order of their
/// keys.
pub open spec fn is_h3_map(entries: Seq<H3Entry>, answers: Seq<H3Answer>, n: int) -> bool {
    &&& forall|i: int, j: int|
        0 <= i < j < entries.len() ==> lex_lt(
            #[trigger] entries[i].res@,
            #[trigger] entries[j].res@,
        )
    &&& forall|i: int| 0 <= i < entries.len() ==> #[trigger] is_answer(entries[i], answers, n)
    &&& forall|res: u8| #[trigger]
        answered(answers, res, n) is Some ==> has_key(entries, decimal(res as nat))
}

pub open spec fn is_answer(e: H3Entry, answers: Seq<H3Answer>, n: int) -> bool {
    exists|res: u8| e.res@ == decimal(res as nat) && #[trigger] answered(answers, res, n) == Some(
        e.cell@,
    )
}

pub open spec fn has_key(entries: Seq<H3Entry>, key: Seq<char>) -> bool {
    exists|i: int| 0 <= i < entries.len() && #[trigger] entries[i].res@ == key
}

proof fn lemma_decimal_injective(a: nat, b: nat)
    requires
        decimal(a) == decimal(b),
    ensures
        a == b,
{
    crate::text::lemma_decimal_round_trip(a);
    crate::text::lemma_decimal_round_trip(b);
}

/// Puts a cell into the map.
fn put(entries: &mut Vec<H3Entry>, res: u8, cell: &str, Ghost(answers): Ghost<Seq<H3Answer>>, Ghost(
    n,
): Ghost<int>)
    requires
        0 <= n < answers.len(),
        is_h3_map(old(entries)@, answers, n),
        answers[n].res == res,
        answers[n].cell matches Some(c) && c@ == cell@,
    ensures
        is_h3_map(final(entries)@, answers, n + 1),
        final(entries)@.len() > 0,
{
    let key = decimal_chars(res as u64);
    let ghost before = entries@;
    let mut at: usize = 0;
    while at < entries.len() && lex_less(&chars_of(entries[at].res.as_str()), &key)
        invariant
            entries@ == before,
            at <= entries@.len(),
            key@ == decimal(res as nat),
            forall|i: int| 0 <= i < at ==> lex_lt(#[trigger] entries@[i].res@, key@),
        decreases entries@.len() - at,
    {
        at += 1;
    }
    let entry = H3Entry { res: string_of(&key), cell: cell.to_owned() };
    let same = at < entries.len() && str_eq(entries[at].res.as_str(), entry.res.as_str());
    if same {
        entries.set(at, entry);
    } else {
        entries.insert(at, entry);
    }
    proof {
        let after = entries@;
        let k = at as int;
        assert(after[k].res@ == key@ && after[k].cell@ == cell@);
        assert(answered(answers, res, n + 1) == Some(cell@));
        if !same && k < before.len() {
            lemma_lex_total(before[k].res@, key@);
            assert(lex_lt(key@, before[k].res@));
        }
        assert forall|i: int, j: int| 0 <= i < j < after.len() implies lex_lt(
            #[trigger] after[i].res@,
            #[trigger] after[j].res@,
        ) by {
            if same {
                assert(after[i].res@ == before[i].res@ && after[j].res@ == before[j].res@);
            } else {
                if i < k && j == k {
                    assert(after[i] == before[i]);
                } else if i < k && j > k {
                    assert(after[i] == before[i] && after[j] == before[j - 1]);
                } else if i == k {
                    assert(after[j] == before[j - 1]);
                    if j - 1 > k {
                        assert(lex_lt(before[k].res@, before[j - 1].res@));
                        lemma_lex_transitive(key@, before[k].res@, before[j - 1].res@);
                    }
                } else if i > k {
                    assert(after[i] == before[i - 1] && after[j] == before[j - 1]);
                } else {
                    assert(after[i] == before[i] && after[j] == before[j]);
                }
            }
        }
        assert forall|i: int| 0 <= i < after.len() implies #[trigger] is_answer(after[i], answers, n + 1) by {
            if i == k {
                assert(after[i].res@ == decimal(res as nat));
            } else {
                let o = if same || i < k {
                    i
                } else {
                    i - 1
                };
                assert(after[i] == before[o]);
                assert(is_answer(before[o], answers, n));
                let r2 = choose|r2: u8|
                    before[o].res@ == decimal(r2 as nat) && #[trigger] answered(answers, r2, n)
                        == Some(before[o].cell@);
                if r2 == res {
                    if i < k {
                        assert(lex_lt(before[o].res@, key@));
                    } else {
                        assert(lex_lt(after[k].res@, after[i].res@));
                    }
                    lemma_lex_irreflexive(key@);
                }
                assert(answered(answers, r2, n + 1) == answered(answers, r2, n));
            }
        }
        assert forall|r2: u8| #[trigger] answered(answers, r2, n + 1) is Some implies has_key(
            after,
            decimal(r2 as nat),
        ) by {
            if r2 == res {
                assert(after[k].res@ == decimal(r2 as nat));
            } else {
                assert(answered(answers, r2, n) is Some);
                assert(has_key(before, decimal(r2 as nat)));
                let i = choose|i: int|
                    0 <= i < before.len() && #[trigger] before[i].res@ == decimal(r2 as nat);
                if same {
                    if i == k {
                        lemma_decimal_injective(r2 as nat, res as nat);
                    }
                    assert(after[i] == before[i]);
                } else if i < k {
                    assert(after[i] == before[i]);
                } else {
                    assert(after[i + 1] == before[i]);
                }
            }
        }
    }
}

/// The map of the cells answered, one entry for each resolution with a cell,
/// in the order of the keys as text; none where there is no cell.
pub fn build_h3_map(answers: &[H3Answer]) -> (r: Option<Vec<H3Entry>>)
    ensures
        match r {
            Some(entries) => entries@.len() > 0 && is_h3_map(
                entries@,
                answers@,
                answers@.len() as int,
            ),
            None => forall|i: int| 0 <= i < answers@.len() ==> (#[trigger] answers@[i]).cell is None,
        },
{
    let mut out: Vec<H3Entry> = Vec::new();
    for i in 0..answers.len()
        invariant
            is_h3_map(out@, answers@, i as int),
            out@.len() == 0 ==> forall|j: int| 0 <= j < i ==> (#[trigger] answers@[j]).cell is None,
    {
        match &answers[i].cell {
            Some(cell) => {
                put(&mut out, answers[i].res, cell.as_str(), Ghost(answers@), Ghost(i as int));
            },
            None => {
                assert forall|k: int| 0 <= k < out@.len() implies #[trigger] is_answer(
                    out@[k],
                    answers@,
                    i + 1,
                ) by {
                    assert(is_answer(out@[k], answers@, i as int));
                    let res = choose|res: u8|
                        out@[k].res@ == decimal(res as nat) && #[trigger] answered(
                            answers@,
                            res,
                            i as int,
                        ) == Some(out@[k].cell@);
                    assert(answered(answers@, res, i + 1) == answered(answers@, res, i as int));
                }
                assert forall|res: u8| #[trigger] answered(answers@, res, i + 1) is Some implies has_key(
                    out@,
                    decimal(res as nat),
                ) by {
                    assert(answered(answers@, res, i as int) is Some);
                }
            },
        }
    }
    if out.len() == 0 {
        None
    } else {
        Some(out)
    }
}

// --- Lists of numbers ---
/// The resolutions that a list of numbers asks for, or what is wrong with it.
pub open spec fn listed_resolutions(raw: Seq<u32>) -> Result<Seq<u8>, Seq<char>> {
    if raw.len() > MAX_RESOLUTIONS {
        Err(too_many(raw.len()))
    } else if exists|i: int| first_out_of_range(raw, i) {
        let i = choose|i: int| first_out_of_range(raw, i);
        Err(out_of_range(raw[i] as nat))
    } else {
        Ok(raw.map_values(|v: u32| v as u8))
    }
}

/// Whether `i` is the first place with a number that is no resolution.
pub open spec fn first_out_of_range(raw: Seq<u32>, i: int) -> bool {
    &&& 0 <= i < raw.len()
    &&& raw[i] > 15
    &&& forall|j: int| 0 <= j < i ==> #[trigger] raw[j] <= 15
}

/// Checks a list of resolutions.
pub fn validate_h3_res(raw: &[u32]) -> (r: Result<Vec<u8>, String>)
    ensures
        match r {
            Ok(v) => listed_resolutions(raw@) == Ok::<Seq<u8>, Seq<char>>(v@),
            Err(e) => listed_resolutions(raw@) == Err::<Seq<u8>, Seq<char>>(e@),
        },
{
    if raw.len() > MAX_RESOLUTIONS {
        let mut m: Vec<char> = Vec::new();
        append_str(&mut m, "h3_res: too many resolutions (");
        append_chars(&mut m, &decimal_chars(raw.len() as u64));
        append_str(&mut m, ", max 4)");
        assert(m@ =~= too_many(raw@.len()));
        return Err(string_of(&m));
    }
    let mut out: Vec<u8> = Vec::new();
    let ghost all = raw@.map_values(|v: u32| v as u8);
    for i in 0..raw.len()
        invariant
            raw@.len() <= MAX_RESOLUTIONS,
            all == raw@.map_values(|v: u32| v as u8),
            out@ == all.take(i as int),
            forall|j: int| 0 <= j < i ==> #[trigger] raw@[j] <= 15,
    {
        let v: u32 = raw[i];
        if v > 15 {
            let mut m: Vec<char> = Vec::new();
            append_str(&mut m, "h3_res: ");
            append_chars(&mut m, &decimal_chars(v as u64));
            append_str(&mut m, " is out of range 0–15");
            assert(m@ =~= out_of_range(v as nat));
            proof {
                assert(first_out_of_range(raw@, i as int));
                let k = choose|k: int| first_out_of_range(raw@, k);
                if k < i {
                    assert(raw@[k] <= 15);
                } else if k > i {
                    assert(raw@[i as int] <= 15);
                }
            }
            return Err(string_of(&m));
        }
        out.push(v as u8);
        assert(out@ =~= all.take(i + 1));
    }
    assert(all.take(raw@.len() as int) =~= all);
    Ok(out)
}

/// A list of numbers and a text are held to the same rule: what a list yields
/// is at most as many resolutions as one request may have, each from 0 to 15.
pub proof fn law_lists_obey_the_same_rule(raw: Seq<u32>)
    ensures
        listed_resolutions(raw) is Ok <==> raw.len() <= MAX_RESOLUTIONS && forall|i: int|
            0 <= i < raw.len() ==> #[trigger] raw[i] <= 15,
{
    if raw.len() <= MAX_RESOLUTIONS && exists|i: int| 0 <= i < raw.len() && #[trigger] raw[i] > 15 {
        let i = choose|i: int| 0 <= i < raw.len() && #[trigger] raw[i] > 15;
        lemma_first_out_of_range(raw, i);
    }
}

proof fn lemma_first_out_of_range(raw: Seq<u32>, i: int)
    requires
        0 <= i < raw.len(),
        raw[i] > 15,
    ensures
        exists|k: int| first_out_of_range(raw, k),
    decreases i,
{
    if exists|j: int| 0 <= j < i && #[trigger] raw[j] > 15 {
        let j = choose|j: int| 0 <= j < i && #[trigger] raw[j] > 15;
        lemma_first_out_of_range(raw, j);
    } else {
        assert forall|j: int| 0 <= j < i implies #[trigger] raw[j] <= 15 by {}
        assert(first_out_of_range(raw, i));
    }
}

/// Whether `pairs` are the cells answered, by their resolutions.
pub open spec fn is_number_map(pairs: Seq<(u32, String)>, answers: Seq<H3Answer>) -> bool {
    let n = answers.len() as int;
    &&& forall|i: int|
        0 <= i < pairs.len() ==> (#[trigger] pairs[i]).0 <= 255 && answered(
            answers,
            pairs[i].0 as u8,
            n,
        ) == Some(pairs[i].1@)
    &&& forall|res: u8| #[trigger] answered(answers, res, n) is Some ==> has_number(pairs, res)
    &&& forall|i: int, j: int|
        0 <= i < j < pairs.len() ==> (#[trigger] pairs[i]).0 != (#[trigger] pairs[j]).0
}

pub open spec fn has_number(pairs: Seq<(u32, String)>, res: u8) -> bool {
    exists|i: int| 0 <= i < pairs.len() && (#[trigger] pairs[i]).0 == res
}

/// The map of the cells answered, with the resolutions as numbers; empty where
/// there is no cell.
pub fn build_h3_numbers(answers: &[H3Answer]) -> (r: Vec<(u32, String)>)
    ensures
        is_number_map(r@, answers@),
{
    let ghost n = answers@.len() as int;
    let mut out: Vec<(u32, String)> = Vec::new();
    let entries = match build_h3_map(answers) {
        Some(e) => e,
        None => {
            proof {
                assert forall|res: u8| #[trigger] answered(answers@, res, n) is Some implies has_number(
                    out@,
                    res,
                ) by {
                    lemma_unanswered(answers@, res, n);
                }
            }
            return out;
        },
    };
    for i in 0..entries.len()
        invariant
            n == answers@.len(),
            is_h3_map(entries@, answers@, n),
            out@.len() == i,
            forall|j: int|
                0 <= j < i ==> (#[trigger] out@[j]).0 <= 255 && entries@[j].res@ == decimal(
                    out@[j].0 as nat,
                ) && out@[j].1@ == entries@[j].cell@ && answered(answers@, out@[j].0 as u8, n)
                    == Some(out@[j].1@),
    {
        assert(is_answer(entries@[i as int], answers@, n));
        let key = chars_of(entries[i].res.as_str());
        proof {
            let res = choose|res: u8|
                entries@[i as int].res@ == decimal(res as nat) && #[trigger] answered(
                    answers@,
                    res,
                    n,
                ) == Some(entries@[i as int].cell@);
            crate::text::lemma_decimal_round_trip(res as nat);
            assert(key@[0] != '+');
        }
        match parse_uint(&key, u32::MAX as u64) {
            Some(v) => {
                proof {
                    let res = choose|res: u8|
                        entries@[i as int].res@ == decimal(res as nat) && #[trigger] answered(
                            answers@,
                            res,
                            n,
                        ) == Some(entries@[i as int].cell@);
                    assert(v == res);
                }
                out.push((v as u32, entries[i].cell.clone()));
            },
            None => {
                assert(false);
            },
        }
    }
    proof {
        assert forall|i: int, j: int| 0 <= i < j < out@.len() implies (#[trigger] out@[i]).0 != (
        #[trigger] out@[j]).0 by {
            assert(lex_lt(entries@[i].res@, entries@[j].res@));
            lemma_lex_irreflexive(entries@[i].res@);
        }
        assert forall|res: u8| #[trigger] answered(answers@, res, n) is Some implies has_number(
            out@,
            res,
        ) by {
            assert(has_key(entries@, decimal(res as nat)));
            let i = choose|i: int|
                0 <= i < entries@.len() && #[trigger] entries@[i].res@ == decimal(res as nat);
            assert(entries@[i].res@ == decimal(out@[i].0 as nat));
            lemma_decimal_injective(res as nat, out@[i].0 as nat);
            assert(out@[i].0 == res);
        }
    }
    out
}

proof fn lemma_unanswered(answers: Seq<H3Answer>, res: u8, n: int)
    requires
        0 <= n <= answers.len(),
        forall|i: int| 0 <= i < answers.len() ==> (#[trigger] answers[i]).cell is None,
    ensures
        answered(answers, res, n) is None,
    decreases n,
{
    if n > 0 {
        lemma_unanswered(answers, res, n - 1);
    }
}

/// The map has, for each resolution, the last cell that was answered for it, under
/// the resolution in decimal.
pub proof fn law_map_has_the_last_answer(
    entries: Seq<H3Entry>,
    answers: Seq<H3Answer>,
    i: int,
    cell: String,
)
    requires
        is_h3_map(entries, answers, answers.len() as int),
        0 <= i < answers.len(),
        answers[i].cell == Some(cell),
        forall|j: int|
            i < j < answers.len() ==> (#[trigger] answers[j]).res != answers[i].res
                || answers[j].cell is None,
    ensures
        exists|k: int|
            0 <= k < entries.len() && (#[trigger] entries[k]).res@ == decimal(
                answers[i].res as nat,
            ) && entries[k].cell@ == cell@,
{
    let n = answers.len() as int;
    let res = answers[i].res;
    lemma_last_answer(answers, i, n);
    assert(answered(answers, res, n) == Some(cell@));
    assert(has_key(entries, decimal(res as nat)));
    let k = choose|k: int| 0 <= k < entries.len() && #[trigger] entries[k].res@ == decimal(res as nat);
    assert(is_answer(entries[k], answers, n));
    let other = choose|other: u8|
        entries[k].res@ == decimal(other as nat) && #[trigger] answered(answers, other, n) == Some(
            entries[k].cell@,
        );
    lemma_decimal_injective(res as nat, other as nat);
}

proof fn lemma_last_answer(answers: Seq<H3Answer>, i: int, n: int)
    requires
        0 <= i < n <= answers.len(),
        answers[i].cell is Some,
        forall|j: int|
            i < j < answers.len() ==> (#[trigger] answers[j]).res != answers[i].res
                || answers[j].cell is None,
    ensures
        answered(answers, answers[i].res, n) == Some(answers[i].cell->0@),
    decreases n,
{
    if n - 1 > i {
        assert(answers[n - 1].res != answers[i].res || answers[n - 1].cell is None);
        lemma_last_answer(answers, i, n - 1);
    }
}

/// The map with numbers has, for each resolution, the last cell that was answered
/// for it.
pub proof fn law_number_map_has_the_last_answer(
    pairs: Seq<(u32, String)>,
    answers: Seq<H3Answer>,
    i: int,
    cell: String,
)
    requires
        is_number_map(pairs, answers),
        0 <= i < answers.len(),
        answers[i].cell == Some(cell),
        forall|j: int|
            i < j < answers.len() ==> (#[trigger] answers[j]).res != answers[i].res
                || answers[j].cell is None,
    ensures
        exists|k: int|
            0 <= k < pairs.len() && (#[trigger] pairs[k]).0 == answers[i].res && pairs[k].1@ == cell@,
{
    let n = answers.len() as int;
    let res = answers[i].res;
    lemma_last_answer(answers, i, n);
    assert(answered(answers, res, n) is Some);
    assert(has_number(pairs, res));
    let k = choose|k: int| 0 <= k < pairs.len() && (#[trigger] pairs[k]).0 == res;
    assert(pairs[k].0 as u8 == res);
}

} // verus!
