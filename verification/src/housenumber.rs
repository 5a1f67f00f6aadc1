//! Range-aware matching of house numbers.
//!
//! Address datasets write a house number as a single number (`"42"`, `"42A"`)
//! or as a range (`"255-257"`). A query matches a stored number when the two
//! are equal up to ASCII case, or when their numeric ranges overlap and their
//! suffix letters do not contradict each other.
use vstd::prelude::*;
use vstd::string::StrSliceExecFns;
use crate::text::{
    all_digits, chars_eq_ignore_case, chars_of, decimal, decimal_value, eq_ignore_case, first_where,
    index_of, is_ascii_digit, is_char, is_white_space, lemma_decimal_round_trip,
    lemma_decimal_value_monotone, lemma_first_where, lemma_first_where_is, lower_seq,
    split_once_seq, string_of, sub_chars, trim_bounds, trim_seq, trim_start_chars, trim_start_seq,
    trim_chars,
};

verus! {

broadcast use vstd::seq::group_seq_axioms;

/// A house number read as a range of numbers and a suffix.
pub struct ParsedHn {
    /// Lower bound of the range (the number itself for a single number).
    pub first: u32,
    /// Upper bound of the range, equal to `first` for a single number.
    pub last: u32,
    /// The suffix of the first number (`"A"` for `1327A`, empty for `1327`).
    pub suffix: String,
}

/// The mathematical content of a [`ParsedHn`].
pub struct HnRange {
    pub first: nat,
    pub last: nat,
    pub suffix: Seq<char>,
}

impl View for ParsedHn {
    type V = HnRange;

    open spec fn view(&self) -> HnRange {
        HnRange { first: self.first as nat, last: self.last as nat, suffix: self.suffix@ }
    }
}

/// The predicate that holds of everything but ASCII digits.
pub open spec fn non_digit() -> spec_fn(char) -> bool {
    |c: char| !is_ascii_digit(c)
}

/// The number that `s` begins with and the suffix behind it. There is none if
/// `s` does not begin with a digit or the number does not fit in 32 bits.
pub open spec fn digits_and_suffix(s: Seq<char>) -> Option<(nat, Seq<char>)> {
    let t = trim_start_seq(s);
    let n = first_where(t, non_digit());
    if n == 0 || decimal_value(t.take(n)) > u32::MAX {
        None
    } else {
        Some((decimal_value(t.take(n)), trim_seq(t.skip(n))))
    }
}

/// The range that a house number denotes.
pub open spec fn hn_range(s: Seq<char>) -> Option<HnRange> {
    let t = trim_seq(s);
    match split_once_seq(t, '-') {
        Some((a, b)) => match (digits_and_suffix(trim_seq(a)), digits_and_suffix(trim_seq(b))) {
            (Some((f, fs)), Some((l, _))) => Some(
                HnRange {
                    first: if f <= l {
                        f
                    } else {
                        l
                    },
                    last: if f <= l {
                        l
                    } else {
                        f
                    },
                    suffix: fs,
                },
            ),
            _ => None,
        },
        None => match digits_and_suffix(t) {
            Some((n, suffix)) => Some(HnRange { first: n, last: n, suffix }),
            None => None,
        },
    }
}

/// Whether the suffix of a query allows the stored number. A query without a
/// suffix allows every number; one with a suffix allows the same suffix, and
/// of the numbers without one only true ranges.
pub open spec fn suffix_allows(q: HnRange, s: HnRange) -> bool {
    q.suffix.len() > 0 ==> if s.suffix.len() > 0 {
        eq_ignore_case(q.suffix, s.suffix)
    } else {
        s.first != s.last
    }
}

/// Whether two ranges have a number in common.
pub open spec fn overlap(q: HnRange, s: HnRange) -> bool {
    q.first <= s.last && s.first <= q.last
}

/// Whether a queried house number matches a stored one.
pub open spec fn hn_matches(query: Seq<char>, stored: Seq<char>) -> bool {
    ||| eq_ignore_case(query, stored)
    ||| match (hn_range(query), hn_range(stored)) {
        (Some(q), Some(s)) => suffix_allows(q, s) && overlap(q, s),
        _ => false,
    }
}

/// Reads the number that `s` begins with and the suffix behind it.
fn parse_digits_and_suffix(s: &[char]) -> (r: Option<(u32, Vec<char>)>)
    ensures
        match r {
            Some((n, suffix)) => digits_and_suffix(s@) == Some((n as nat, suffix@)),
            None => digits_and_suffix(s@) is None,
        },
{
    let t = trim_start_chars(s);
    let mut acc: u32 = 0;
    let mut i: usize = 0;
    assert(t@.take(0) =~= Seq::<char>::empty());
    while i < t.len() && '0' <= t[i] && t[i] <= '9'
        invariant
            i <= t@.len(),
            t@ == trim_start_seq(s@),
            forall|j: int| 0 <= j < i ==> is_ascii_digit(#[trigger] t@[j]),
            acc == decimal_value(t@.take(i as int)),
        decreases t@.len() - i,
    {
        let next: u64 = acc as u64 * 10 + (t[i] as u64 - 48);
        assert(t@.take(i + 1).drop_last() =~= t@.take(i as int));
        if next > u32::MAX as u64 {
            proof {
                lemma_first_where(t@, non_digit());
                let n = first_where(t@, non_digit());
                assert(n > i) by {
                    if n <= i {
                        assert(is_ascii_digit(t@[n]));
                    }
                }
                lemma_decimal_value_monotone(t@.take(n), i + 1);
                assert(t@.take(n).take(i + 1) =~= t@.take(i + 1));
            }
            return None;
        }
        acc = next as u32;
        i += 1;
    }
    proof {
        lemma_first_where_is(t@, non_digit(), i as int);
    }
    if i == 0 {
        return None;
    }
    let rest = sub_chars(&t, i, t.len());
    assert(rest@ =~= t@.skip(i as int));
    Some((acc, trim_chars(&rest)))
}

/// Reads a house number as a range and a suffix. Answers `None` when it does
/// not begin with a number (`"Lot 5"`).
pub fn parse_hn(hn: &str) -> (r: Option<ParsedHn>)
    ensures
        match r {
            Some(p) => hn_range(hn@) == Some(p@),
            None => hn_range(hn@) is None,
        },
{
    let whole = chars_of(hn);
    let t = trim_chars(&whole);
    let i: usize = index_of(&t, '-');
    if i < t.len() {
        let a = sub_chars(&t, 0, i);
        let b = sub_chars(&t, i + 1, t.len());
        assert(a@ =~= t@.take(i as int));
        assert(b@ =~= t@.skip(i + 1));
        let (f, fs) = match parse_digits_and_suffix(&trim_chars(&a)) {
            Some(x) => x,
            None => return None,
        };
        let (l, _ls) = match parse_digits_and_suffix(&trim_chars(&b)) {
            Some(x) => x,
            None => return None,
        };
        Some(
            ParsedHn {
                first: if f <= l {
                    f
                } else {
                    l
                },
                last: if f <= l {
                    l
                } else {
                    f
                },
                suffix: string_of(&fs),
            },
        )
    } else {
        match parse_digits_and_suffix(&t) {
            Some((n, suffix)) => Some(ParsedHn { first: n, last: n, suffix: string_of(&suffix) }),
            None => None,
        }
    }
}

/// Whether the ranges `q` and `s` have a number in common.
fn ranges_overlap(q: (u32, u32), s: (u32, u32)) -> (r: bool)
    requires
        q.0 <= q.1,
        s.0 <= s.1,
    ensures
        r == (q.0 <= s.1 && s.0 <= q.1),
{
    let lo: u32 = if q.0 >= s.0 {
        q.0
    } else {
        s.0
    };
    let hi: u32 = if q.1 <= s.1 {
        q.1
    } else {
        s.1
    };
    lo <= hi
}

/// Whether a queried house number matches a stored one.
pub fn housenumber_matches(query: &str, stored: &str) -> (r: bool)
    ensures
        r == hn_matches(query@, stored@),
{
    if chars_eq_ignore_case(&chars_of(query), &chars_of(stored)) {
        return true;
    }
    let q = match parse_hn(query) {
        Some(q) => q,
        None => return false,
    };
    let s = match parse_hn(stored) {
        Some(s) => s,
        None => return false,
    };
    let q_suffix = chars_of(q.suffix.as_str());
    let s_suffix = chars_of(s.suffix.as_str());
    if q_suffix.len() > 0 {
        if s_suffix.len() > 0 {
            if !chars_eq_ignore_case(&q_suffix, &s_suffix) {
                return false;
            }
        } else if s.first == s.last {
            return false;
        }
    }
    ranges_overlap((q.first, q.last), (s.first, s.last))
}

/// Splits the shorthand `<unit>/<house number>` (`3/827a`): exactly one
/// slash, digits alone before it, and behind it something that begins with a
/// digit. White space around either side does not count.
pub open spec fn unit_address(s: Seq<char>) -> Option<(Seq<char>, Seq<char>)> {
    match split_once_seq(trim_seq(s), '/') {
        Some((a, b)) => {
            let unit = trim_seq(a);
            let number = trim_seq(b);
            if b.contains('/') || unit.len() == 0 || !all_digits(unit) || number.len() == 0
                || !is_ascii_digit(number[0]) {
                None
            } else {
                Some((unit, number))
            }
        },
        None => None,
    }
}

/// Detects the shorthand `<unit>/<house number>` and returns its two parts.
pub fn parse_au_unit_address(s: &str) -> (r: Option<(&str, &str)>)
    ensures
        match r {
            Some((unit, number)) => unit_address(s@) == Some((unit@, number@)),
            None => unit_address(s@) is None,
        },
{
    let v = chars_of(s);
    let (a, b) = trim_bounds(&v, 0, v.len());
    let t = sub_chars(&v, a, b);
    assert(v@.subrange(0, v@.len() as int) =~= v@);
    let i: usize = index_of(&t, '/');
    if i >= t.len() {
        return None;
    }
    let ghost lhs = t@.take(i as int);
    let ghost rhs = t@.skip(i + 1);
    let slash: usize = a + i;
    assert(v@.subrange(a as int, slash as int) =~= lhs);
    assert(v@.subrange(slash + 1, b as int) =~= rhs);
    let mut k: usize = slash + 1;
    while k < b
        invariant
            slash + 1 <= k <= b <= v@.len(),
            rhs == v@.subrange(slash + 1, b as int),
            split_once_seq(trim_seq(s@), '/') == Some((lhs, rhs)),
            forall|j: int| slash + 1 <= j < k ==> v@[j] != '/',
        decreases b - k,
    {
        if v[k] == '/' {
            assert(rhs[k - slash - 1] == '/');
            return None;
        }
        k += 1;
    }
    assert(!rhs.contains('/'));
    let (ua, ub) = trim_bounds(&v, a, slash);
    let (na, nb) = trim_bounds(&v, slash + 1, b);
    let ghost unit = v@.subrange(ua as int, ub as int);
    let ghost number = v@.subrange(na as int, nb as int);
    if ua == ub || na == nb {
        return None;
    }
    let mut j: usize = ua;
    while j < ub
        invariant
            ua <= j <= ub <= v@.len(),
            unit == v@.subrange(ua as int, ub as int),
            unit == trim_seq(lhs),
            split_once_seq(trim_seq(s@), '/') == Some((lhs, rhs)),
            forall|m: int| ua <= m < j ==> is_ascii_digit(v@[m]),
        decreases ub - j,
    {
        if !('0' <= v[j] && v[j] <= '9') {
            assert(!is_ascii_digit(unit[j - ua]));
            return None;
        }
        j += 1;
    }
    assert(all_digits(unit));
    if !('0' <= v[na] && v[na] <= '9') {
        return None;
    }
    Some((s.substring_char(ua, ub), s.substring_char(na, nb)))
}

// --- Laws ---
/// A house number matches itself.
pub proof fn law_reflexive(s: Seq<char>)
    ensures
        hn_matches(s, s),
{
}

/// Two numbers that both lack a suffix match in either direction or in neither.
pub proof fn law_symmetric_without_suffix(a: Seq<char>, b: Seq<char>)
    requires
        hn_range(a) matches Some(x) ==> x.suffix.len() == 0,
        hn_range(b) matches Some(x) ==> x.suffix.len() == 0,
    ensures
        hn_matches(a, b) == hn_matches(b, a),
{
}

/// Numbers with different suffix letters never match, whatever their ranges,
/// and a suffixed query never matches a plain single number.
pub proof fn law_suffix_discipline(query: Seq<char>, stored: Seq<char>)
    requires
        !eq_ignore_case(query, stored),
        hn_range(query) matches Some(q) && q.suffix.len() > 0,
        hn_range(stored) matches Some(s) ==> if s.suffix.len() > 0 {
            !eq_ignore_case(hn_range(query)->0.suffix, s.suffix)
        } else {
            s.first == s.last
        },
    ensures
        !hn_matches(query, stored),
{
}

proof fn lemma_trim_digits(s: Seq<char>)
    requires
        s.len() > 0,
        !is_white_space(s[0]),
        !is_white_space(s.last()),
    ensures
        trim_start_seq(s) == s,
        trim_seq(s) == s,
{
}

proof fn lemma_digits_alone(n: nat)
    requires
        n <= u32::MAX,
    ensures
        digits_and_suffix(decimal(n)) == Some((n, Seq::<char>::empty())),
        trim_seq(decimal(n)) == decimal(n),
{
    let s = decimal(n);
    lemma_decimal_round_trip(n);
    assert(is_ascii_digit(s[0]));
    assert(is_ascii_digit(s[s.len() - 1]));
    lemma_trim_digits(s);
    lemma_first_where_is(s, non_digit(), s.len() as int);
    assert(s.take(s.len() as int) =~= s);
    assert(s.skip(s.len() as int) =~= Seq::<char>::empty());
    assert(trim_seq(Seq::<char>::empty()) =~= Seq::<char>::empty());
}

proof fn lemma_no_dash(n: nat)
    ensures
        first_where(decimal(n), is_char('-')) == decimal(n).len(),
{
    lemma_decimal_round_trip(n);
    let s = decimal(n);
    assert forall|j: int| 0 <= j < s.len() implies !is_char('-')(#[trigger] s[j]) by {
        assert(is_ascii_digit(s[j]));
    }
    lemma_first_where_is(s, is_char('-'), s.len() as int);
}

/// A plain number matches a stored range exactly when it lies in the range,
/// bounds taken in either order.
pub proof fn law_number_in_range(n: nat, a: nat, b: nat)
    requires
        n <= u32::MAX,
        a <= u32::MAX,
        b <= u32::MAX,
    ensures
        hn_matches(decimal(n), decimal(a) + seq!['-'] + decimal(b)) == (a <= n <= b || b <= n <= a),
        hn_matches(decimal(a) + seq!['-'] + decimal(b), decimal(n)) == (a <= n <= b || b <= n <= a),
{
    let q = decimal(n);
    let x = decimal(a);
    let y = decimal(b);
    let s = x + seq!['-'] + y;
    lemma_decimal_round_trip(n);
    lemma_decimal_round_trip(a);
    lemma_decimal_round_trip(b);
    lemma_digits_alone(n);
    lemma_digits_alone(a);
    lemma_digits_alone(b);
    lemma_no_dash(n);
    assert(is_ascii_digit(x[0]));
    assert(is_ascii_digit(y[y.len() - 1]));
    assert(s[0] == x[0]);
    assert(s.last() == y[y.len() - 1]);
    lemma_trim_digits(s);
    let i = x.len() as int;
    assert(s[i] == '-');
    assert forall|j: int| 0 <= j < i implies !is_char('-')(#[trigger] s[j]) by {
        assert(is_ascii_digit(x[j]));
    }
    lemma_first_where_is(s, is_char('-'), i);
    assert(s.take(i) =~= x);
    assert(s.skip(i + 1) =~= y);
    assert(lower_seq(q) != lower_seq(s)) by {
        assert(lower_seq(q).len() == q.len() && lower_seq(s).len() == s.len());
        if lower_seq(q) == lower_seq(s) {
            assert(lower_seq(s)[i] == '-');
            assert(lower_seq(q)[i] == '-');
            assert(is_ascii_digit(q[i]));
        }
    }
}

/// Two plain numbers match just where they are the same number.
pub proof fn law_plain_numbers_match_alike(n: nat, m: nat)
    requires
        n <= u32::MAX,
        m <= u32::MAX,
    ensures
        hn_matches(decimal(n), decimal(m)) <==> n == m,
{
    lemma_plain_range(n);
    lemma_plain_range(m);
    if eq_ignore_case(decimal(n), decimal(m)) {
        lemma_lower_digits(n);
        lemma_lower_digits(m);
        lemma_decimal_round_trip(n);
        lemma_decimal_round_trip(m);
    }
}

proof fn lemma_lower_digits(n: nat)
    ensures
        lower_seq(decimal(n)) == decimal(n),
{
    lemma_decimal_round_trip(n);
    let s = decimal(n);
    assert forall|i: int| 0 <= i < s.len() implies lower_seq(s)[i] == s[i] by {
        assert(is_ascii_digit(s[i]));
    }
    assert(lower_seq(s) =~= s);
}

proof fn lemma_plain_range(n: nat)
    requires
        n <= u32::MAX,
    ensures
        hn_range(decimal(n)) == Some(HnRange { first: n, last: n, suffix: Seq::<char>::empty() }),
{
    lemma_digits_alone(n);
    lemma_no_dash(n);
}

proof fn lemma_suffixed_range(n: nat, c: char)
    requires
        n <= u32::MAX,
        crate::text::is_ascii_letter(c),
    ensures
        hn_range(decimal(n).push(c)) == Some(HnRange { first: n, last: n, suffix: seq![c] }),
{
    let d = decimal(n);
    let s = d.push(c);
    lemma_decimal_round_trip(n);
    assert(is_ascii_digit(d[0]));
    assert(s[0] == d[0]);
    lemma_trim_digits(s);
    assert forall|j: int| 0 <= j < s.len() implies !is_char('-')(#[trigger] s[j]) by {
        if j < d.len() {
            assert(is_ascii_digit(d[j]));
        }
    }
    lemma_first_where_is(s, is_char('-'), s.len() as int);
    assert forall|j: int| 0 <= j < d.len() implies !non_digit()(#[trigger] s[j]) by {
        assert(is_ascii_digit(d[j]));
    }
    lemma_first_where_is(s, non_digit(), d.len() as int);
    assert(s.take(d.len() as int) =~= d);
    assert(s.skip(d.len() as int) =~= seq![c]);
    assert(trim_seq(seq![c]) =~= seq![c]);
}

/// A number with a letter is asked for: it matches the same number with the same
/// letter, in any case, and not the number without a letter. A number that is
/// asked for without a letter matches the same number with any letter.
pub proof fn law_letters_tell_numbers_apart(n: nat, m: nat, c: char, d: char)
    requires
        n <= u32::MAX,
        m <= u32::MAX,
        crate::text::is_ascii_letter(c),
        crate::text::is_ascii_letter(d),
    ensures
        hn_matches(decimal(n).push(c), decimal(m).push(d)) <==> n == m && crate::text::lower_char(c)
            == crate::text::lower_char(d),
        hn_matches(decimal(n), decimal(m).push(d)) <==> n == m,
        !hn_matches(decimal(n).push(c), decimal(m)),
{
    lemma_plain_range(n);
    lemma_plain_range(m);
    lemma_suffixed_range(n, c);
    lemma_suffixed_range(m, d);
    lemma_lower_digits(n);
    lemma_lower_digits(m);
    let (x, y) = (decimal(n), decimal(m));
    let (xc, yd) = (x.push(c), y.push(d));
    assert(lower_seq(xc) =~= x.push(crate::text::lower_char(c)));
    assert(lower_seq(yd) =~= y.push(crate::text::lower_char(d)));
    assert(lower_seq(seq![c]) =~= seq![crate::text::lower_char(c)]);
    assert(lower_seq(seq![d]) =~= seq![crate::text::lower_char(d)]);
    if crate::text::lower_char(c) == crate::text::lower_char(d) {
        assert(lower_seq(seq![c]) == lower_seq(seq![d]));
    } else {
        assert(lower_seq(seq![c])[0] != lower_seq(seq![d])[0]);
    }
    if eq_ignore_case(xc, yd) {
        assert(lower_seq(xc).drop_last() =~= x);
        assert(lower_seq(yd).drop_last() =~= y);
        assert(lower_seq(xc).last() == lower_seq(yd).last());
        lemma_decimal_round_trip(n);
        lemma_decimal_round_trip(m);
    }
    lemma_decimal_round_trip(n);
    lemma_decimal_round_trip(m);
    if eq_ignore_case(x, yd) {
        assert(lower_seq(yd).last() == crate::text::lower_char(d));
        assert(lower_seq(x).last() == x[x.len() - 1]);
        assert(is_ascii_digit(x[x.len() - 1]));
    }
    if eq_ignore_case(xc, y) {
        assert(lower_seq(xc).last() == crate::text::lower_char(c));
        assert(lower_seq(y).last() == y[y.len() - 1]);
        assert(is_ascii_digit(y[y.len() - 1]));
    }
}

/// The shorthand of a unit and a house number is taken apart at its slash: the
/// unit stands before it, the house number behind it.
pub proof fn law_unit_stands_before_the_slash(unit: nat, number: Seq<char>)
    requires
        number.len() > 0,
        is_ascii_digit(number[0]),
        !is_white_space(number.last()),
        forall|i: int| 0 <= i < number.len() ==> #[trigger] number[i] != '/',
    ensures
        unit_address(decimal(unit) + seq!['/'] + number) == Some((decimal(unit), number)),
        unit_address(number) is None,
{
    let u = decimal(unit);
    let s = u + seq!['/'] + number;
    lemma_decimal_round_trip(unit);
    assert(is_ascii_digit(u[0]));
    assert(is_ascii_digit(u[u.len() - 1]));
    assert(s[0] == u[0]);
    assert(s.last() == number[number.len() - 1]);
    lemma_trim_digits(s);
    lemma_trim_digits(u);
    lemma_trim_digits(number);
    let i = u.len() as int;
    assert(s[i] == '/');
    assert forall|j: int| 0 <= j < i implies !is_char('/')(#[trigger] s[j]) by {
        assert(is_ascii_digit(u[j]));
    }
    lemma_first_where_is(s, is_char('/'), i);
    assert(s.take(i) =~= u);
    assert(s.skip(i + 1) =~= number);
    assert(!number.contains('/'));
    assert forall|j: int| 0 <= j < number.len() implies !is_char('/')(#[trigger] number[j]) by {}
    lemma_first_where_is(number, is_char('/'), number.len() as int);
}

proof fn lemma_range(a: nat, b: nat)
    requires
        a <= u32::MAX,
        b <= u32::MAX,
    ensures
        hn_range(decimal(a) + seq!['-'] + decimal(b)) == Some(
            HnRange {
                first: if a <= b {
                    a
                } else {
                    b
                },
                last: if a <= b {
                    b
                } else {
                    a
                },
                suffix: Seq::<char>::empty(),
            },
        ),
{
    let x = decimal(a);
    let y = decimal(b);
    let s = x + seq!['-'] + y;
    lemma_decimal_round_trip(a);
    lemma_decimal_round_trip(b);
    lemma_digits_alone(a);
    lemma_digits_alone(b);
    assert(is_ascii_digit(x[0]));
    assert(is_ascii_digit(y[y.len() - 1]));
    assert(s[0] == x[0]);
    assert(s.last() == y[y.len() - 1]);
    lemma_trim_digits(s);
    let i = x.len() as int;
    assert(s[i] == '-');
    assert forall|j: int| 0 <= j < i implies !is_char('-')(#[trigger] s[j]) by {
        assert(is_ascii_digit(x[j]));
    }
    lemma_first_where_is(s, is_char('-'), i);
    assert(s.take(i) =~= x);
    assert(s.skip(i + 1) =~= y);
}

/// A number with a letter matches a range of several numbers that it lies in. Two
/// ranges match where they have a number in common.
pub proof fn law_ranges_match_what_they_share(n: nat, c: char, a: nat, b: nat, l: nat, h: nat)
    requires
        n <= u32::MAX,
        crate::text::is_ascii_letter(c),
        a < b <= u32::MAX,
        l < h <= u32::MAX,
    ensures
        hn_matches(decimal(n).push(c), decimal(a) + seq!['-'] + decimal(b)) <==> a <= n <= b,
        a <= n <= b && l <= n <= h ==> hn_matches(
            decimal(a) + seq!['-'] + decimal(b),
            decimal(l) + seq!['-'] + decimal(h),
        ),
        b < l || h < a ==> !hn_matches(
            decimal(a) + seq!['-'] + decimal(b),
            decimal(l) + seq!['-'] + decimal(h),
        ),
{
    lemma_suffixed_range(n, c);
    lemma_range(a, b);
    lemma_range(l, h);
    let q = decimal(n).push(c);
    let s = decimal(a) + seq!['-'] + decimal(b);
    let t = decimal(l) + seq!['-'] + decimal(h);
    lemma_decimal_round_trip(b);
    if eq_ignore_case(q, s) {
        assert(lower_seq(q).last() == crate::text::lower_char(c));
        assert(s.last() == decimal(b)[decimal(b).len() - 1]);
        assert(is_ascii_digit(s.last()));
        assert(lower_seq(s).last() == s.last());
    }
    if eq_ignore_case(s, t) && (b < l || h < a) {
        lemma_decimal_round_trip(a);
        lemma_decimal_round_trip(l);
        lemma_decimal_round_trip(h);
        lemma_same_range(s, t);
    }
}

proof fn lemma_same_range(s: Seq<char>, t: Seq<char>)
    requires
        lower_seq(s) == lower_seq(t),
        forall|i: int| 0 <= i < s.len() ==> is_ascii_digit(#[trigger] s[i]) || s[i] == '-',
        forall|i: int| 0 <= i < t.len() ==> is_ascii_digit(#[trigger] t[i]) || t[i] == '-',
    ensures
        s == t,
{
    assert(lower_seq(s).len() == s.len() && lower_seq(t).len() == t.len());
    assert forall|i: int| 0 <= i < s.len() implies s[i] == t[i] by {
        assert(lower_seq(s)[i] == s[i]);
        assert(lower_seq(t)[i] == t[i]);
    }
    assert(s =~= t);
}

} // verus!
