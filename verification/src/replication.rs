//! The state of a replication feed, as Osmosis writes it.
//!
//! ```text
//! # original OSM minutely replication sequence number 7086110
//! timestamp=2026-04-25T20\:20\:59Z
//! sequenceNumber=4769
//! ```
//!
//! The colons of the timestamp are escaped, as in a Java properties file. A line
//! with another key is of no use here; it is carried on as a comment.
use vstd::prelude::*;
use crate::lines::{is_line, law_written_lines_read_back, lines_of, lines_seq, written_lines};
use crate::text::{
    append_chars, append_str, chars_are, chars_of, decimal, decimal_chars, is_ascii_digit, is_char,
    is_white_space, lemma_decimal_round_trip, lemma_first_where_is, parse_uint, parse_uint_seq,
    split_once_chars, split_once_seq, string_of, string_views, sub_chars, trim_chars,
    trim_seq, trim_start_chars, trim_start_seq, views,
};

verus! {

broadcast use vstd::seq::group_seq_axioms;

// --- Times ---
/// The first second of the year 0 and the last one of the year 9999.
pub const FIRST_SECOND: i64 = -62167219200;

pub const LAST_SECOND: i64 = 253402300799;

/// The moment that an RFC 3339 text names: seconds since 1970, and nanoseconds.
pub uninterp spec fn rfc3339_moment(s: Seq<char>) -> Option<(i64, u32)>;

/// The text `YYYY-MM-DDTHH:MM:SSZ` of a moment.
pub uninterp spec fn utc_text(secs: i64, nanos: u32) -> Option<Seq<char>>;

/// `chrono::DateTime::parse_from_rfc3339`, and the moment in UTC.
#[verifier::external_body]
fn parse_rfc3339(s: &str) -> (r: Option<(i64, u32)>)
    ensures
        r == rfc3339_moment(s@),
{
    let at = chrono::DateTime::parse_from_rfc3339(s).ok()?.with_timezone(&chrono::Utc);
    Some((at.timestamp(), at.timestamp_subsec_nanos()))
}

/// `chrono::DateTime::from_timestamp`, and the moment in the format
/// `%Y-%m-%dT%H:%M:%SZ`; nothing where there is no such moment. A whole second
/// of the years 0 to 9999 has a text of digits, hyphens, colons, a `T` and a
/// `Z`, and that text is an RFC 3339 text of the same moment.
#[verifier::external_body]
fn format_utc(secs: i64, nanos: u32) -> (r: Option<String>)
    ensures
        match r {
            Some(s) => utc_text(secs, nanos) == Some(s@),
            None => utc_text(secs, nanos) is None,
        },
        nanos == 0 && FIRST_SECOND <= secs <= LAST_SECOND ==> {
            &&& r is Some
            &&& is_time_text(r->0@)
            &&& rfc3339_moment(r->0@) == Some((secs, 0u32))
        },
{
    let at = chrono::DateTime::from_timestamp(secs, nanos)?;
    Some(at.format("%Y-%m-%dT%H:%M:%SZ").to_string())
}

/// Whether a text has only characters of a timestamp.
pub open spec fn is_time_text(s: Seq<char>) -> bool {
    forall|i: int|
        0 <= i < s.len() ==> is_ascii_digit(#[trigger] s[i]) || s[i] == '-' || s[i] == ':' || s[i]
            == 'T' || s[i] == 'Z'
}

// --- Escapes ---
/// A text with a backslash before each colon.
pub open spec fn escaped(s: Seq<char>) -> Seq<char>
    decreases s.len(),
{
    if s.len() == 0 {
        Seq::empty()
    } else if s[0] == ':' {
        seq!['\\', ':'] + escaped(s.skip(1))
    } else {
        seq![s[0]] + escaped(s.skip(1))
    }
}

/// A text without the backslashes that stand before colons.
pub open spec fn unescaped(s: Seq<char>) -> Seq<char>
    decreases s.len(),
{
    if s.len() == 0 {
        Seq::empty()
    } else if s.len() >= 2 && s[0] == '\\' && s[1] == ':' {
        seq![':'] + unescaped(s.skip(2))
    } else {
        seq![s[0]] + unescaped(s.skip(1))
    }
}

fn escape(v: &[char]) -> (r: Vec<char>)
    ensures
        r@ == escaped(v@),
{
    let mut out: Vec<char> = Vec::new();
    let n: usize = v.len();
    assert(v@.skip(0) =~= v@);
    assert(out@ + escaped(v@) =~= escaped(v@));
    for i in 0..n
        invariant
            n == v@.len(),
            out@ + escaped(v@.skip(i as int)) == escaped(v@),
    {
        let ghost before = out@;
        let ghost rest = v@.skip(i as int);
        assert(rest.skip(1) =~= v@.skip(i + 1));
        if v[i] == ':' {
            out.push('\\');
            assert(out@ + (seq![':'] + escaped(rest.skip(1))) =~= before + (seq!['\\', ':']
                + escaped(rest.skip(1))));
            out.push(':');
            assert(out@ + escaped(rest.skip(1)) =~= before + (seq!['\\', ':'] + escaped(
                rest.skip(1),
            )));
        } else {
            out.push(v[i]);
            assert(out@ + escaped(rest.skip(1)) =~= before + (seq![v@[i as int]] + escaped(
                rest.skip(1),
            )));
        }
    }
    assert(v@.skip(n as int).len() == 0);
    assert(out@ + escaped(v@.skip(n as int)) =~= out@);
    out
}

fn unescape(v: &[char]) -> (r: Vec<char>)
    ensures
        r@ == unescaped(v@),
{
    let mut out: Vec<char> = Vec::new();
    let n: usize = v.len();
    let mut i: usize = 0;
    assert(v@.skip(0) =~= v@);
    assert(out@ + unescaped(v@) =~= unescaped(v@));
    while i < n
        invariant
            n == v@.len(),
            i <= n,
            out@ + unescaped(v@.skip(i as int)) == unescaped(v@),
        decreases n - i,
    {
        let ghost before = out@;
        let ghost rest = v@.skip(i as int);
        assert(rest.skip(1) =~= v@.skip(i + 1));
        if v[i] == '\\' && i + 1 < n && v[i + 1] == ':' {
            assert(rest.skip(2) =~= v@.skip(i + 2));
            out.push(':');
            assert(out@ + unescaped(rest.skip(2)) =~= before + (seq![':'] + unescaped(
                rest.skip(2),
            )));
            i = i + 2;
        } else {
            out.push(v[i]);
            assert(out@ + unescaped(rest.skip(1)) =~= before + (seq![v@[i as int]] + unescaped(
                rest.skip(1),
            )));
            i = i + 1;
        }
    }
    assert(v@.skip(n as int).len() == 0);
    assert(out@ + unescaped(v@.skip(n as int)) =~= out@);
    out
}

/// Unescaping undoes escaping, where there is no backslash in the text.
pub proof fn law_unescape_undoes_escape(s: Seq<char>)
    requires
        forall|i: int| 0 <= i < s.len() ==> #[trigger] s[i] != '\\',
    ensures
        unescaped(escaped(s)) == s,
    decreases s.len(),
{
    if s.len() > 0 {
        let t = s.skip(1);
        assert forall|i: int| 0 <= i < t.len() implies #[trigger] t[i] != '\\' by {
            assert(t[i] == s[i + 1]);
        }
        law_unescape_undoes_escape(t);
        let e = escaped(s);
        assert(s[0] != '\\');
        if s[0] == ':' {
            assert(e.skip(2) =~= escaped(t));
            assert(unescaped(e) =~= seq![':'] + t);
        } else {
            assert(e.skip(1) =~= escaped(t));
            assert(unescaped(e) =~= seq![s[0]] + t);
        }
        assert(s =~= seq![s[0]] + t);
    } else {
        assert(escaped(s) =~= s);
        assert(unescaped(s) =~= s);
    }
}

// --- State ---
/// The state of a replication feed.
pub struct ReplicationState {
    /// Seconds since 1970.
    pub timestamp: i64,
    /// Nanoseconds of the timestamp; more than a second in a leap second.
    pub nanos: u32,
    pub sequence_number: u64,
    /// The comment lines, each as it stands behind its mark, and the lines with
    /// other keys.
    pub comments: Vec<String>,
}

/// What was read of a state.
pub struct StateDraft {
    pub moment: Option<(i64, u32)>,
    pub sequence_number: Option<u64>,
    pub comments: Seq<Seq<char>>,
}

pub open spec fn malformed_line(raw: Seq<char>) -> Seq<char> {
    "malformed state.txt line: '"@ + raw + "'"@
}

pub open spec fn bad_timestamp(text: Seq<char>) -> Seq<char> {
    "failed to parse timestamp '"@ + text + "' as RFC 3339"@
}

pub open spec fn bad_sequence(value: Seq<char>) -> Seq<char> {
    "invalid sequenceNumber '"@ + value + "'"@
}

/// What is known once a line was read.
pub open spec fn draft_with(d: StateDraft, raw: Seq<char>) -> Result<StateDraft, Seq<char>> {
    let text = trim_start_seq(raw);
    if text.len() == 0 {
        Ok(d)
    } else if text[0] == '#' {
        Ok(StateDraft { comments: d.comments.push(text.skip(1)), ..d })
    } else {
        match split_once_seq(trim_seq(raw), '=') {
            None => Err(malformed_line(raw)),
            Some((key, value)) => if trim_seq(key) == "timestamp"@ {
                match rfc3339_moment(unescaped(value)) {
                    Some(m) => Ok(StateDraft { moment: Some(m), ..d }),
                    None => Err(bad_timestamp(unescaped(value))),
                }
            } else if trim_seq(key) == "sequenceNumber"@ {
                match parse_uint_seq(trim_seq(value), u64::MAX as nat) {
                    Some(n) => Ok(StateDraft { sequence_number: Some(n as u64), ..d }),
                    None => Err(bad_sequence(value)),
                }
            } else {
                Ok(StateDraft { comments: d.comments.push(trim_seq(raw)), ..d })
            },
        }
    }
}

/// What is known once the first `n` lines were read.
pub open spec fn draft_after(lines: Seq<Seq<char>>, n: int) -> Result<StateDraft, Seq<char>>
    decreases n,
{
    if n <= 0 {
        Ok(StateDraft { moment: None, sequence_number: None, comments: Seq::empty() })
    } else {
        match draft_after(lines, n - 1) {
            Ok(d) => draft_with(d, lines[n - 1]),
            Err(e) => Err(e),
        }
    }
}

/// The content of a state: the moment, the sequence number and the comments.
pub open spec fn state_text(s: Seq<char>) -> Result<((i64, u32), u64, Seq<Seq<char>>), Seq<char>> {
    let lines = lines_seq(s);
    match draft_after(lines, lines.len() as int) {
        Err(e) => Err(e),
        Ok(d) => match d.moment {
            None => Err("state.txt missing 'timestamp' field"@),
            Some(m) => match d.sequence_number {
                None => Err("state.txt missing 'sequenceNumber' field"@),
                Some(n) => Ok((m, n, d.comments)),
            },
        },
    }
}

proof fn lemma_error_sticks(lines: Seq<Seq<char>>, i: int, n: int)
    requires
        i <= n,
        draft_after(lines, i) is Err,
    ensures
        draft_after(lines, n) == draft_after(lines, i),
    decreases n - i,
{
    if i < n {
        lemma_error_sticks(lines, i, n - 1);
    }
}

fn quoted(before: &str, text: &[char], after: &str) -> (r: String)
    ensures
        r@ == before@ + text@ + after@,
{
    let mut m: Vec<char> = Vec::new();
    append_str(&mut m, before);
    append_chars(&mut m, text);
    append_str(&mut m, after);
    assert(m@ =~= before@ + text@ + after@);
    string_of(&m)
}

impl ReplicationState {
    /// Whether this is the state with the given content.
    pub open spec fn holds(&self, t: ((i64, u32), u64, Seq<Seq<char>>)) -> bool {
        &&& (self.timestamp, self.nanos) == t.0
        &&& self.sequence_number == t.1
        &&& string_views(self.comments@) == t.2
    }

    /// Reads a state. The first line that cannot be read decides what is
    /// wrong.
    pub fn parse(s: &str) -> (r: Result<ReplicationState, String>)
        ensures
            match r {
                Ok(st) => state_text(s@) is Ok && st.holds(state_text(s@)->Ok_0),
                Err(e) => state_text(s@) == Err::<((i64, u32), u64, Seq<Seq<char>>), Seq<char>>(e@),
            },
    {
        let lines = lines_of(&chars_of(s));
        let ghost all = lines_seq(s@);
        let mut moment: Option<(i64, u32)> = None;
        let mut sequence_number: Option<u64> = None;
        let mut comments: Vec<String> = Vec::new();
        assert(string_views(comments@) =~= Seq::<Seq<char>>::empty());
        for i in 0..lines.len()
            invariant
                all == views(lines@),
                all == lines_seq(s@),
                draft_after(all, i as int) == Ok::<StateDraft, Seq<char>>(
                    StateDraft {
                        moment,
                        sequence_number,
                        comments: string_views(comments@),
                    },
                ),
        {
            let raw = &lines[i];
            assert(all[i as int] == raw@);
            let text = trim_start_chars(raw);
            if text.len() == 0 {
            } else if text[0] == '#' {
                let rest = sub_chars(&text, 1, text.len());
                assert(rest@ =~= text@.skip(1));
                let ghost before = string_views(comments@);
                comments.push(string_of(&rest));
                assert(string_views(comments@) =~= before.push(rest@));
            } else {
                let line = trim_chars(raw);
                match split_once_chars(&line, '=') {
                    None => {
                        proof {
                            lemma_error_sticks(all, i + 1, all.len() as int);
                        }
                        return Err(quoted("malformed state.txt line: '", raw, "'"));
                    },
                    Some((key, value)) => {
                        let key = trim_chars(&key);
                        if chars_are(&key, "timestamp") {
                            let text = unescape(&value);
                            match parse_rfc3339(string_of(&text).as_str()) {
                                Some(m) => {
                                    moment = Some(m);
                                },
                                None => {
                                    proof {
                                        lemma_error_sticks(all, i + 1, all.len() as int);
                                    }
                                    return Err(
                                        quoted(
                                            "failed to parse timestamp '",
                                            &text,
                                            "' as RFC 3339",
                                        ),
                                    );
                                },
                            }
                        } else if chars_are(&key, "sequenceNumber") {
                            match parse_uint(&trim_chars(&value), u64::MAX) {
                                Some(n) => {
                                    sequence_number = Some(n);
                                },
                                None => {
                                    proof {
                                        lemma_error_sticks(all, i + 1, all.len() as int);
                                    }
                                    return Err(quoted("invalid sequenceNumber '", &value, "'"));
                                },
                            }
                        } else {
                            let ghost before = string_views(comments@);
                            comments.push(string_of(&line));
                            assert(string_views(comments@) =~= before.push(line@));
                        }
                    },
                }
            }
        }
        let (timestamp, nanos): (i64, u32) = match moment {
            Some(m) => m,
            None => return Err("state.txt missing 'timestamp' field".to_owned()),
        };
        match sequence_number {
            Some(n) => Ok(ReplicationState { timestamp, nanos, sequence_number: n, comments }),
            None => Err("state.txt missing 'sequenceNumber' field".to_owned()),
        }
    }

    /// The lines of the state.
    pub open spec fn lines(&self, time: Seq<char>) -> Seq<Seq<char>> {
        string_views(self.comments@).map_values(|c: Seq<char>| "#"@ + c).push(
            "timestamp="@ + escaped(time),
        ).push("sequenceNumber="@ + decimal(self.sequence_number as nat))
    }

    /// Whether `time` is the text of the timestamp: empty for a moment beyond
    /// the calendar.
    pub open spec fn is_time(&self, time: Seq<char>) -> bool {
        match utc_text(self.timestamp, self.nanos) {
            Some(t) => time == t,
            None => time.len() == 0,
        }
    }

    /// Whether the timestamp is a whole second of the years 0 to 9999, and each
    /// comment one line.
    pub open spec fn is_plain(&self) -> bool {
        &&& self.nanos == 0
        &&& FIRST_SECOND <= self.timestamp <= LAST_SECOND
        &&& forall|i: int|
            0 <= i < self.comments@.len() ==> is_plain_comment(#[trigger] self.comments@[i]@)
    }

    /// Writes the state. A plain state is read back as it was.
    pub fn to_string_wire(&self) -> (r: String)
        ensures
            exists|time: Seq<char>| #[trigger]
                self.is_time(time) && r@ == written_lines(self.lines(time)),
            self.is_plain() ==> state_text(r@) is Ok && self.holds(state_text(r@)->Ok_0),
    {
        let mut out: Vec<char> = Vec::new();
        let ghost marked = string_views(self.comments@).map_values(|c: Seq<char>| "#"@ + c);
        assert(out@ =~= written_lines(marked.take(0)));
        for i in 0..self.comments.len()
            invariant
                marked == string_views(self.comments@).map_values(|c: Seq<char>| "#"@ + c),
                out@ == written_lines(marked.take(i as int)),
        {
            let ghost before = out@;
            append_str(&mut out, "#");
            append_str(&mut out, self.comments[i].as_str());
            out.push('\n');
            assert(marked[i as int] == "#"@ + self.comments@[i as int]@);
            assert(out@ =~= before + marked[i as int].push('\n'));
            assert(marked.take(i + 1).drop_last() =~= marked.take(i as int));
        }
        assert(marked.take(marked.len() as int) =~= marked);
        let time = match format_utc(self.timestamp, self.nanos) {
            Some(t) => chars_of(t.as_str()),
            None => Vec::new(),
        };
        let ghost before = out@;
        append_str(&mut out, "timestamp=");
        append_chars(&mut out, &escape(&time));
        out.push('\n');
        let ghost stamp = "timestamp="@ + escaped(time@);
        assert(out@ =~= before + stamp.push('\n'));
        let ghost with_stamp = marked.push(stamp);
        assert(with_stamp.drop_last() =~= marked);
        assert(out@ == written_lines(with_stamp));
        append_str(&mut out, "sequenceNumber=");
        append_chars(&mut out, &decimal_chars(self.sequence_number));
        out.push('\n');
        let ghost number = "sequenceNumber="@ + decimal(self.sequence_number as nat);
        assert(out@ =~= written_lines(with_stamp) + number.push('\n'));
        assert(with_stamp.push(number).drop_last() =~= with_stamp);
        assert(self.is_time(time@));
        proof {
            if self.is_plain() {
                lemma_reads_back(*self, time@);
            }
        }
        string_of(&out)
    }
}

/// Whether a comment is one line.
pub open spec fn is_plain_comment(c: Seq<char>) -> bool {
    is_line(c)
}

proof fn lemma_trim_tight(s: Seq<char>)
    requires
        s.len() > 0,
        !is_white_space(s[0]),
        !is_white_space(s.last()),
    ensures
        trim_seq(s) == s,
{
}

proof fn lemma_comment_line(d: StateDraft, c: Seq<char>)
    requires
        is_plain_comment(c),
    ensures
        is_line("#"@ + c),
        draft_with(d, "#"@ + c) == Ok::<StateDraft, Seq<char>>(
            StateDraft { comments: d.comments.push(c), ..d },
        ),
{
    reveal_strlit("#");
    let line = "#"@ + c;
    assert("#"@ =~= seq!['#']);
    assert(line[0] == '#');
    assert(trim_start_seq(line) == line);
    assert(line.skip(1) =~= c);
    assert forall|i: int| 0 <= i < line.len() implies #[trigger] line[i] != '\n' by {
        if i >= 1 {
            assert(line[i] == c[i - 1]);
        }
    }
    if c.len() > 0 {
        assert(line.last() == c.last());
    }
}

proof fn lemma_comments(comments: Seq<Seq<char>>, lines: Seq<Seq<char>>, n: int)
    requires
        0 <= n <= comments.len() <= lines.len(),
        forall|i: int| 0 <= i < comments.len() ==> is_plain_comment(#[trigger] comments[i]),
        forall|i: int| 0 <= i < comments.len() ==> #[trigger] lines[i] == "#"@ + comments[i],
    ensures
        draft_after(lines, n) == Ok::<StateDraft, Seq<char>>(
            StateDraft { moment: None, sequence_number: None, comments: comments.take(n) },
        ),
    decreases n,
{
    if n > 0 {
        lemma_comments(comments, lines, n - 1);
        let d = StateDraft { moment: None, sequence_number: None, comments: comments.take(n - 1) };
        lemma_comment_line(d, comments[n - 1]);
        assert(lines[n - 1] == "#"@ + comments[n - 1]);
        assert(comments.take(n) =~= comments.take(n - 1).push(comments[n - 1]));
    } else {
        assert(comments.take(0) =~= Seq::<Seq<char>>::empty());
    }
}

proof fn lemma_escaped_plain(s: Seq<char>)
    requires
        is_time_text(s),
    ensures
        forall|i: int|
            0 <= i < escaped(s).len() ==> !is_white_space(#[trigger] escaped(s)[i]),
    decreases s.len(),
{
    if s.len() > 0 {
        let t = s.skip(1);
        assert forall|i: int| 0 <= i < t.len() implies is_ascii_digit(#[trigger] t[i]) || t[i] == '-'
            || t[i] == ':' || t[i] == 'T' || t[i] == 'Z' by {
            assert(t[i] == s[i + 1]);
        }
        lemma_escaped_plain(t);
        let e = escaped(s);
        let k: int = if s[0] == ':' {
            2
        } else {
            1
        };
        assert(is_ascii_digit(s[0]) || s[0] == '-' || s[0] == ':' || s[0] == 'T' || s[0] == 'Z');
        assert forall|i: int| 0 <= i < e.len() implies !is_white_space(#[trigger] e[i]) by {
            if i >= k {
                assert(e[i] == escaped(t)[i - k]);
            }
        }
    }
}

proof fn lemma_key_value(key: Seq<char>, value: Seq<char>)
    requires
        forall|i: int| 0 <= i < key.len() ==> #[trigger] key[i] != '=',
    ensures
        split_once_seq(key.push('=') + value, '=') == Some((key, value)),
{
    let line = key.push('=') + value;
    let n = key.len() as int;
    assert(line[n] == '=');
    assert forall|i: int| 0 <= i < n implies !#[trigger] is_char('=')(line[i]) by {
        assert(line[i] == key[i]);
    }
    lemma_first_where_is(line, is_char('='), n);
    assert(line.take(n) =~= key);
    assert(line.skip(n + 1) =~= value);
}

proof fn lemma_timestamp_line(d: StateDraft, time: Seq<char>, secs: i64)
    requires
        is_time_text(time),
        rfc3339_moment(time) == Some((secs, 0u32)),
    ensures
        is_line("timestamp="@ + escaped(time)),
        draft_with(d, "timestamp="@ + escaped(time)) == Ok::<StateDraft, Seq<char>>(
            StateDraft { moment: Some((secs, 0u32)), ..d },
        ),
{
    reveal_strlit("timestamp=");
    reveal_strlit("timestamp");
    let key = "timestamp"@;
    let value = escaped(time);
    let line = "timestamp="@ + value;
    assert("timestamp="@ =~= key.push('='));
    lemma_key_value(key, value);
    lemma_escaped_plain(time);
    assert(line[0] == 't');
    assert(!is_white_space(line.last())) by {
        if value.len() > 0 {
            assert(line.last() == value[value.len() - 1]);
        }
    }
    lemma_trim_tight(line);
    lemma_trim_tight(key);
    assert forall|i: int| 0 <= i < time.len() implies #[trigger] time[i] != '\\' by {
        assert(is_ascii_digit(time[i]) || time[i] == '-' || time[i] == ':' || time[i] == 'T'
            || time[i] == 'Z');
    }
    law_unescape_undoes_escape(time);
    assert forall|i: int| 0 <= i < line.len() implies #[trigger] line[i] != '\n' by {
        if i >= 10 {
            assert(line[i] == value[i - 10]);
            assert(!is_white_space(value[i - 10]));
        }
    }
}

proof fn lemma_sequence_line(d: StateDraft, n: u64)
    ensures
        is_line("sequenceNumber="@ + decimal(n as nat)),
        draft_with(d, "sequenceNumber="@ + decimal(n as nat)) == Ok::<StateDraft, Seq<char>>(
            StateDraft { sequence_number: Some(n), ..d },
        ),
{
    reveal_strlit("sequenceNumber=");
    reveal_strlit("sequenceNumber");
    reveal_strlit("timestamp");
    let key = "sequenceNumber"@;
    let value = decimal(n as nat);
    let line = "sequenceNumber="@ + value;
    assert("sequenceNumber="@ =~= key.push('='));
    lemma_decimal_round_trip(n as nat);
    lemma_key_value(key, value);
    assert(line[0] == 's');
    assert(line.last() == value[value.len() - 1]);
    assert(is_ascii_digit(value[value.len() - 1]));
    assert(is_ascii_digit(value[0]));
    lemma_trim_tight(line);
    lemma_trim_tight(key);
    lemma_trim_tight(value);
    assert("timestamp"@.len() != key.len());
    assert forall|i: int| 0 <= i < line.len() implies #[trigger] line[i] != '\n' by {
        if i >= 15 {
            assert(line[i] == value[i - 15]);
            assert(is_ascii_digit(value[i - 15]));
        }
    }
}

proof fn lemma_reads_back(st: ReplicationState, time: Seq<char>)
    requires
        st.is_plain(),
        is_time_text(time),
        rfc3339_moment(time) == Some((st.timestamp, 0u32)),
    ensures
        state_text(written_lines(st.lines(time))) is Ok,
        st.holds(state_text(written_lines(st.lines(time)))->Ok_0),
{
    let comments = string_views(st.comments@);
    let ls = st.lines(time);
    let n = comments.len() as int;
    assert forall|i: int| 0 <= i < comments.len() implies is_plain_comment(#[trigger] comments[i]) by {
        assert(comments[i] == st.comments@[i]@);
    }
    assert forall|i: int| 0 <= i < comments.len() implies #[trigger] ls[i] == "#"@ + comments[i] by {}
    lemma_comments(comments, ls, n);
    let d = StateDraft { moment: None, sequence_number: None, comments: comments.take(n) };
    assert(comments.take(n) =~= comments);
    lemma_timestamp_line(d, time, st.timestamp);
    let e = StateDraft { moment: Some((st.timestamp, 0u32)), ..d };
    lemma_sequence_line(e, st.sequence_number);
    assert(ls[n] == "timestamp="@ + escaped(time));
    assert(ls[n + 1] == "sequenceNumber="@ + decimal(st.sequence_number as nat));
    assert(draft_after(ls, n + 1) == Ok::<StateDraft, Seq<char>>(e));
    assert(draft_after(ls, n + 2) == Ok::<StateDraft, Seq<char>>(
        StateDraft { sequence_number: Some(st.sequence_number), ..e },
    ));
    assert forall|i: int| 0 <= i < ls.len() implies is_line(#[trigger] ls[i]) by {
        if i < n {
            lemma_comment_line(d, comments[i]);
        }
    }
    law_written_lines_read_back(ls);
}

/// The comment that a line is carried on as: a comment without the white space
/// before its mark, and a line with another key behind a mark.
pub open spec fn carried(raw: Seq<char>) -> Option<Seq<char>> {
    let text = trim_start_seq(raw);
    if text.len() == 0 {
        None
    } else if text[0] == '#' {
        Some(text)
    } else {
        match split_once_seq(trim_seq(raw), '=') {
            Some((key, _)) => if trim_seq(key) == "timestamp"@ || trim_seq(key)
                == "sequenceNumber"@ {
                None
            } else {
                Some("#"@ + trim_seq(raw))
            },
            None => None,
        }
    }
}

/// The lines among some lines that are carried on.
pub open spec fn carried_lines(lines: Seq<Seq<char>>) -> Seq<Seq<char>>
    decreases lines.len(),
{
    if lines.len() == 0 {
        Seq::empty()
    } else {
        match carried(lines.last()) {
            Some(l) => carried_lines(lines.drop_last()).push(l),
            None => carried_lines(lines.drop_last()),
        }
    }
}

proof fn lemma_lines_carried(lines: Seq<Seq<char>>, n: int)
    requires
        0 <= n <= lines.len(),
        draft_after(lines, n) is Ok,
    ensures
        draft_after(lines, n)->Ok_0.comments.map_values(|c: Seq<char>| "#"@ + c) == carried_lines(
            lines.take(n),
        ),
    decreases n,
{
    let mark = |c: Seq<char>| "#"@ + c;
    if n > 0 {
        lemma_lines_carried(lines, n - 1);
        assert(lines.take(n).drop_last() =~= lines.take(n - 1));
        let raw = lines[n - 1];
        assert(lines.take(n).last() == raw);
        let before = draft_after(lines, n - 1)->Ok_0.comments;
        let after = draft_after(lines, n)->Ok_0.comments;
        match carried(raw) {
            Some(l) => {
                let text = trim_start_seq(raw);
                if text[0] == '#' {
                    reveal_strlit("#");
                    assert("#"@ + text.skip(1) =~= text);
                }
                assert("#"@ + after.last() == l);
                assert(after =~= before.push(after.last()));
                assert(after.map_values(mark) =~= before.map_values(mark).push(l));
            },
            None => {
                assert(after == before);
            },
        }
    } else {
        assert(draft_after(lines, 0)->Ok_0.comments.map_values(mark) =~= Seq::<Seq<char>>::empty());
    }
}

/// Comments are kept as they stand, and lines with other keys are carried on
/// behind a mark: the state that was read of a text writes them back, in their
/// order.
pub proof fn law_other_lines_come_back(s: Seq<char>, st: ReplicationState, time: Seq<char>)
    requires
        state_text(s) is Ok,
        st.holds(state_text(s)->Ok_0),
    ensures
        st.lines(time).take(st.lines(time).len() - 2) == carried_lines(lines_seq(s)),
{
    let lines = lines_seq(s);
    assert(lines.take(lines.len() as int) =~= lines);
    lemma_lines_carried(lines, lines.len() as int);
    assert(st.lines(time).take(st.lines(time).len() - 2) =~= carried_lines(lines));
}

/// Reading and writing leave the bytes as they are: of a text as it is written
/// for some comments, moment and number, the same text is written again.
pub proof fn law_bytes_are_stable(st: ReplicationState, again: ReplicationState, time: Seq<char>)
    requires
        st.is_plain(),
        is_time_text(time),
        st.is_time(time),
        rfc3339_moment(time) == Some((st.timestamp, 0u32)),
        again.holds(state_text(written_lines(st.lines(time)))->Ok_0),
    ensures
        again.is_time(time),
        written_lines(again.lines(time)) == written_lines(st.lines(time)),
{
    lemma_reads_back(st, time);
    assert(again.lines(time) =~= st.lines(time));
}

/// Whether a line has a key.
pub open spec fn names_key(line: Seq<char>, key: Seq<char>) -> bool {
    trim_start_seq(line).len() > 0 && trim_start_seq(line)[0] != '#' && (split_once_seq(
        trim_seq(line),
        '=',
    ) matches Some((k, _)) && trim_seq(k) == key)
}

proof fn lemma_fields_come_from_lines(lines: Seq<Seq<char>>, n: int)
    requires
        0 <= n <= lines.len(),
    ensures
        draft_after(lines, n) matches Ok(d) ==> {
            &&& d.moment is Some ==> exists|i: int|
                0 <= i < n && names_key(#[trigger] lines[i], "timestamp"@)
            &&& d.sequence_number is Some ==> exists|i: int|
                0 <= i < n && names_key(#[trigger] lines[i], "sequenceNumber"@)
        },
    decreases n,
{
    if n > 0 {
        lemma_fields_come_from_lines(lines, n - 1);
        if draft_after(lines, n) is Ok && draft_after(lines, n - 1) is Ok {
            let line = lines[n - 1];
            let before = draft_after(lines, n - 1)->Ok_0;
            let after = draft_after(lines, n)->Ok_0;
            if after.moment != before.moment {
                assert(names_key(line, "timestamp"@));
            }
            if after.sequence_number != before.sequence_number {
                assert(names_key(line, "sequenceNumber"@));
            }
        }
    }
}

/// A state has a line with the timestamp and one with the sequence number; a text
/// without one of them is refused.
pub proof fn law_state_needs_both_lines(s: Seq<char>)
    requires
        state_text(s) is Ok,
    ensures
        exists|i: int| 0 <= i < lines_seq(s).len() && names_key(
            #[trigger] lines_seq(s)[i],
            "timestamp"@,
        ),
        exists|i: int| 0 <= i < lines_seq(s).len() && names_key(
            #[trigger] lines_seq(s)[i],
            "sequenceNumber"@,
        ),
{
    lemma_fields_come_from_lines(lines_seq(s), lines_seq(s).len() as int);
}

/// A text with a line that is neither blank nor a comment and has no equals sign
/// is refused.
pub proof fn law_line_without_a_key_is_refused(s: Seq<char>, i: int)
    requires
        0 <= i < lines_seq(s).len(),
        trim_start_seq(lines_seq(s)[i]).len() > 0,
        trim_start_seq(lines_seq(s)[i])[0] != '#',
        forall|k: int|
            0 <= k < trim_seq(lines_seq(s)[i]).len() ==> #[trigger] trim_seq(lines_seq(s)[i])[k] != '=',
    ensures
        state_text(s) is Err,
{
    let lines = lines_seq(s);
    let text = trim_seq(lines[i]);
    assert forall|k: int| 0 <= k < text.len() implies !#[trigger] is_char('=')(text[k]) by {}
    lemma_first_where_is(text, is_char('='), text.len() as int);
    assert(draft_after(lines, i + 1) is Err);
    lemma_error_sticks(lines, i + 1, lines.len() as int);
}

/// A line with the sequence number or the timestamp sets just that, whatever
/// stood before: the last line of a key counts.
pub proof fn law_last_line_of_a_key_counts(d: StateDraft, n: u64, time: Seq<char>, secs: i64)
    requires
        is_time_text(time),
        rfc3339_moment(time) == Some((secs, 0u32)),
    ensures
        draft_with(d, "sequenceNumber="@ + decimal(n as nat)) matches Ok(e) && e.sequence_number
            == Some(n) && e.moment == d.moment && e.comments == d.comments,
        draft_with(d, "timestamp="@ + escaped(time)) matches Ok(e) && e.moment == Some((secs, 0u32))
            && e.sequence_number == d.sequence_number && e.comments == d.comments,
{
    lemma_sequence_line(d, n);
    lemma_timestamp_line(d, time, secs);
}

} // verus!
