//! Where the data comes from: map extracts, address files and the database of
//! network addresses.
use vstd::prelude::*;
use crate::fetch::{range_from, range_header, FetchOpts, FetchOutcome, FetchTarget};
use crate::lines::{is_line, law_written_lines_read_back, lines_of, lines_seq, written_lines};
use crate::paths::{dotted, join_path, joined, with_suffix};
use crate::region::{basename_of, form_of, md5_text, url_basename, url_host, Region};
use crate::text::{
    append_chars, append_str, chars_are, chars_of, contains_chars, decimal, decimal_chars,
    eq_ignore_case, chars_eq_ignore_case, has_infix, has_prefix, is_ascii_digit,
    lemma_decimal_round_trip, lower_chars, lower_seq, nonempty, nonempty_pieces, opt_str_view,
    opt_view, parse_uint, parse_uint_seq, split_chars, split_where, str_eq, string_of, string_views,
    strip_prefix, strip_prefix_seq, sub_chars, trim_chars, trim_seq, views,
};

verus! {

broadcast use vstd::seq::group_seq_axioms;

// --- Map extracts ---
/// The name that a URL is saved under: its last segment, or a stand-in where
/// it has none.
pub open spec fn saved_name(basename: Option<Seq<char>>) -> Seq<char> {
    match basename {
        Some(b) => if b.len() > 0 {
            b
        } else {
            "download.osm.pbf"@
        },
        None => "download.osm.pbf"@,
    }
}

/// Where a file is saved, as the last segment of its URL says.
pub fn dest_for(dir: &str, basename: Option<&str>) -> (r: String)
    ensures
        r@ == joined(dir@, saved_name(opt_str_view(basename))),
{
    match basename {
        Some(b) if !b.is_empty() => join_path(dir, b),
        _ => join_path(dir, "download.osm.pbf"),
    }
}

/// What to fetch for a URL.
pub fn target_for(pbf_dir: &str, url: &str) -> (r: FetchTarget)
    ensures
        r.url@ == url@,
        r.dest@ == joined(pbf_dir@, saved_name(url_basename(url@))),
        opt_view(r.md5_url) == form_of(md5_text(url_host(url@), url@)),
{
    let dest = match basename_of(url) {
        Some(b) => dest_for(pbf_dir, Some(b.as_str())),
        None => dest_for(pbf_dir, None),
    };
    FetchTarget { url: url.to_owned(), dest, md5_url: Region::md5_url(url) }
}

/// The file that holds the replication state of an extract.
pub fn state_sidecar(dest: &str) -> (r: String)
    ensures
        r@ == dotted(dest@, "state.txt"@),
{
    with_suffix(dest, "state.txt")
}

// --- Address files ---
/// What became of the file of an address source.
pub struct OaResult {
    pub dest: String,
    pub outcome: Result<FetchOutcome, String>,
}

/// What became of the file of a gazetteer.
pub struct WofResult {
    pub dest: String,
    pub outcome: Result<FetchOutcome, String>,
}

/// A row of the list of address sources.
pub struct OaApiRow {
    pub job: Option<u64>,
    pub source: Option<String>,
    /// Whether there is an archive of the source.
    pub cache: Option<bool>,
}

pub const OA_API: &'static str = "https://batch.openaddresses.io/api/data?layer=addresses";

/// The URL of the list of address sources, or of those with a prefix.
pub fn list_url(prefix: Option<&str>) -> (r: String)
    ensures
        r@ == (match prefix {
            Some(p) => OA_API@ + "&source="@ + p@,
            None => OA_API@,
        }),
{
    match prefix {
        Some(p) => {
            let mut out = chars_of(OA_API);
            append_str(&mut out, "&source=");
            append_str(&mut out, p);
            assert(out@ =~= OA_API@ + "&source="@ + p@);
            string_of(&out)
        },
        None => OA_API.to_owned(),
    }
}

pub open spec fn scope_separator() -> spec_fn(char) -> bool {
    |c: char| c == ' ' || c == ','
}

/// The pieces without the white space around them.
pub open spec fn trimmed(pieces: Seq<Seq<char>>) -> Seq<Seq<char>> {
    pieces.map_values(|p: Seq<char>| trim_seq(p))
}

/// The prefixes that a list asks for; none for everything.
pub open spec fn scopes_in(sources: Seq<char>) -> Seq<Seq<char>> {
    let s = trim_seq(sources);
    if s.len() == 0 || eq_ignore_case(s, "all"@) {
        Seq::empty()
    } else {
        nonempty(trimmed(split_where(s, scope_separator())))
    }
}

/// Reads a list of prefixes between spaces and commas.
pub fn parse_scopes(sources: &str) -> (r: Vec<String>)
    ensures
        string_views(r@) == scopes_in(sources@),
{
    let s = trim_chars(&chars_of(sources));
    let mut out: Vec<String> = Vec::new();
    if s.len() == 0 || chars_eq_ignore_case(&s, &chars_of("all")) {
        assert(string_views(out@) =~= Seq::<Seq<char>>::empty());
        return out;
    }
    let is_sep = |c: char| -> (b: bool)
        ensures
            b == (c == ' ' || c == ','),
    {
        c == ' ' || c == ','
    };
    let pieces = split_chars(&s, is_sep, Ghost(scope_separator()));
    let ghost all = views(pieces@);
    let mut tidy: Vec<Vec<char>> = Vec::new();
    for i in 0..pieces.len()
        invariant
            all == views(pieces@),
            tidy@.len() == i,
            forall|j: int| 0 <= j < i ==> (#[trigger] tidy@[j])@ == trim_seq(all[j]),
    {
        assert(all[i as int] == pieces@[i as int]@);
        tidy.push(trim_chars(&pieces[i]));
    }
    assert(views(tidy@) =~= trimmed(all));
    let kept = nonempty_pieces(tidy);
    for i in 0..kept.len()
        invariant
            out@.len() == i,
            forall|j: int| 0 <= j < i ==> (#[trigger] out@[j])@ == kept@[j]@,
    {
        out.push(string_of(&kept[i]));
    }
    assert(string_views(out@) =~= views(kept@));
    out
}

/// A source path as a file name: with underscores between its parts.
pub open spec fn flat_name(source: Seq<char>) -> Seq<char> {
    source.map_values(
        |c: char|
            if c == '/' {
                '_'
            } else {
                c
            },
    )
}

/// What to fetch for a row.
pub struct OaPlan {
    pub job: u64,
    pub source: String,
    /// The name of the object.
    pub key: String,
    pub dest: String,
    pub label: &'static str,
}

/// The kind of file that a row offers: an archive where there is one.
pub open spec fn offered(row: OaApiRow) -> Seq<char> {
    if row.cache == Some(true) {
        "cache.zip"@
    } else {
        "source.geojson.gz"@
    }
}

/// Whether `r` is how the file of a row is downloaded.
pub open spec fn is_plan(row: OaApiRow, out_dir: Seq<char>, r: Result<OaPlan, &str>) -> bool {
    match r {
        Ok(plan) => {
            let source = match row.source {
                Some(s) => s@,
                None => Seq::empty(),
            };
            &&& row.job == Some(plan.job)
            &&& plan.source@ == source
            &&& plan.label@ == offered(row)
            &&& plan.key@ == "jobs/"@ + decimal(plan.job as nat) + "/"@ + offered(row)
            &&& plan.dest@ == joined(out_dir, flat_name(source) + "."@ + offered(row))
        },
        Err(e) => row.job is None && e@ == "OA API row missing 'job' field"@,
    }
}

/// Plans the download of a row. It fails only where the row has no job.
pub fn plan_row(row: &OaApiRow, out_dir: &str) -> (r: Result<OaPlan, &'static str>)
    ensures
        is_plan(*row, out_dir@, r),
{
    let job: u64 = match row.job {
        Some(j) => j,
        None => return Err("OA API row missing 'job' field"),
    };
    let source = match &row.source {
        Some(s) => s.clone(),
        None => String::new(),
    };
    let label = match row.cache {
        Some(true) => "cache.zip",
        _ => "source.geojson.gz",
    };
    let mut key: Vec<char> = Vec::new();
    append_str(&mut key, "jobs/");
    append_chars(&mut key, &decimal_chars(job));
    append_str(&mut key, "/");
    append_str(&mut key, label);
    assert(key@ =~= "jobs/"@ + decimal(job as nat) + "/"@ + label@);
    let chars = chars_of(source.as_str());
    let mut name: Vec<char> = Vec::new();
    for i in 0..chars.len()
        invariant
            chars@ == source@,
            name@ == flat_name(source@).take(i as int),
    {
        name.push(
            if chars[i] == '/' {
                '_'
            } else {
                chars[i]
            },
        );
        assert(name@ =~= flat_name(source@).take(i + 1));
    }
    assert(name@ =~= flat_name(source@));
    append_str(&mut name, ".");
    append_str(&mut name, label);
    assert(name@ =~= flat_name(source@) + "."@ + label@);
    Ok(
        OaPlan {
            job,
            source,
            key: string_of(&key),
            dest: join_path(out_dir, string_of(&name).as_str()),
            label,
        },
    )
}

// --- What is known of an object ---
/// The entity tag and the length of a downloaded object.
pub struct S3Meta {
    pub etag: String,
    pub length: u64,
}

/// A text without the quotes at its ends.
pub open spec fn unquoted(s: Seq<char>) -> Seq<char> {
    let a = unquoted_start(s);
    unquoted_end(a)
}

pub open spec fn unquoted_start(s: Seq<char>) -> Seq<char>
    decreases s.len(),
{
    if s.len() > 0 && s[0] == '"' {
        unquoted_start(s.skip(1))
    } else {
        s
    }
}

pub open spec fn unquoted_end(s: Seq<char>) -> Seq<char>
    decreases s.len(),
{
    if s.len() > 0 && s.last() == '"' {
        unquoted_end(s.drop_last())
    } else {
        s
    }
}

fn unquote(v: &[char]) -> (r: Vec<char>)
    ensures
        r@ == unquoted(v@),
{
    let mut a: usize = 0;
    assert(v@.skip(0) =~= v@);
    while a < v.len() && v[a] == '"'
        invariant
            a <= v@.len(),
            unquoted_start(v@.skip(a as int)) == unquoted_start(v@),
        decreases v@.len() - a,
    {
        assert(v@.skip(a as int).skip(1) =~= v@.skip(a + 1));
        a = a + 1;
    }
    let ghost s = v@.skip(a as int);
    let mut b: usize = v.len();
    assert(v@.subrange(a as int, b as int) =~= s);
    while b > a && v[b - 1] == '"'
        invariant
            a <= b <= v@.len(),
            unquoted_end(v@.subrange(a as int, b as int)) == unquoted_end(s),
        decreases b,
    {
        assert(v@.subrange(a as int, b as int).drop_last() =~= v@.subrange(a as int, b - 1));
        b = b - 1;
    }
    let r = sub_chars(v, a, b);
    assert(r@ =~= v@.subrange(a as int, b as int));
    r
}

/// An entity tag in its normal form: without white space and quotes around it.
pub open spec fn plain_etag(s: Seq<char>) -> Seq<char> {
    unquoted(trim_seq(s))
}

/// Brings an entity tag into its normal form.
pub fn normalize_etag(s: &str) -> (r: String)
    ensures
        r@ == plain_etag(s@),
{
    string_of(&unquote(&trim_chars(&chars_of(s))))
}

/// The tag of the last line that states one, among the first `n`.
pub open spec fn etag_in(lines: Seq<Seq<char>>, n: int) -> Option<Seq<char>>
    decreases n,
{
    if n <= 0 {
        None
    } else {
        match strip_prefix_seq(lines[n - 1], "etag="@) {
            Some(rest) => Some(plain_etag(rest)),
            None => etag_in(lines, n - 1),
        }
    }
}

/// The length that the last line that states one gives, among the first `n`. A
/// line that begins with the tag states none.
pub open spec fn length_in(lines: Seq<Seq<char>>, n: int) -> Option<u64>
    decreases n,
{
    if n <= 0 {
        None
    } else if strip_prefix_seq(lines[n - 1], "etag="@) is Some {
        length_in(lines, n - 1)
    } else {
        match strip_prefix_seq(lines[n - 1], "length="@) {
            Some(rest) => match parse_uint_seq(trim_seq(rest), u64::MAX as nat) {
                Some(v) => Some(v as u64),
                None => None,
            },
            None => length_in(lines, n - 1),
        }
    }
}

/// What a sidecar states.
pub open spec fn meta_in(s: Seq<char>) -> Option<(Seq<char>, u64)> {
    let lines = lines_seq(s);
    match (etag_in(lines, lines.len() as int), length_in(lines, lines.len() as int)) {
        (Some(e), Some(l)) => Some((e, l)),
        _ => None,
    }
}

impl S3Meta {
    /// Reads a sidecar.
    pub fn parse(s: &str) -> (r: Option<S3Meta>)
        ensures
            match r {
                Some(m) => meta_in(s@) == Some((m.etag@, m.length)),
                None => meta_in(s@) is None,
            },
    {
        let lines = lines_of(&chars_of(s));
        let ghost all = lines_seq(s@);
        let mut etag: Option<String> = None;
        let mut length: Option<u64> = None;
        for i in 0..lines.len()
            invariant
                all == views(lines@),
                opt_view(etag) == etag_in(all, i as int),
                length == length_in(all, i as int),
        {
            let line = &lines[i];
            assert(all[i as int] == line@);
            match strip_prefix(line, &chars_of("etag=")) {
                Some(rest) => {
                    etag = Some(normalize_etag(string_of(&rest).as_str()));
                },
                None => {
                    if let Some(rest) = strip_prefix(line, &chars_of("length=")) {
                        length = parse_uint(&trim_chars(&rest), u64::MAX);
                    }
                },
            }
        }
        match (etag, length) {
            (Some(etag), Some(length)) => Some(S3Meta { etag, length }),
            _ => None,
        }
    }

    /// The lines of the sidecar.
    pub open spec fn lines(&self) -> Seq<Seq<char>> {
        seq![
            "etag=\""@ + unquoted(self.etag@) + "\""@,
            "length="@ + decimal(self.length as nat),
        ]
    }

    /// Writes the sidecar.
    pub fn render(&self) -> (r: String)
        ensures
            r@ == written_lines(self.lines()),
    {
        let mut out: Vec<char> = Vec::new();
        append_str(&mut out, "etag=\"");
        append_chars(&mut out, &unquote(&chars_of(self.etag.as_str())));
        append_str(&mut out, "\"");
        let ghost first = self.lines()[0];
        assert(out@ =~= first);
        out.push('\n');
        append_str(&mut out, "length=");
        append_chars(&mut out, &decimal_chars(self.length));
        out.push('\n');
        proof {
            let ls = self.lines();
            assert(ls.drop_last() =~= seq![first]);
            assert(seq![first].drop_last() =~= Seq::<Seq<char>>::empty());
            assert(written_lines(seq![first].drop_last()) =~= Seq::<char>::empty());
            assert(written_lines(seq![first]) =~= first.push('\n'));
            assert(out@ =~= first.push('\n') + ls[1].push('\n'));
        }
        string_of(&out)
    }
}

proof fn lemma_unquoted_plain(s: Seq<char>)
    requires
        s.len() > 0 ==> s[0] != '"' && s.last() != '"',
    ensures
        unquoted(s) == s,
        unquoted(seq!['"'] + s + seq!['"']) == s,
{
    let q = seq!['"'] + s + seq!['"'];
    assert(q.skip(1) =~= s + seq!['"']);
    if s.len() == 0 {
        assert(s =~= Seq::<char>::empty());
        let one = seq!['"'];
        assert(q.skip(1) =~= one);
        assert(one.skip(1) =~= s);
        assert(unquoted_start(one) == unquoted_start(s));
        assert(unquoted_start(q) == unquoted_start(one));
    } else {
        let t = s + seq!['"'];
        assert(t[0] == s[0]);
        assert(unquoted_start(t) == t);
        assert(t.last() == '"');
        assert(t.drop_last() =~= s);
    }
}

/// What a sidecar was written from is read back, if the tag is one line and
/// has no quotes at its ends.
pub proof fn law_meta_reads_back(m: S3Meta)
    requires
        forall|i: int| 0 <= i < m.etag@.len() ==> #[trigger] m.etag@[i] != '\n',
        m.etag@.len() > 0 ==> m.etag@[0] != '"' && m.etag@.last() != '"',
    ensures
        meta_in(written_lines(m.lines())) == Some((m.etag@, m.length)),
{
    reveal_strlit("etag=\"");
    reveal_strlit("etag=");
    reveal_strlit("\"");
    reveal_strlit("length=");
    let ls = m.lines();
    let quoted = seq!['"'] + m.etag@ + seq!['"'];
    lemma_unquoted_plain(m.etag@);
    assert("etag=\""@ =~= "etag="@.push('"'));
    assert("\""@ =~= seq!['"']);
    assert(ls[0] =~= "etag="@ + quoted);
    assert(ls[0].take(5) =~= "etag="@);
    assert(ls[0].skip(5) =~= quoted);
    assert(strip_prefix_seq(ls[0], "etag="@) == Some(quoted));
    assert(quoted[0] == '"' && quoted.last() == '"');
    assert(trim_seq(quoted) == quoted);
    let value = decimal(m.length as nat);
    lemma_decimal_round_trip(m.length as nat);
    assert(is_ascii_digit(value[0]) && is_ascii_digit(value[value.len() - 1]));
    assert(trim_seq(value) == value);
    assert(ls[1].take(7) =~= "length="@);
    assert(ls[1].skip(7) =~= value);
    assert(ls[1][0] == 'l');
    assert(strip_prefix_seq(ls[1], "etag="@) is None) by {
        if has_prefix(ls[1], "etag="@) {
            assert(ls[1].take(5)[0] == ls[1][0]);
        }
    }
    assert forall|i: int| 0 <= i < ls.len() implies is_line(#[trigger] ls[i]) by {
        if i == 0 {
            assert forall|k: int| 0 <= k < ls[0].len() implies #[trigger] ls[0][k] != '\n' by {
                if 6 <= k < ls[0].len() - 1 {
                    assert(ls[0][k] == m.etag@[k - 6]);
                }
            }
            assert(ls[0].last() == '"');
        } else {
            assert forall|k: int| 0 <= k < ls[1].len() implies #[trigger] ls[1][k] != '\n' by {
                if k >= 7 {
                    assert(ls[1][k] == value[k - 7]);
                    assert(is_ascii_digit(value[k - 7]));
                }
            }
            assert(ls[1].last() == value[value.len() - 1]);
        }
    }
    law_written_lines_read_back(ls);
    assert(length_in(ls, 2) == Some(m.length));
    assert(etag_in(ls, 1) == Some(m.etag@));
    assert(etag_in(ls, 2) == etag_in(ls, 1));
}

/// The files beside the file of an object.
pub fn meta_sidecar(dest: &str) -> (r: String)
    ensures
        r@ == dotted(dest@, "s3meta"@),
{
    with_suffix(dest, "s3meta")
}

/// Whether the server is asked for the tag of an object first.
pub fn asks_for_tag(opts: &FetchOpts, dest_exists: bool, meta: Option<&S3Meta>) -> (r: bool)
    ensures
        r == (!opts.force && dest_exists && meta is Some),
{
    !opts.force && dest_exists && meta.is_some()
}

/// Whether a tag that the server gives is the one that was noted.
pub open spec fn is_same_tag(server: Option<Seq<char>>, noted: Seq<char>) -> bool {
    match server {
        Some(e) => plain_etag(e).len() > 0 && plain_etag(e) == noted,
        None => false,
    }
}

/// Whether the file on disk is current: the server has the same tag.
pub fn is_current(server_etag: Option<&str>, saved: &S3Meta) -> (r: bool)
    ensures
        r == is_same_tag(opt_str_view(server_etag), saved.etag@),
{
    match server_etag {
        Some(e) => {
            let tag = normalize_etag(e);
            !tag.as_str().is_empty() && str_eq(tag.as_str(), saved.etag.as_str())
        },
        None => false,
    }
}

/// What to do with a partial file.
pub enum PartialChoice {
    /// There is none to go on with.
    Nothing,
    /// It cannot be gone on with.
    Remove,
    /// Ask for the rest of the object, on condition that its tag is the same.
    Resume { range: String, if_match: String },
}

/// Whether `r` is what to do with a partial file. Without a sidecar, or with a
/// size that the sidecar does not allow, it is removed.
pub open spec fn is_partial_choice(
    opts: FetchOpts,
    partial: Option<u64>,
    meta: Option<S3Meta>,
    r: PartialChoice,
) -> bool {
    if !opts.resume || opts.force || partial is None {
        r is Nothing
    } else {
        match meta {
            Some(saved) => if 0 < partial->0 < saved.length {
                match r {
                    PartialChoice::Resume { range, if_match } => range@ == range_header(partial->0)
                        && if_match@ == "\""@ + saved.etag@ + "\""@,
                    _ => false,
                }
            } else {
                r is Remove
            },
            None => r is Remove,
        }
    }
}

/// What to do with a partial file.
pub fn partial_choice(opts: &FetchOpts, partial: Option<u64>, meta: &Option<S3Meta>) -> (r:
    PartialChoice)
    ensures
        is_partial_choice(*opts, partial, *meta, r),
{
    if !opts.resume || opts.force {
        return PartialChoice::Nothing;
    }
    match partial {
        None => PartialChoice::Nothing,
        Some(size) => match meta {
            Some(saved) if 0 < size && size < saved.length => {
                let mut tag: Vec<char> = Vec::new();
                append_str(&mut tag, "\"");
                append_str(&mut tag, saved.etag.as_str());
                append_str(&mut tag, "\"");
                assert(tag@ =~= "\""@ + saved.etag@ + "\""@);
                PartialChoice::Resume { range: range_from(size), if_match: string_of(&tag) }
            },
            _ => PartialChoice::Remove,
        },
    }
}

/// What is said of a file that was gone on with and has another length than the
/// sidecar states.
pub open spec fn length_fault(total: int, expected: u64) -> Seq<char> {
    "OA resume length mismatch: got "@ + decimal(total as nat) + " bytes, sidecar says "@ + decimal(
        expected as nat,
    )
}

/// What became of an object whose rest was downloaded: it must have the length
/// that the sidecar states.
pub fn finish_resume(partial: u64, appended: u64, saved: &S3Meta) -> (r: Result<
    FetchOutcome,
    String,
>)
    requires
        partial + appended <= u64::MAX,
    ensures
        match r {
            Ok(outcome) => partial + appended == saved.length && outcome == (
            FetchOutcome::Resumed { bytes: appended, total: saved.length }),
            Err(e) => partial + appended != saved.length && e@ == length_fault(
                partial + appended,
                saved.length,
            ),
        },
{
    let total: u64 = partial + appended;
    if total != saved.length {
        let mut m: Vec<char> = Vec::new();
        append_str(&mut m, "OA resume length mismatch: got ");
        append_chars(&mut m, &decimal_chars(total));
        append_str(&mut m, " bytes, sidecar says ");
        append_chars(&mut m, &decimal_chars(saved.length));
        assert(m@ =~= length_fault(partial + appended, saved.length));
        return Err(string_of(&m));
    }
    Ok(FetchOutcome::Resumed { bytes: appended, total })
}

/// What to note of an object that was downloaded as a whole; nothing where the
/// server gave no tag.
pub fn meta_after(server_etag: Option<&str>, total: u64) -> (r: Option<S3Meta>)
    ensures
        ({
            let tag = match server_etag {
                Some(e) => plain_etag(e@),
                None => Seq::empty(),
            };
            match r {
                Some(m) => tag.len() > 0 && m.etag@ == tag && m.length == total,
                None => tag.len() == 0,
            }
        }),
{
    match server_etag {
        Some(e) => {
            let etag = normalize_etag(e);
            if etag.as_str().is_empty() {
                None
            } else {
                Some(S3Meta { etag, length: total })
            }
        },
        None => None,
    }
}

// --- The database of network addresses ---
/// Most bytes of the database.
pub const MAX_MMDB_BYTES: u64 = 1073741824;

/// The name of the database inside its archive.
pub const MMDB_FILE: &'static str = "GeoLite2-City.mmdb";

/// Whether the fallback is switched off.
pub open spec fn is_off(value: Option<Seq<char>>) -> bool {
    match value {
        Some(v) => {
            let t = lower_seq(trim_seq(v));
            t == "0"@ || t == "false"@ || t == "no"@ || t == "off"@
        },
        None => false,
    }
}

/// Whether the fallback is switched off, as the environment says.
pub fn fallback_disabled(value: Option<&str>) -> (r: bool)
    ensures
        r == is_off(opt_str_view(value)),
{
    match value {
        Some(v) => {
            let t = lower_chars(&trim_chars(&chars_of(v)));
            chars_are(&t, "0") || chars_are(&t, "false") || chars_are(&t, "no") || chars_are(
                &t,
                "off",
            )
        },
        None => false,
    }
}

/// Where to fetch the database from.
pub enum MmdbSource {
    /// The licensed database, with the key.
    Licensed(String),
    /// The free database.
    Free,
    /// Nowhere, and why.
    Skip(&'static str),
}

pub const SKIP_REASON: &'static str = "MAXMIND_LICENSE_KEY unset and MAXMIND_FALLBACK_TO_DBIP disabled (sign up at https://www.maxmind.com/en/geolite2/signup or set MAXMIND_FALLBACK_TO_DBIP=true to use the DB-IP free city-lite dataset)";

/// Whether `r` is where to fetch the database from.
pub open spec fn is_mmdb_source(
    key: Option<Seq<char>>,
    fallback: Option<Seq<char>>,
    r: MmdbSource,
) -> bool {
    let has_key = key is Some && trim_seq(key->0).len() > 0;
    match r {
        MmdbSource::Licensed(k) => has_key && k@ == key->0,
        MmdbSource::Free => !has_key && !is_off(fallback),
        MmdbSource::Skip(why) => !has_key && is_off(fallback) && why@ == SKIP_REASON@,
    }
}

/// Chooses where to fetch the database from: a key that is not blank makes it
/// the licensed one, and else it is the free one, unless that is switched off.
pub fn mmdb_source(key: Option<&str>, fallback: Option<&str>) -> (r: MmdbSource)
    ensures
        is_mmdb_source(opt_str_view(key), opt_str_view(fallback), r),
{
    if let Some(k) = key {
        if trim_chars(&chars_of(k)).len() > 0 {
            return MmdbSource::Licensed(k.to_owned());
        }
    }
    if fallback_disabled(fallback) {
        MmdbSource::Skip(SKIP_REASON)
    } else {
        MmdbSource::Free
    }
}

/// The URL of the licensed database.
pub fn maxmind_url(key: &str) -> (r: String)
    ensures
        r@
            == "https://download.maxmind.com/app/geoip_download?edition_id=GeoLite2-City&license_key="@
            + key@ + "&suffix=tar.gz"@,
{
    let mut out: Vec<char> = Vec::new();
    append_str(
        &mut out,
        "https://download.maxmind.com/app/geoip_download?edition_id=GeoLite2-City&license_key=",
    );
    append_str(&mut out, key);
    append_str(&mut out, "&suffix=tar.gz");
    assert(out@
        =~= "https://download.maxmind.com/app/geoip_download?edition_id=GeoLite2-City&license_key="@
        + key@ + "&suffix=tar.gz"@);
    string_of(&out)
}

/// A month.
#[derive(Clone, Copy, Debug, PartialEq, Eq, Structural)]
pub struct Month {
    pub year: u32,
    /// From 1 to 12.
    pub month: u32,
}

/// The month before.
pub open spec fn month_before(m: Month) -> Month {
    if m.month == 1 {
        Month { year: (m.year - 1) as u32, month: 12 }
    } else {
        Month { year: m.year, month: (m.month - 1) as u32 }
    }
}

/// The months whose free database is tried: the current one, whose database
/// may not be out yet, and the one before.
pub fn candidate_months(now: Month) -> (r: [Month; 2])
    requires
        1 <= now.month <= 12,
        now.year >= 1,
    ensures
        r[0] == now,
        r[1] == month_before(now),
{
    let before = if now.month == 1 {
        Month { year: now.year - 1, month: 12 }
    } else {
        Month { year: now.year, month: now.month - 1 }
    };
    [now, before]
}

/// A number with zeros in front, so that it has at least `width` digits.
pub open spec fn padded(n: nat, width: nat) -> Seq<char> {
    let d = decimal(n);
    if d.len() < width {
        Seq::new((width - d.len()) as nat, |i: int| '0') + d
    } else {
        d
    }
}

fn padded_chars(n: u32, width: usize) -> (r: Vec<char>)
    ensures
        r@ == padded(n as nat, width as nat),
{
    let d = decimal_chars(n as u64);
    let mut out: Vec<char> = Vec::new();
    if d.len() < width {
        let gap: usize = width - d.len();
        for i in 0..gap
            invariant
                out@ == Seq::new(i as nat, |k: int| '0'),
        {
            out.push('0');
            assert(out@ =~= Seq::new((i + 1) as nat, |k: int| '0'));
        }
    } else {
        assert(Seq::<char>::empty() + d@ =~= d@);
    }
    append_chars(&mut out, &d);
    out
}

/// A month as text: `YYYY-MM`.
pub open spec fn month_text(m: Month) -> Seq<char> {
    padded(m.year as nat, 4) + "-"@ + padded(m.month as nat, 2)
}

fn append_month(out: &mut Vec<char>, m: &Month)
    ensures
        final(out)@ == old(out)@ + month_text(*m),
{
    append_chars(out, &padded_chars(m.year, 4));
    append_str(out, "-");
    append_chars(out, &padded_chars(m.month, 2));
    assert(out@ =~= old(out)@ + month_text(*m));
}

/// The URL of the free database of a month.
pub fn dbip_url(m: &Month) -> (r: String)
    ensures
        r@ == "https://download.db-ip.com/free/dbip-city-lite-"@ + month_text(*m) + ".mmdb.gz"@,
{
    let mut out: Vec<char> = Vec::new();
    append_str(&mut out, "https://download.db-ip.com/free/dbip-city-lite-");
    append_month(&mut out, m);
    append_str(&mut out, ".mmdb.gz");
    assert(out@ =~= "https://download.db-ip.com/free/dbip-city-lite-"@ + month_text(*m)
        + ".mmdb.gz"@);
    string_of(&out)
}

/// How the free database of a month is called.
pub fn dbip_tag(m: &Month) -> (r: String)
    ensures
        r@ == "dbip-city-lite "@ + month_text(*m),
{
    let mut out: Vec<char> = Vec::new();
    append_str(&mut out, "dbip-city-lite ");
    append_month(&mut out, m);
    assert(out@ =~= "dbip-city-lite "@ + month_text(*m));
    string_of(&out)
}

/// Whether the free database of a month is on disk already, as the sidecar
/// says.
pub fn dbip_is_current(opts: &FetchOpts, dest_exists: bool, sidecar: Option<&str>, m: &Month) -> (r:
    bool)
    ensures
        r == (!opts.force && dest_exists && sidecar is Some && has_infix(
            sidecar->0@,
            "dbip-city-lite "@ + month_text(*m),
        )),
{
    match sidecar {
        Some(text) => !opts.force && dest_exists && contains_chars(
            &chars_of(text),
            &chars_of(dbip_tag(m).as_str()),
        ),
        None => false,
    }
}

/// The text of the sidecar that says which database is on disk.
pub open spec fn source_text(source: Seq<char>, via: Seq<char>, at: Seq<char>) -> Seq<char> {
    "source = "@ + source + "\nacquired_via = "@ + via + "\nacquired_at = "@ + at + "\n"@
}

/// Writes the sidecar that says which database is on disk.
pub fn source_sidecar_text(source: &str, via: &str, at: &str) -> (r: String)
    ensures
        r@ == source_text(source@, via@, at@),
{
    let mut out: Vec<char> = Vec::new();
    append_str(&mut out, "source = ");
    append_str(&mut out, source);
    append_str(&mut out, "\nacquired_via = ");
    append_str(&mut out, via);
    append_str(&mut out, "\nacquired_at = ");
    append_str(&mut out, at);
    append_str(&mut out, "\n");
    assert(out@ =~= source_text(source@, via@, at@));
    string_of(&out)
}

/// Whether a database is too large to be one.
pub fn exceeds_cap(written: u64) -> (r: bool)
    ensures
        r == (written > MAX_MMDB_BYTES),
{
    written > MAX_MMDB_BYTES
}

/// What to do with an entry of the archive of the licensed database.
#[derive(Clone, Copy, Debug, PartialEq, Eq, Structural)]
pub enum TarStep {
    Extract,
    Pass,
    /// The database was met already.
    Stop,
}

/// What to do with an entry of the archive: the first database is taken.
pub fn tar_step(file_name: Option<&str>, found: bool) -> (r: TarStep)
    ensures
        r == (if file_name is Some && file_name->0@ == MMDB_FILE@ {
            if found {
                TarStep::Stop
            } else {
                TarStep::Extract
            }
        } else {
            TarStep::Pass
        }),
{
    match file_name {
        Some(n) if str_eq(n, MMDB_FILE) => {
            if found {
                TarStep::Stop
            } else {
                TarStep::Extract
            }
        },
        _ => TarStep::Pass,
    }
}

/// A database that was fetched as the free one of a month is found again: the
/// sidecar that is written then says that it is on disk.
pub proof fn law_source_is_found_again(m: Month, via: Seq<char>, at: Seq<char>)
    ensures
        has_infix(
            source_text("dbip-city-lite "@ + month_text(m), via, at),
            "dbip-city-lite "@ + month_text(m),
        ),
{
    let tag = "dbip-city-lite "@ + month_text(m);
    let all = source_text(tag, via, at);
    let n = "source = "@.len() as int;
    assert(all.skip(n).take(tag.len() as int) =~= tag);
    assert(has_prefix(all.skip(n), tag));
}

} // verus!
