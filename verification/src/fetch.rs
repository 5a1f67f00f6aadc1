//! Conditional and resumable downloads: what to send, and what to make of the
//! reply.
use vstd::prelude::*;
use vstd::utf8::{encode_scalar, encode_utf8};
use crate::fold::{lowered, lowered_chars};
use crate::paths::{dotted, with_suffix};
use crate::text::{
    append_chars, append_str, chars_eq, chars_eq_ignore_case, chars_of, decimal, decimal_chars,
    eq_ignore_case, opt_str_view, opt_view, parse_uint, parse_uint_seq, string_of, sub_chars,
    trim_chars, trim_seq, views,
    words, words_of,
};

verus! {

broadcast use vstd::seq::group_seq_axioms;

/// How to fetch.
#[derive(Clone, Copy, Debug, PartialEq, Eq, Structural)]
pub struct FetchOpts {
    /// Always download anew.
    pub force: bool,
    /// Hold the file against its published checksum.
    pub verify_md5: bool,
    /// Go on where an earlier download stopped.
    pub resume: bool,
    pub show_progress: bool,
}

impl Default for FetchOpts {
    fn default() -> (r: FetchOpts)
        ensures
            !r.force,
            r.verify_md5,
            r.resume,
            r.show_progress,
    {
        FetchOpts { force: false, verify_md5: true, resume: true, show_progress: true }
    }
}

/// What became of a file.
pub enum FetchOutcome {
    /// The file on disk is current.
    Cached,
    /// The rest of a file was downloaded.
    Resumed { bytes: u64, total: u64 },
    /// The whole file was downloaded.
    Downloaded { bytes: u64 },
    /// The file is not to be fetched.
    Skipped { reason: String },
}

/// A file to fetch.
pub struct FetchTarget {
    pub url: String,
    pub dest: String,
    /// Where its checksum is published.
    pub md5_url: Option<String>,
}

// --- Sidecars ---
/// The file that holds the entity tag of `dest`.
pub fn etag_sidecar(dest: &str) -> (r: String)
    ensures
        r@ == dotted(dest@, "etag"@),
{
    with_suffix(dest, "etag")
}

/// The file that `dest` is downloaded into.
pub fn partial_sidecar(dest: &str) -> (r: String)
    ensures
        r@ == dotted(dest@, "partial"@),
{
    with_suffix(dest, "partial")
}

/// The entity tag that a sidecar holds.
pub open spec fn tag_in(text: Seq<char>) -> Option<Seq<char>> {
    if trim_seq(text).len() > 0 {
        Some(trim_seq(text))
    } else {
        None
    }
}

/// Reads the entity tag out of a sidecar.
pub fn read_etag(text: &str) -> (r: Option<String>)
    ensures
        opt_view(r) == tag_in(text@),
{
    let t = trim_chars(&chars_of(text));
    if t.len() > 0 {
        Some(string_of(&t))
    } else {
        None
    }
}

/// The entity tag to keep: the one of the reply, else the one known before.
pub fn pick_etag(header: Option<&str>, saved: Option<&str>) -> (r: Option<String>)
    ensures
        opt_view(r) == (match header {
            Some(h) => Some(h@),
            None => opt_str_view(saved),
        }),
{
    match header {
        Some(h) => Some(h.to_owned()),
        None => match saved {
            Some(s) => Some(s.to_owned()),
            None => None,
        },
    }
}

// --- Dates ---
/// The moment that an HTTP date names, in seconds since 1970.
pub uninterp spec fn http_moment(s: Seq<char>) -> Option<u64>;

/// The HTTP date of a moment.
pub uninterp spec fn http_date(secs: u64) -> Seq<char>;

/// The first second beyond what an HTTP date can name.
pub const END_OF_HTTP_DATES: u64 = 253402300800;

/// `httpdate::parse_http_date`, and the seconds since 1970. It never names a
/// moment before 1970.
#[verifier::external_body]
fn http_date_secs(s: &str) -> (r: Option<u64>)
    ensures
        r == http_moment(s@),
{
    let at = httpdate::parse_http_date(s).ok()?;
    at.duration_since(std::time::UNIX_EPOCH).ok().map(|d| d.as_secs())
}

/// `httpdate::fmt_http_date`, which takes moments from 1970 to the year 9999.
/// Its dates are read back.
#[verifier::external_body]
fn format_http_date(secs: u64) -> (r: String)
    requires
        secs < END_OF_HTTP_DATES,
    ensures
        r@ == http_date(secs),
        http_moment(r@) == Some(secs),
{
    httpdate::fmt_http_date(std::time::UNIX_EPOCH + std::time::Duration::from_secs(secs))
}

/// The time to give a file: the one that the reply states.
pub fn last_modified(header: Option<&str>) -> (r: Option<u64>)
    ensures
        r == (match header {
            Some(h) => http_moment(h@),
            None => None,
        }),
{
    match header {
        Some(h) => http_date_secs(h),
        None => None,
    }
}

/// The date to send for the time of a file; none beyond what a date can name.
pub fn modified_since(mtime: u64) -> (r: Option<String>)
    ensures
        match r {
            Some(s) => mtime < END_OF_HTTP_DATES && s@ == http_date(mtime) && http_moment(s@)
                == Some(mtime),
            None => mtime >= END_OF_HTTP_DATES,
        },
{
    if mtime < END_OF_HTTP_DATES {
        Some(format_http_date(mtime))
    } else {
        None
    }
}

// --- Requests ---
/// What is on disk before a download.
pub struct LocalFiles<'a> {
    /// The size of the partial file, where there is one.
    pub partial: Option<u64>,
    /// The text of the sidecar with the entity tag, where there is one.
    pub etag: Option<&'a str>,
    /// The time of the file, in seconds since 1970, where there is one.
    pub mtime: Option<u64>,
}

/// The headers of a request.
pub struct FetchRequest {
    pub range: Option<String>,
    pub if_range: Option<String>,
    pub if_none_match: Option<String>,
    pub if_modified_since: Option<String>,
}

/// The header that asks for the rest of a file.
pub open spec fn range_header(from: u64) -> Seq<char> {
    "bytes="@ + decimal(from as nat) + "-"@
}

/// Asks for the rest of a file.
pub fn range_from(from: u64) -> (r: String)
    ensures
        r@ == range_header(from),
{
    let mut out: Vec<char> = Vec::new();
    append_str(&mut out, "bytes=");
    append_chars(&mut out, &decimal_chars(from));
    append_str(&mut out, "-");
    assert(out@ =~= range_header(from));
    string_of(&out)
}

/// The saved entity tag.
pub open spec fn saved_tag(files: LocalFiles<'_>) -> Option<Seq<char>> {
    match files.etag {
        Some(t) => tag_in(t@),
        None => None,
    }
}

/// Whether a download goes on where an earlier one stopped.
pub open spec fn resumes(opts: FetchOpts, files: LocalFiles<'_>) -> bool {
    opts.resume && !opts.force && files.partial is Some
}

/// Whether `r` is the request for a file. A download that goes on asks for the
/// rest, on condition that the file is the same. Any other asks for a file
/// that differs from the one on disk, or for the file as it is where it is
/// forced.
pub open spec fn is_request(r: FetchRequest, opts: FetchOpts, files: LocalFiles<'_>) -> bool {
    if resumes(opts, files) {
        &&& opt_view(r.range) == Some(range_header(files.partial->0))
        &&& opt_view(r.if_range) == saved_tag(files)
        &&& r.if_none_match is None
        &&& r.if_modified_since is None
    } else if opts.force {
        &&& r.range is None
        &&& r.if_range is None
        &&& r.if_none_match is None
        &&& r.if_modified_since is None
    } else {
        &&& r.range is None
        &&& r.if_range is None
        &&& opt_view(r.if_none_match) == saved_tag(files)
        &&& opt_view(r.if_modified_since) == (match files.mtime {
            Some(t) => if t < END_OF_HTTP_DATES {
                Some(http_date(t))
            } else {
                None
            },
            None => None,
        })
    }
}

/// The request for a file.
pub fn plan_request(opts: &FetchOpts, files: &LocalFiles<'_>) -> (r: FetchRequest)
    ensures
        is_request(r, *opts, *files),
{
    let tag = match files.etag {
        Some(t) => read_etag(t),
        None => None,
    };
    if opts.resume && !opts.force {
        if let Some(size) = files.partial {
            return FetchRequest {
                range: Some(range_from(size)),
                if_range: tag,
                if_none_match: None,
                if_modified_since: None,
            };
        }
    }
    if opts.force {
        return FetchRequest {
            range: None,
            if_range: None,
            if_none_match: None,
            if_modified_since: None,
        };
    }
    FetchRequest {
        range: None,
        if_range: None,
        if_none_match: tag,
        if_modified_since: match files.mtime {
            Some(t) => modified_since(t),
            None => None,
        },
    }
}

// --- Replies ---
/// What to do with a reply.
#[derive(Clone, Copy, Debug, PartialEq, Eq, Structural)]
pub enum FetchAction {
    /// The file on disk is current.
    Keep,
    /// Download the body into a new partial file.
    DownloadFull,
    /// Append the body to the partial file.
    Append,
    /// Remove the partial file and ask again.
    StartOver,
    /// Remove the partial file and the entity tag, and ask again.
    ForgetTag,
    /// Fail with the reply.
    Fail,
}

/// Whether a request asks for the rest of a file.
pub open spec fn asks_for_rest(sent: FetchRequest) -> bool {
    sent.range is Some
}

/// Whether a request goes by the entity tag of an earlier reply.
pub open spec fn is_tagged(sent: FetchRequest) -> bool {
    sent.if_range is Some || sent.if_none_match is Some
}

/// Whether a request asks for a file only if it has changed.
pub open spec fn is_conditional(sent: FetchRequest) -> bool {
    sent.if_none_match is Some || sent.if_modified_since is Some
}

/// What to do with a reply of a given status to a request. That a file has not
/// changed is an answer only to a request that asked about it.
pub open spec fn action_for(sent: FetchRequest, status: u16) -> FetchAction {
    if status == 200 {
        FetchAction::DownloadFull
    } else if status == 412 && is_tagged(sent) {
        FetchAction::ForgetTag
    } else if asks_for_rest(sent) {
        if status == 206 {
            FetchAction::Append
        } else if status == 416 {
            FetchAction::StartOver
        } else {
            FetchAction::Fail
        }
    } else if status == 304 && is_conditional(sent) {
        FetchAction::Keep
    } else {
        FetchAction::Fail
    }
}

/// What to do with a reply.
pub fn on_status(sent: &FetchRequest, status: u16) -> (r: FetchAction)
    ensures
        r == action_for(*sent, status),
{
    if status == 200 {
        FetchAction::DownloadFull
    } else if status == 412 && (sent.if_range.is_some() || sent.if_none_match.is_some()) {
        FetchAction::ForgetTag
    } else if sent.range.is_some() {
        if status == 206 {
            FetchAction::Append
        } else if status == 416 {
            FetchAction::StartOver
        } else {
            FetchAction::Fail
        }
    } else if status == 304 && (sent.if_none_match.is_some() || sent.if_modified_since.is_some()) {
        FetchAction::Keep
    } else {
        FetchAction::Fail
    }
}

/// A download starts over at most twice: without a partial file there is
/// nothing to go on with, and without an entity tag as well nothing that a
/// server could hold against the request. Such a request is answered for good.
pub proof fn law_starts_over_at_most_twice(
    opts: FetchOpts,
    files: LocalFiles<'_>,
    r: FetchRequest,
    status: u16,
)
    requires
        files.partial is None,
        is_request(r, opts, files),
    ensures
        action_for(r, status) != FetchAction::StartOver,
        action_for(r, status) != FetchAction::Append,
        saved_tag(files) is None ==> action_for(r, status) != FetchAction::ForgetTag,
{
}

/// Only a part is appended, and only to what it goes on from; a whole body
/// always replaces what was there.
pub proof fn law_parts_are_appended(opts: FetchOpts, files: LocalFiles<'_>, r: FetchRequest, status: u16)
    requires
        is_request(r, opts, files),
    ensures
        action_for(r, status) == FetchAction::Append ==> status == 206 && files.partial is Some
            && opt_view(r.range) == Some(range_header(files.partial->0)),
        status == 200 ==> action_for(r, status) == FetchAction::DownloadFull,
{
}

/// A forced download sends no condition and asks for the whole file, and no
/// reply to it leaves the file on disk as it is.
pub proof fn law_force_is_unconditional(opts: FetchOpts, files: LocalFiles<'_>, r: FetchRequest)
    requires
        opts.force,
        is_request(r, opts, files),
    ensures
        r.range is None,
        r.if_range is None,
        r.if_none_match is None,
        r.if_modified_since is None,
        !resumes(opts, files),
        forall|s: u16| #[trigger] action_for(r, s) != FetchAction::Keep,
        forall|s: u16| #[trigger] action_for(r, s) != FetchAction::Append,
{
}

/// A file is kept only where the server says that it has not changed, and never
/// while the rest of it is missing.
pub proof fn law_kept_files_are_current(
    opts: FetchOpts,
    files: LocalFiles<'_>,
    r: FetchRequest,
    status: u16,
)
    requires
        is_request(r, opts, files),
    ensures
        action_for(r, status) == FetchAction::Keep ==> status == 304 && is_conditional(r)
            && !resumes(opts, files) && !opts.force,
{
}

/// What became of a file whose rest was downloaded.
pub fn resumed(partial: u64, appended: u64) -> (r: FetchOutcome)
    requires
        partial + appended <= u64::MAX,
    ensures
        r == (FetchOutcome::Resumed { bytes: appended, total: (partial + appended) as u64 }),
{
    FetchOutcome::Resumed { bytes: appended, total: partial + appended }
}

/// The length of the body that a reply states.
pub open spec fn stated_length(header: Option<Seq<char>>) -> Option<u64> {
    match header {
        Some(h) => match parse_uint_seq(h, u64::MAX as nat) {
            Some(n) => Some(n as u64),
            None => None,
        },
        None => None,
    }
}

/// How long the file will be, where the reply states it: what is on disk and
/// what is to come.
pub fn expected_length(header: Option<&str>, partial: u64) -> (r: Option<u64>)
    ensures
        r == (match stated_length(opt_str_view(header)) {
            Some(n) => if partial + n <= u64::MAX {
                Some((partial + n) as u64)
            } else {
                None
            },
            None => None,
        }),
{
    match header {
        Some(h) => match parse_uint(&chars_of(h), u64::MAX) {
            Some(n) => partial.checked_add(n),
            None => None,
        },
        None => None,
    }
}

/// Most bytes of a body that are reported.
pub const EXCERPT_BYTES: usize = 1024;

/// The longest beginning of the first `n` characters of a body that is reported:
/// whole characters of no more than so many bytes.
pub open spec fn excerpt(body: Seq<char>, n: int) -> Seq<char>
    decreases n,
{
    if n <= 0 {
        Seq::empty()
    } else if encode_utf8(body.take(n)).len() <= EXCERPT_BYTES {
        body.take(n)
    } else {
        excerpt(body, n - 1)
    }
}

/// What is said of an unexpected reply.
pub open spec fn failure_text(
    label: Seq<char>,
    url: Seq<char>,
    status: Seq<char>,
    body: Seq<char>,
) -> Seq<char> {
    label + ": GET "@ + url + " returned "@ + status + "\nbody (first 1 KiB): "@ + excerpt(
        body,
        body.len() as int,
    )
}

proof fn lemma_encode_push(s: Seq<char>, c: char)
    ensures
        encode_utf8(s.push(c)) == encode_utf8(s) + encode_scalar(c as u32),
    decreases s.len(),
{
    if s.len() == 0 {
        assert(s.push(c).drop_first() =~= s);
        assert(encode_utf8(s) =~= Seq::<u8>::empty());
        assert(encode_utf8(s.push(c)) =~= encode_utf8(s) + encode_scalar(c as u32));
    } else {
        assert(s.push(c).drop_first() =~= s.drop_first().push(c));
        lemma_encode_push(s.drop_first(), c);
        assert(encode_utf8(s.push(c)) =~= encode_utf8(s) + encode_scalar(c as u32));
    }
}

/// How many bytes a character takes.
fn char_width(c: char) -> (r: usize)
    ensures
        r == encode_scalar(c as u32).len(),
        1 <= r <= 4,
{
    let n: u32 = c as u32;
    if n < 0x80 {
        1
    } else if n < 0x800 {
        2
    } else if n < 0x1_0000 {
        3
    } else {
        4
    }
}

proof fn lemma_excerpt(body: Seq<char>, k: int, n: int)
    requires
        0 <= k <= n <= body.len(),
        encode_utf8(body.take(k)).len() <= EXCERPT_BYTES,
        k < n ==> encode_utf8(body.take(k + 1)).len() > EXCERPT_BYTES,
    ensures
        excerpt(body, n) == body.take(k),
        k < n ==> encode_utf8(body.take(n)).len() > EXCERPT_BYTES,
    decreases n - k,
{
    if k == n {
        if k == 0 {
            assert(body.take(0) =~= Seq::<char>::empty());
        }
    } else if k + 1 < n {
        lemma_excerpt(body, k, n - 1);
        assert(body.take(n) =~= body.take(n - 1).push(body[n - 1]));
        lemma_encode_push(body.take(n - 1), body[n - 1]);
    } else {
        lemma_excerpt(body, k, k);
    }
}

/// The beginning of a body that is reported.
fn body_excerpt(body: &str) -> (r: Vec<char>)
    ensures
        r@ == excerpt(body@, body@.len() as int),
{
    let chars = chars_of(body);
    let mut n: usize = 0;
    let mut size: usize = 0;
    assert(chars@.take(0) =~= Seq::<char>::empty());
    while n < chars.len()
        invariant
            n <= chars@.len(),
            size == encode_utf8(chars@.take(n as int)).len(),
            size <= EXCERPT_BYTES,
        ensures
            n <= chars@.len(),
            encode_utf8(chars@.take(n as int)).len() <= EXCERPT_BYTES,
            n < chars@.len() ==> encode_utf8(chars@.take(n + 1)).len() > EXCERPT_BYTES,
        decreases chars@.len() - n,
    {
        let more: usize = char_width(chars[n]);
        proof {
            assert(chars@.take(n + 1) =~= chars@.take(n as int).push(chars@[n as int]));
            lemma_encode_push(chars@.take(n as int), chars@[n as int]);
        }
        if size + more > EXCERPT_BYTES {
            break;
        }
        size = size + more;
        n = n + 1;
    }
    proof {
        lemma_excerpt(body@, n as int, body@.len() as int);
    }
    let part = sub_chars(&chars, 0, n);
    assert(part@ =~= body@.take(n as int));
    part
}

/// Reports an unexpected reply, with the beginning of its body.
pub fn failure(label: &str, url: &str, status: &str, body: &str) -> (r: String)
    ensures
        r@ == failure_text(label@, url@, status@, body@),
{
    let mut out: Vec<char> = Vec::new();
    append_str(&mut out, label);
    append_str(&mut out, ": GET ");
    append_str(&mut out, url);
    append_str(&mut out, " returned ");
    append_str(&mut out, status);
    append_str(&mut out, "\nbody (first 1 KiB): ");
    append_chars(&mut out, &body_excerpt(body));
    assert(out@ =~= failure_text(label@, url@, status@, body@));
    string_of(&out)
}

/// Whether a server says that it serves parts of files.
pub fn accepts_ranges(header: Option<&str>) -> (r: bool)
    ensures
        r == (match header {
            Some(h) => eq_ignore_case(h@, "bytes"@),
            None => false,
        }),
{
    match header {
        Some(h) => chars_eq_ignore_case(&chars_of(h), &chars_of("bytes")),
        None => false,
    }
}

// --- Checksums ---
/// What is wrong with a checksum.
pub enum Md5Fault {
    /// None is published.
    Empty,
    /// Another one is published.
    Differs { server: String },
}

/// The checksum in a published text: its first word, in lower case.
pub open spec fn published_md5(body: Seq<char>) -> Option<Seq<char>> {
    if words(body).len() > 0 {
        Some(lowered(words(body)[0]))
    } else {
        None
    }
}

/// Whether a file is held against its checksum.
pub fn verifies(opts: &FetchOpts, target: &FetchTarget) -> (r: bool)
    ensures
        r == (opts.verify_md5 && target.md5_url is Some),
{
    opts.verify_md5 && target.md5_url.is_some()
}

/// Holds the checksum of a file against the published text.
pub fn check_md5(body: &str, local: &str) -> (r: Result<(), Md5Fault>)
    ensures
        match r {
            Ok(()) => published_md5(body@) == Some(local@),
            Err(Md5Fault::Empty) => published_md5(body@) is None,
            Err(Md5Fault::Differs { server }) => published_md5(body@) == Some(server@) && server@
                != local@,
        },
{
    let list = words_of(&chars_of(body));
    assert(views(list@).len() == list@.len());
    if list.len() == 0 {
        return Err(Md5Fault::Empty);
    }
    assert(views(list@)[0] == list@[0]@);
    let server = lowered_chars(&list[0]);
    if chars_eq(&server, &chars_of(local)) {
        Ok(())
    } else {
        Err(Md5Fault::Differs { server: string_of(&server) })
    }
}

} // verus!
