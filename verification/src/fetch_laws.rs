//! What downloads promise: what is asked for, what becomes of a reply, and where
//! files go.
use vstd::prelude::*;
use vstd::utf8::encode_utf8;
use crate::fetch::{
    action_for, excerpt, is_request, FetchAction, FetchOpts, FetchRequest, LocalFiles,
};
use crate::fold::{lemma_nonempty_concat, lemma_split_concat};
use crate::paths::joined;
use crate::sources::{
    flat_name, is_mmdb_source, is_off, is_partial_choice, is_plan, is_same_tag, month_before,
    offered, plain_etag, scope_separator, scopes_in, trimmed, unquoted_end, unquoted_start, MmdbSource, Month,
    OaApiRow, OaPlan, PartialChoice, S3Meta,
};
use crate::text::{
    decimal, eq_ignore_case, is_white_space, lower_seq, nonempty, split_where, trim_end_seq,
    trim_seq, trim_start_seq,
};

verus! {

broadcast use vstd::seq::group_seq_axioms;

// --- Requests ---
/// A download that goes on asks for what stands behind the bytes that are on
/// disk, on condition that the file is still the one whose tag was noted.
pub proof fn law_rest_of_a_file_is_asked_for(
    opts: FetchOpts,
    files: LocalFiles<'_>,
    r: FetchRequest,
    size: u64,
)
    requires
        is_request(r, opts, files),
        opts.resume,
        !opts.force,
        files.partial == Some(size),
    ensures
        r.range matches Some(range) && range@ == seq!['b', 'y', 't', 'e', 's', '='] + decimal(
            size as nat,
        ) + seq!['-'],
        r.if_none_match is None,
        r.if_modified_since is None,
        files.etag is None ==> r.if_range is None,
        files.etag matches Some(t) ==> (trim_seq(t@).len() > 0 ==> (r.if_range matches Some(tag)
            && tag@ == trim_seq(t@))),
        files.etag matches Some(t) ==> (trim_seq(t@).len() == 0 ==> r.if_range is None),
{
    reveal_strlit("bytes=");
    reveal_strlit("-");
    assert("bytes="@ =~= seq!['b', 'y', 't', 'e', 's', '=']);
    assert("-"@ =~= seq!['-']);
}

/// Any other download that is not forced asks for the file only if it is another
/// than the one on disk: by its tag, and by its time.
pub proof fn law_change_is_asked_about(opts: FetchOpts, files: LocalFiles<'_>, r: FetchRequest)
    requires
        is_request(r, opts, files),
        !opts.force,
        !opts.resume || files.partial is None,
    ensures
        r.range is None,
        r.if_range is None,
        files.etag is None ==> r.if_none_match is None,
        files.etag matches Some(t) ==> (trim_seq(t@).len() > 0 ==> (r.if_none_match matches Some(
            tag,
        ) && tag@ == trim_seq(t@))),
        files.mtime is None ==> r.if_modified_since is None,
        files.mtime matches Some(t) ==> (t < 253402300800 ==> (r.if_modified_since matches Some(d)
            && d@ == crate::fetch::http_date(t))),
{
}

/// A whole file replaces what is there; a part is appended where a part was asked
/// for; a file stays where its change was asked about and there is none; a part
/// that cannot be had is given up, and so is a tag that does not hold. Everything
/// else fails.
pub proof fn law_replies_are_acted_on(sent: FetchRequest, status: u16)
    ensures
        ({
            let part = sent.range is Some;
            let tag = sent.if_range is Some || sent.if_none_match is Some;
            let change = sent.if_none_match is Some || sent.if_modified_since is Some;
            let r = action_for(sent, status);
            &&& r == FetchAction::DownloadFull <==> status == 200
            &&& r == FetchAction::Append <==> status == 206 && part
            &&& r == FetchAction::StartOver <==> status == 416 && part
            &&& r == FetchAction::Keep <==> status == 304 && !part && change
            &&& r == FetchAction::ForgetTag <==> status == 412 && tag
        }),
{
}

/// What is reported of a body is the longest beginning of it that has at most
/// 1024 bytes.
pub proof fn law_report_is_a_beginning(body: Seq<char>, n: int)
    requires
        0 <= n <= body.len(),
    ensures
        ({
            let e = excerpt(body, n);
            let k = e.len() as int;
            &&& k <= n
            &&& e == body.take(k)
            &&& encode_utf8(e).len() <= 1024
            &&& forall|m: int|
                k < m <= n ==> encode_utf8(#[trigger] body.take(m)).len() > 1024
        }),
    decreases n,
{
    if n <= 0 {
        assert(excerpt(body, n) =~= body.take(0));
        assert(encode_utf8(Seq::<char>::empty()).len() == 0);
    } else if encode_utf8(body.take(n)).len() > 1024 {
        law_report_is_a_beginning(body, n - 1);
    }
}

// --- Parts and tags ---
/// A part of an object is gone on with only where a sidecar states a length that
/// it has not reached, and then under the tag that the sidecar states; any other
/// part is removed.
pub proof fn law_part_needs_its_sidecar(
    opts: FetchOpts,
    size: u64,
    meta: Option<S3Meta>,
    r: PartialChoice,
)
    requires
        is_partial_choice(opts, Some(size), meta, r),
        opts.resume,
        !opts.force,
    ensures
        r is Resume <==> meta is Some && 0 < size < meta->0.length,
        r is Remove <==> !(r is Resume),
        r matches PartialChoice::Resume { range, if_match } ==> {
            &&& range@ == seq!['b', 'y', 't', 'e', 's', '='] + decimal(size as nat) + seq!['-']
            &&& if_match@ == seq!['"'] + meta->0.etag@ + seq!['"']
        },
{
    reveal_strlit("bytes=");
    reveal_strlit("-");
    reveal_strlit("\"");
    assert("bytes="@ =~= seq!['b', 'y', 't', 'e', 's', '=']);
    assert("-"@ =~= seq!['-']);
    assert("\""@ =~= seq!['"']);
}

/// Quotes around a tag do not count: in quotes or not, it is the tag that was
/// noted.
#[verifier::spinoff_prover]
#[verifier::rlimit(60)]
pub proof fn law_quotes_around_a_tag_do_not_count(tag: Seq<char>)
    requires
        tag.len() > 0,
        tag[0] != '"' && !is_white_space(tag[0]),
        tag.last() != '"' && !is_white_space(tag.last()),
    ensures
        plain_etag(tag) == tag,
        plain_etag(seq!['"'] + tag + seq!['"']) == tag,
        is_same_tag(Some(seq!['"'] + tag + seq!['"']), tag),
        is_same_tag(Some(tag), tag),
        !is_same_tag(None, tag),
{
    let q = seq!['"'] + tag + seq!['"'];
    assert(trim_start_seq(q) == q);
    assert(q.last() == '"');
    assert(trim_end_seq(q) == q);
    assert(trim_start_seq(tag) == tag);
    assert(trim_end_seq(tag) == tag);
    assert(trim_seq(q) == q);
    assert(trim_seq(tag) == tag);
    let a = tag + seq!['"'];
    assert(q.skip(1) =~= a);
    assert(unquoted_start(a) == a);
    assert(unquoted_start(q) == a);
    assert(a.drop_last() =~= tag);
    assert(unquoted_end(tag) == tag);
    assert(unquoted_end(a) == tag);
    assert(unquoted_start(tag) == tag);
    assert(plain_etag(q) == tag);
    assert(plain_etag(tag) == tag);
}

// --- Address sources ---
/// The file of a source is the archive where there is one, and else the plain
/// file; it is an object of its job, and is saved under the path of the source
/// with underscores for slashes.
pub proof fn law_source_is_planned(row: OaApiRow, dir: Seq<char>, r: Result<OaPlan, &str>)
    requires
        is_plan(row, dir, r),
    ensures
        r is Ok <==> row.job is Some,
        row.cache == Some(true) ==> offered(row) == "cache.zip"@,
        row.cache != Some(true) ==> offered(row) == "source.geojson.gz"@,
        r matches Ok(plan) ==> {
            &&& row.job == Some(plan.job)
            &&& plan.label@ == offered(row)
            &&& plan.key@ == "jobs/"@ + decimal(plan.job as nat) + "/"@ + offered(row)
            &&& row.source matches Some(s) ==> plan.source@ == s@ && plan.dest@ == joined(
                dir,
                flat_name(s@) + "."@ + offered(row),
            )
        },
{
}

/// A source path as a file name has an underscore for each slash, and is the same
/// otherwise.
pub proof fn law_slashes_become_underscores(source: Seq<char>, i: int)
    requires
        0 <= i < source.len(),
    ensures
        flat_name(source).len() == source.len(),
        source[i] == '/' ==> flat_name(source)[i] == '_',
        source[i] != '/' ==> flat_name(source)[i] == source[i],
{
}

/// Nothing, blanks and the word `all` ask for every source.
pub proof fn law_all_asks_for_everything(list: Seq<char>)
    ensures
        trim_seq(list).len() == 0 ==> scopes_in(list).len() == 0,
        lower_seq(trim_seq(list)) == seq!['a', 'l', 'l'] ==> scopes_in(list).len() == 0,
{
    reveal_strlit("all");
    let t = trim_seq(list);
    if lower_seq(t) == seq!['a', 'l', 'l'] {
        assert(lower_seq("all"@) =~= seq!['a', 'l', 'l']);
        assert(crate::text::eq_ignore_case(t, "all"@));
    }
}

// --- The database of network addresses ---
/// The licensed database is fetched where there is a key; the free one where there
/// is none, unless that is switched off by `0`, `false`, `no` or `off`, in any
/// case.
pub proof fn law_key_decides_the_database(
    key: Option<Seq<char>>,
    fallback: Option<Seq<char>>,
    r: MmdbSource,
)
    requires
        is_mmdb_source(key, fallback, r),
    ensures
        r is Licensed <==> key is Some && trim_seq(key->0).len() > 0,
        r matches MmdbSource::Licensed(k) ==> key == Some(k@),
        r is Free <==> !(r is Licensed) && !is_off(fallback),
        is_off(None) == false,
        fallback matches Some(v) ==> (is_off(fallback) <==> ({
            let t = lower_seq(trim_seq(v));
            t == seq!['0'] || t == seq!['f', 'a', 'l', 's', 'e'] || t == seq!['n', 'o'] || t
                == seq!['o', 'f', 'f']
        })),
{
    reveal_strlit("0");
    reveal_strlit("false");
    reveal_strlit("no");
    reveal_strlit("off");
    assert("0"@ =~= seq!['0']);
    assert("false"@ =~= seq!['f', 'a', 'l', 's', 'e']);
    assert("no"@ =~= seq!['n', 'o']);
    assert("off"@ =~= seq!['o', 'f', 'f']);
}

/// The month before is one month earlier, over the turn of the year as well.
pub proof fn law_month_before_is_a_month_earlier(m: Month)
    requires
        1 <= m.month <= 12,
        m.year >= 1,
    ensures
        12 * month_before(m).year + month_before(m).month == 12 * m.year + m.month - 1,
        1 <= month_before(m).month <= 12,
{
}

proof fn lemma_scope(w: Seq<char>)
    requires
        forall|i: int| 0 <= i < w.len() ==> #[trigger] w[i] != ',' && !is_white_space(w[i]),
    ensures
        split_where(w, scope_separator()) == seq![w],
    decreases w.len(),
{
    let p = scope_separator();
    if w.len() == 0 {
        assert(w =~= Seq::<char>::empty());
        assert(split_where(w, p) =~= seq![w]);
    } else {
        let front = w.drop_last();
        assert forall|i: int| 0 <= i < front.len() implies #[trigger] front[i] != ','
            && !is_white_space(front[i]) by {
            assert(front[i] == w[i]);
        }
        lemma_scope(front);
        assert(w[w.len() - 1] != ',' && !is_white_space(w[w.len() - 1]));
        assert(!p(w.last()));
        let done = split_where(front, p);
        assert(front.push(w.last()) =~= w);
        assert(done.drop_last().push(done.last().push(w.last())) =~= seq![w]);
    }
}

/// Sources are listed with commas or blanks between them.
pub proof fn law_sources_stand_between_commas(a: Seq<char>, sep: char, b: Seq<char>)
    requires
        a.len() > 0,
        b.len() > 0,
        sep == ',' || sep == ' ',
        forall|i: int| 0 <= i < a.len() ==> #[trigger] a[i] != ',' && !is_white_space(a[i]),
        forall|i: int| 0 <= i < b.len() ==> #[trigger] b[i] != ',' && !is_white_space(b[i]),
    ensures
        scopes_in(a.push(sep) + b) == seq![a, b],
{
    let p = scope_separator();
    let s = a.push(sep) + b;
    assert(s[0] == a[0] && s.last() == b[b.len() - 1]);
    assert(trim_seq(s) == s);
    assert(!eq_ignore_case(s, "all"@)) by {
        reveal_strlit("all");
        assert(lower_seq(s).len() == s.len());
        assert(lower_seq(s)[a.len() as int] == sep);
        if s.len() == 3 {
            assert(lower_seq("all"@)[a.len() as int] != sep);
        }
    }
    lemma_scope(a);
    lemma_scope(b);
    assert(p(sep));
    lemma_split_concat(a, sep, b, p);
    let pieces = split_where(s, p);
    assert(pieces =~= seq![a, b]);
    assert(a[0] == a[0] && !is_white_space(a[0]) && !is_white_space(a[a.len() - 1]));
    assert(b[0] == b[0] && !is_white_space(b[0]) && !is_white_space(b[b.len() - 1]));
    assert(trim_seq(a) == a && trim_seq(b) == b);
    let tidy = trimmed(pieces);
    assert(tidy =~= seq![a] + seq![b]);
    lemma_nonempty_concat(seq![a], seq![b]);
    assert(seq![a].drop_last() =~= Seq::<Seq<char>>::empty());
    assert(seq![b].drop_last() =~= Seq::<Seq<char>>::empty());
    assert(nonempty(Seq::<Seq<char>>::empty()) =~= Seq::<Seq<char>>::empty());
    assert(nonempty(seq![a]) =~= seq![a]);
    assert(nonempty(seq![b]) =~= seq![b]);
    assert(seq![a] + seq![b] =~= seq![a, b]);
}

} // verus!
