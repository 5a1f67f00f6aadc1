//! Comma-separated rows of addresses.
use vstd::prelude::*;
use crate::ieee::{finite32, is_finite32};
use crate::text::{
    chars_eq, chars_eq_ignore_case, chars_of, eq_ignore_case, opt_str_view, string_of,
    string_views, sub_chars, trim_chars, trim_seq, upper_chars, upper_seq,
};

verus! {

broadcast use vstd::seq::group_seq_axioms;

/// The fields of the rest of a line, when `cur` was read of the current field
/// and `quoted` says whether a quote is open. Within quotes a comma is text,
/// and two quotes stand for one.
pub open spec fn fields_from(s: Seq<char>, cur: Seq<char>, quoted: bool) -> Seq<Seq<char>>
    decreases s.len(),
{
    if s.len() == 0 {
        seq![cur]
    } else if s[0] == '"' && !quoted {
        fields_from(s.skip(1), cur, true)
    } else if s[0] == '"' && s.len() > 1 && s[1] == '"' {
        fields_from(s.skip(2), cur.push('"'), true)
    } else if s[0] == '"' {
        fields_from(s.skip(1), cur, false)
    } else if s[0] == ',' && !quoted {
        seq![cur] + fields_from(s.skip(1), Seq::empty(), false)
    } else {
        fields_from(s.skip(1), cur.push(s[0]), quoted)
    }
}

/// The fields of a line.
pub open spec fn line_fields(line: Seq<char>) -> Seq<Seq<char>> {
    fields_from(line, Seq::empty(), false)
}

/// Splits a line into its fields.
pub fn parse_csv_line(line: &str) -> (r: Vec<String>)
    ensures
        string_views(r@) == line_fields(line@),
{
    let chars = chars_of(line);
    let n: usize = chars.len();
    let mut out: Vec<String> = Vec::new();
    let mut cur: Vec<char> = Vec::new();
    let mut quoted = false;
    let mut i: usize = 0;
    let ghost all = line_fields(line@);
    assert(line@.skip(0) =~= line@);
    assert(string_views(out@) + all =~= all);
    while i < n
        invariant
            chars@ == line@,
            n == chars@.len(),
            i <= n,
            string_views(out@) + fields_from(line@.skip(i as int), cur@, quoted) == all,
        decreases n - i,
    {
        let c = chars[i];
        let ghost rest = line@.skip(i as int);
        assert(rest.skip(1) =~= line@.skip(i + 1));
        if c == '"' && !quoted {
            quoted = true;
        } else if c == '"' {
            if i + 1 < n && chars[i + 1] == '"' {
                assert(rest.skip(2) =~= line@.skip(i + 2));
                cur.push('"');
                i = i + 1;
            } else {
                quoted = false;
            }
        } else if c == ',' && !quoted {
            let ghost before = string_views(out@);
            let ghost piece = cur@;
            out.push(string_of(&cur));
            cur = Vec::new();
            assert(string_views(out@) =~= before.push(piece));
            assert(string_views(out@) + fields_from(line@.skip(i + 1), cur@, quoted) =~= before + (
            seq![piece] + fields_from(line@.skip(i + 1), Seq::empty(), false)));
        } else {
            cur.push(c);
        }
        i = i + 1;
    }
    let ghost before = string_views(out@);
    out.push(string_of(&cur));
    assert(line@.skip(n as int).len() == 0);
    assert(string_views(out@) =~= before + seq![cur@]);
    out
}

// --- Writing ---
/// A text with its quotes doubled.
pub open spec fn doubled(s: Seq<char>) -> Seq<char>
    decreases s.len(),
{
    if s.len() == 0 {
        Seq::empty()
    } else if s[0] == '"' {
        seq!['"', '"'] + doubled(s.skip(1))
    } else {
        seq![s[0]] + doubled(s.skip(1))
    }
}

/// A field in quotes.
pub open spec fn quoted_field(s: Seq<char>) -> Seq<char> {
    seq!['"'] + doubled(s) + seq!['"']
}

/// A line of quoted fields.
pub open spec fn quoted_line(fields: Seq<Seq<char>>) -> Seq<char>
    decreases fields.len(),
{
    if fields.len() == 0 {
        Seq::empty()
    } else if fields.len() == 1 {
        quoted_field(fields[0])
    } else {
        quoted_field(fields[0]) + seq![','] + quoted_line(fields.skip(1))
    }
}

proof fn lemma_inside(s: Seq<char>, cur: Seq<char>, tail: Seq<char>)
    requires
        tail.len() > 0 ==> tail[0] != '"',
    ensures
        fields_from(doubled(s) + seq!['"'] + tail, cur, true) == fields_from(tail, cur + s, false),
    decreases s.len(),
{
    let all = doubled(s) + seq!['"'] + tail;
    if s.len() == 0 {
        assert(all.skip(1) =~= tail);
        assert(cur + s =~= cur);
        assert(all[0] == '"');
        if tail.len() > 0 {
            assert(all[1] == tail[0]);
        }
    } else {
        let rest = doubled(s.skip(1)) + seq!['"'] + tail;
        lemma_inside(s.skip(1), cur.push(s[0]), tail);
        assert(cur.push(s[0]) + s.skip(1) =~= cur + s);
        if s[0] == '"' {
            assert(all.skip(2) =~= rest);
            assert(all[0] == '"' && all[1] == '"');
        } else {
            assert(all.skip(1) =~= rest);
            assert(all[0] == s[0]);
        }
    }
}

/// Fields that are written in quotes are read back as they were, whatever
/// commas and quotes are in them.
pub proof fn law_quoted_fields_read_back(fields: Seq<Seq<char>>)
    requires
        fields.len() > 0,
    ensures
        line_fields(quoted_line(fields)) == fields,
    decreases fields.len(),
{
    let line = quoted_line(fields);
    let f = fields[0];
    assert(line[0] == '"');
    assert(Seq::<char>::empty() + f =~= f);
    if fields.len() == 1 {
        assert(line.skip(1) =~= doubled(f) + seq!['"'] + Seq::<char>::empty());
        lemma_inside(f, Seq::empty(), Seq::empty());
        assert(fields =~= seq![f]);
    } else {
        let more = quoted_line(fields.skip(1));
        let tail = seq![','] + more;
        assert(line.skip(1) =~= doubled(f) + seq!['"'] + tail);
        lemma_inside(f, Seq::empty(), tail);
        assert(tail.skip(1) =~= more);
        law_quoted_fields_read_back(fields.skip(1));
        assert(fields =~= seq![f] + fields.skip(1));
    }
}

// --- Rows ---
/// Where the last column of a name stands. Names compare in upper case.
pub open spec fn column(header: Seq<Seq<char>>, name: Seq<char>) -> Option<int>
    decreases header.len(),
{
    if header.len() == 0 {
        None
    } else if upper_seq(header.last()) == name {
        Some(header.len() - 1)
    } else {
        column(header.drop_last(), name)
    }
}

/// The field of a row in the column of a name.
pub open spec fn field_named(
    header: Seq<Seq<char>>,
    row: Seq<Seq<char>>,
    name: Seq<char>,
) -> Option<Seq<char>> {
    match column(header, name) {
        Some(i) => if i < row.len() {
            Some(row[i])
        } else {
            None
        },
        None => None,
    }
}

/// A row and the columns that its fields stand in.
pub struct CsvRow<'a> {
    pub header: &'a [String],
    pub fields: Vec<String>,
}

impl<'a> CsvRow<'a> {
    pub open spec fn named(&self, name: Seq<char>) -> Option<Seq<char>> {
        field_named(string_views(self.header@), string_views(self.fields@), name)
    }

    /// The field in the column of a name, which is in upper case.
    pub fn get(&self, name: &str) -> (r: Option<&str>)
        ensures
            opt_str_view(r) == self.named(name@),
    {
        let want = chars_of(name);
        let ghost header = string_views(self.header@);
        let mut i: usize = self.header.len();
        assert(header.take(i as int) =~= header);
        while i > 0
            invariant
                i <= self.header@.len(),
                want@ == name@,
                header == string_views(self.header@),
                column(header.take(i as int), name@) == column(header, name@),
            decreases i,
        {
            i = i - 1;
            assert(header.take(i + 1).drop_last() =~= header.take(i as int));
            assert(header.take(i + 1).last() == self.header@[i as int]@);
            let up = upper_chars(&chars_of(self.header[i].as_str()));
            if chars_eq(&up, &want) {
                assert(column(header, name@) == Some(i as int));
                return if i < self.fields.len() {
                    Some(self.fields[i].as_str())
                } else {
                    None
                };
            }
        }
        assert(header.take(0).len() == 0);
        None
    }
}

/// The texts of an address row.
pub struct OaAddress {
    pub number: String,
    pub street: String,
    pub city: String,
    pub postcode: String,
}

/// What becomes of an address row.
pub enum OaOutcome {
    Address(OaAddress),
    /// Its coordinates are missing or no finite numbers.
    NoCoord,
    /// It has no house number.
    NoNumber,
}

/// A field; empty where there is none.
pub open spec fn or_empty(f: Option<Seq<char>>) -> Seq<char> {
    match f {
        Some(s) => s,
        None => Seq::empty(),
    }
}

fn get_or_empty(row: &CsvRow<'_>, name: &str) -> (r: String)
    ensures
        r@ == or_empty(row.named(name@)),
{
    match row.get(name) {
        Some(s) => s.to_owned(),
        None => String::new(),
    }
}

/// Whether `r` is what becomes of a row.
pub open spec fn is_oa_outcome(
    row: CsvRow<'_>,
    lon: Option<u32>,
    lat: Option<u32>,
    r: OaOutcome,
) -> bool {
    let coords = match (lon, lat) {
        (Some(x), Some(y)) => finite32(x) && finite32(y),
        _ => false,
    };
    match r {
        OaOutcome::NoCoord => !coords,
        OaOutcome::NoNumber => coords && trim_seq(or_empty(row.named("NUMBER"@))).len() == 0,
        OaOutcome::Address(a) => {
            &&& coords
            &&& a.number@ == or_empty(row.named("NUMBER"@))
            &&& trim_seq(a.number@).len() > 0
            &&& a.street@ == or_empty(row.named("STREET"@))
            &&& a.city@ == or_empty(row.named("CITY"@))
            &&& a.postcode@ == or_empty(row.named("POSTCODE"@))
        },
    }
}

/// Reads an address row. `lon` and `lat` are the numbers in its columns `LON`
/// and `LAT` (binary32 bit patterns), where they are numbers.
pub fn oa_row(row: &CsvRow<'_>, lon: Option<u32>, lat: Option<u32>) -> (r: OaOutcome)
    ensures
        is_oa_outcome(*row, lon, lat, r),
{
    match (lon, lat) {
        (Some(x), Some(y)) => {
            if !is_finite32(x) || !is_finite32(y) {
                return OaOutcome::NoCoord;
            }
        },
        _ => return OaOutcome::NoCoord,
    }
    let number = get_or_empty(row, "NUMBER");
    if trim_chars(&chars_of(number.as_str())).len() == 0 {
        return OaOutcome::NoNumber;
    }
    OaOutcome::Address(
        OaAddress {
            number,
            street: get_or_empty(row, "STREET"),
            city: get_or_empty(row, "CITY"),
            postcode: get_or_empty(row, "POSTCODE"),
        },
    )
}

// --- Files ---
/// Where the last dot of a file name stands.
pub open spec fn last_dot(name: Seq<char>) -> Option<int>
    decreases name.len(),
{
    if name.len() == 0 {
        None
    } else if name.last() == '.' {
        Some(name.len() - 1)
    } else {
        last_dot(name.drop_last())
    }
}

/// Whether a file has the extension `csv`. A dot that begins the name begins
/// no extension.
pub open spec fn has_csv_extension(name: Seq<char>) -> bool {
    match last_dot(name) {
        Some(i) => i > 0 && eq_ignore_case(name.skip(i + 1), "csv"@),
        None => false,
    }
}

/// Whether a file has the extension `csv`, in any case.
pub fn is_csv_file(name: &str) -> (r: bool)
    ensures
        r == has_csv_extension(name@),
{
    let chars = chars_of(name);
    let mut i: usize = chars.len();
    assert(name@.take(i as int) =~= name@);
    while i > 0
        invariant
            chars@ == name@,
            i <= chars@.len(),
            last_dot(name@.take(i as int)) == last_dot(name@),
        decreases i,
    {
        i = i - 1;
        assert(name@.take(i + 1).drop_last() =~= name@.take(i as int));
        assert(name@.take(i + 1).last() == name@[i as int]);
        if chars[i] == '.' {
            assert(last_dot(name@) == Some(i as int));
            if i == 0 {
                return false;
            }
            let ext = sub_chars(&chars, i + 1, chars.len());
            assert(ext@ =~= name@.skip(i + 1));
            return chars_eq_ignore_case(&ext, &chars_of("csv"));
        }
    }
    false
}

// --- Laws ---
/// Whether a row has one column with a heading, in any case, and which it is.
pub open spec fn heads(header: Seq<String>, at: int, name: Seq<char>) -> bool {
    &&& 0 <= at < header.len()
    &&& upper_seq(header[at]@) == name
    &&& forall|j: int| 0 <= j < header.len() && j != at ==> upper_seq(#[trigger] header[j]@) != name
}

proof fn lemma_column(header: Seq<Seq<char>>, at: int, name: Seq<char>)
    requires
        0 <= at < header.len(),
        upper_seq(header[at]) == name,
        forall|j: int| 0 <= j < header.len() && j != at ==> upper_seq(#[trigger] header[j]) != name,
    ensures
        column(header, name) == Some(at),
    decreases header.len(),
{
    if at < header.len() - 1 {
        let front = header.drop_last();
        assert(upper_seq(header[header.len() - 1]) != name);
        assert(front[at] == header[at]);
        assert forall|j: int| 0 <= j < front.len() && j != at implies upper_seq(#[trigger] front[j])
            != name by {
            assert(front[j] == header[j]);
        }
        lemma_column(front, at, name);
    }
}

proof fn lemma_no_column(header: Seq<Seq<char>>, name: Seq<char>)
    requires
        forall|j: int| 0 <= j < header.len() ==> upper_seq(#[trigger] header[j]) != name,
    ensures
        column(header, name) is None,
    decreases header.len(),
{
    if header.len() > 0 {
        let front = header.drop_last();
        assert(upper_seq(header[header.len() - 1]) != name);
        assert forall|j: int| 0 <= j < front.len() implies upper_seq(#[trigger] front[j]) != name by {
            assert(front[j] == header[j]);
        }
        lemma_no_column(front, name);
    }
}

proof fn lemma_field(row: CsvRow<'_>, at: int, name: Seq<char>)
    requires
        heads(row.header@, at, name),
    ensures
        at < row.fields@.len() ==> row.named(name) == Some(row.fields@[at]@),
        at >= row.fields@.len() ==> row.named(name) is None,
{
    let header = string_views(row.header@);
    assert forall|j: int| 0 <= j < header.len() && j != at implies upper_seq(#[trigger] header[j])
        != name by {
        assert(header[j] == row.header@[j]@);
    }
    assert(header[at] == row.header@[at]@);
    lemma_column(header, at, name);
}

/// A row with finite coordinates and a house number is an address. Its number,
/// street, city and postcode are the fields of the row in the columns that are
/// headed `NUMBER`, `STREET`, `CITY` and `POSTCODE`.
pub proof fn law_address_has_the_fields_of_its_columns(
    row: CsvRow<'_>,
    lon: u32,
    lat: u32,
    r: OaOutcome,
    number: int,
    street: int,
    city: int,
    postcode: int,
)
    requires
        is_oa_outcome(row, Some(lon), Some(lat), r),
        lon % 0x8000_0000 < 0x7f80_0000,
        lat % 0x8000_0000 < 0x7f80_0000,
        heads(row.header@, number, "NUMBER"@),
        heads(row.header@, street, "STREET"@),
        heads(row.header@, city, "CITY"@),
        heads(row.header@, postcode, "POSTCODE"@),
        number < row.fields@.len(),
        street < row.fields@.len(),
        city < row.fields@.len(),
        postcode < row.fields@.len(),
        trim_seq(row.fields@[number]@).len() > 0,
    ensures
        r matches OaOutcome::Address(a) && {
            &&& a.number@ == row.fields@[number]@
            &&& a.street@ == row.fields@[street]@
            &&& a.city@ == row.fields@[city]@
            &&& a.postcode@ == row.fields@[postcode]@
        },
{
    lemma_field(row, number, "NUMBER"@);
    lemma_field(row, street, "STREET"@);
    lemma_field(row, city, "CITY"@);
    lemma_field(row, postcode, "POSTCODE"@);
}

/// A row without finite coordinates is none, whatever else it has; one with
/// them is told apart by its house number alone. What has no column is empty.
pub proof fn law_rows_are_told_apart(
    row: CsvRow<'_>,
    lon: Option<u32>,
    lat: Option<u32>,
    r: OaOutcome,
    number: int,
)
    requires
        is_oa_outcome(row, lon, lat, r),
        heads(row.header@, number, "NUMBER"@),
        number < row.fields@.len(),
    ensures
        r is NoCoord <==> lon is None || lat is None || lon->0 % 0x8000_0000 >= 0x7f80_0000
            || lat->0 % 0x8000_0000 >= 0x7f80_0000,
        r is NoNumber ==> trim_seq(row.fields@[number]@).len() == 0,
        r matches OaOutcome::Address(a) ==> {
            &&& trim_seq(row.fields@[number]@).len() > 0
            &&& (forall|j: int|
                0 <= j < row.header@.len() ==> upper_seq(#[trigger] row.header@[j]@) != "STREET"@)
                ==> a.street@.len() == 0
            &&& (forall|j: int|
                0 <= j < row.header@.len() ==> upper_seq(#[trigger] row.header@[j]@) != "CITY"@)
                ==> a.city@.len() == 0
            &&& (forall|j: int|
                0 <= j < row.header@.len() ==> upper_seq(#[trigger] row.header@[j]@)
                    != "POSTCODE"@) ==> a.postcode@.len() == 0
        },
{
    lemma_field(row, number, "NUMBER"@);
    let header = string_views(row.header@);
    assert forall|name: Seq<char>|
        (forall|j: int|
            0 <= j < row.header@.len() ==> upper_seq(#[trigger] row.header@[j]@) != name) implies #[trigger] row.named(
    name) is None by {
        assert forall|j: int| 0 <= j < header.len() implies upper_seq(#[trigger] header[j]) != name by {
            assert(header[j] == row.header@[j]@);
        }
        lemma_no_column(header, name);
    }
    assert(row.named("STREET"@) is Some || row.named("STREET"@) is None);
    assert(row.named("CITY"@) is Some || row.named("CITY"@) is None);
    assert(row.named("POSTCODE"@) is Some || row.named("POSTCODE"@) is None);
}

/// A line of fields without quotes and commas.
pub open spec fn plain_line(fields: Seq<Seq<char>>) -> Seq<char>
    decreases fields.len(),
{
    if fields.len() == 0 {
        Seq::empty()
    } else if fields.len() == 1 {
        fields[0]
    } else {
        fields[0] + seq![','] + plain_line(fields.skip(1))
    }
}

proof fn lemma_plain(s: Seq<char>, cur: Seq<char>, tail: Seq<char>)
    requires
        forall|i: int| 0 <= i < s.len() ==> #[trigger] s[i] != '"' && s[i] != ',',
    ensures
        fields_from(s + tail, cur, false) == fields_from(tail, cur + s, false),
    decreases s.len(),
{
    let all = s + tail;
    if s.len() == 0 {
        assert(all =~= tail);
        assert(cur + s =~= cur);
    } else {
        let rest = s.skip(1);
        assert forall|i: int| 0 <= i < rest.len() implies #[trigger] rest[i] != '"' && rest[i] != ',' by {
            assert(rest[i] == s[i + 1]);
        }
        lemma_plain(rest, cur.push(s[0]), tail);
        assert(all.skip(1) =~= rest + tail);
        assert(all[0] == s[0]);
        assert(cur.push(s[0]) + rest =~= cur + s);
    }
}

/// Fields without quotes and commas are read as they stand between the commas,
/// white space and all.
pub proof fn law_plain_fields_read_back(fields: Seq<Seq<char>>)
    requires
        fields.len() > 0,
        forall|k: int, i: int|
            0 <= k < fields.len() && 0 <= i < fields[k].len() ==> #[trigger] fields[k][i] != '"'
                && fields[k][i] != ',',
    ensures
        line_fields(plain_line(fields)) == fields,
    decreases fields.len(),
{
    let line = plain_line(fields);
    let f = fields[0];
    assert forall|i: int| 0 <= i < f.len() implies #[trigger] f[i] != '"' && f[i] != ',' by {
        assert(fields[0][i] == f[i]);
    }
    assert(Seq::<char>::empty() + f =~= f);
    if fields.len() == 1 {
        assert(line =~= f + Seq::<char>::empty());
        lemma_plain(f, Seq::empty(), Seq::empty());
        assert(fields =~= seq![f]);
    } else {
        let rest = fields.skip(1);
        let tail = seq![','] + plain_line(rest);
        assert(line =~= f + tail);
        lemma_plain(f, Seq::empty(), tail);
        assert(tail.skip(1) =~= plain_line(rest));
        assert forall|k: int, i: int| 0 <= k < rest.len() && 0 <= i < rest[k].len() implies #[trigger] rest[k][i]
            != '"' && rest[k][i] != ',' by {
            assert(rest[k][i] == fields[k + 1][i]);
        }
        law_plain_fields_read_back(rest);
        assert(fields =~= seq![f] + rest);
    }
}

proof fn lemma_last_dot(stem: Seq<char>, ext: Seq<char>)
    requires
        forall|i: int| 0 <= i < ext.len() ==> #[trigger] ext[i] != '.',
    ensures
        last_dot(stem.push('.') + ext) == Some(stem.len() as int),
    decreases ext.len(),
{
    let s = stem.push('.') + ext;
    if ext.len() == 0 {
        assert(s =~= stem.push('.'));
    } else {
        let front = ext.drop_last();
        assert forall|i: int| 0 <= i < front.len() implies #[trigger] front[i] != '.' by {
            assert(front[i] == ext[i]);
        }
        lemma_last_dot(stem, front);
        assert(s.drop_last() =~= stem.push('.') + front);
        assert(s.last() == ext[ext.len() - 1]);
    }
}

/// A file is a table of rows just where what stands behind its last dot is
/// `csv`, in any case, and something stands before the dot.
pub proof fn law_csv_is_told_by_the_extension(stem: Seq<char>, ext: Seq<char>)
    requires
        forall|i: int| 0 <= i < ext.len() ==> #[trigger] ext[i] != '.',
    ensures
        has_csv_extension(stem.push('.') + ext) <==> stem.len() > 0 && eq_ignore_case(ext, "csv"@),
{
    let s = stem.push('.') + ext;
    lemma_last_dot(stem, ext);
    assert(s.skip(stem.len() as int + 1) =~= ext);
}

} // verus!
