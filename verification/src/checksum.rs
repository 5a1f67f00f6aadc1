//! Checksums of downloaded files.
use md5::Digest;
use vstd::prelude::*;
use crate::fetch::{check_md5, published_md5, Md5Fault};
use crate::text::{append_str, string_of};

verus! {

broadcast use vstd::seq::group_seq_axioms;

/// The MD5 digest of some bytes.
pub uninterp spec fn md5_digest(bytes: Seq<u8>) -> Seq<u8>;

/// `md5::Md5::digest`: the sixteen bytes of the digest.
#[verifier::external_body]
fn digest_of(bytes: &[u8]) -> (r: [u8; 16])
    ensures
        r@ == md5_digest(bytes@),
{
    md5::Md5::digest(bytes).into()
}

/// A digit of the hexadecimal system, in lower case.
pub open spec fn hex_digit(n: int) -> char {
    if n < 10 {
        ('0' as int + n) as char
    } else {
        ('a' as int + n - 10) as char
    }
}

/// Bytes in the hexadecimal system: two digits each, the higher one first.
pub open spec fn hex_text(bytes: Seq<u8>) -> Seq<char> {
    Seq::new(
        2 * bytes.len(),
        |i: int|
            if i % 2 == 0 {
                hex_digit(bytes[i / 2] as int / 16)
            } else {
                hex_digit(bytes[i / 2] as int % 16)
            },
    )
}

fn digit_char(n: u8) -> (r: char)
    requires
        n < 16,
    ensures
        r == hex_digit(n as int),
{
    if n < 10 {
        (48 + n) as char
    } else {
        (87 + n) as char
    }
}

/// Renders bytes in the hexadecimal system.
pub fn hex_string(bytes: &[u8]) -> (r: String)
    ensures
        r@ == hex_text(bytes@),
{
    let mut out: Vec<char> = Vec::new();
    for i in 0..bytes.len()
        invariant
            out@ == hex_text(bytes@.take(i as int)),
    {
        let ghost before = out@;
        out.push(digit_char(bytes[i] / 16));
        out.push(digit_char(bytes[i] % 16));
        proof {
            let more = bytes@.take(i + 1);
            assert forall|j: int| 0 <= j < 2 * (i + 1) implies out@[j] == hex_text(more)[j] by {
                if j < 2 * i {
                    assert(before[j] == hex_text(bytes@.take(i as int))[j]);
                    assert(more[j / 2] == bytes@.take(i as int)[j / 2]);
                }
            }
            assert(out@ =~= hex_text(more));
        }
    }
    assert(bytes@.take(bytes@.len() as int) =~= bytes@);
    string_of(&out)
}

/// The checksum of a file as it is written.
pub open spec fn md5_text(contents: Seq<u8>) -> Seq<char> {
    hex_text(md5_digest(contents))
}

/// The checksum of a file.
pub fn md5_string(contents: &[u8]) -> (r: String)
    ensures
        r@ == md5_text(contents@),
{
    hex_string(&digest_of(contents))
}

/// Holds a file against its published checksum.
pub fn check_contents(body: &str, contents: &[u8]) -> (r: Result<(), Md5Fault>)
    ensures
        match r {
            Ok(()) => published_md5(body@) == Some(md5_text(contents@)),
            Err(Md5Fault::Empty) => published_md5(body@) is None,
            Err(Md5Fault::Differs { server }) => published_md5(body@) == Some(server@) && server@
                != md5_text(contents@),
        },
{
    check_md5(body, md5_string(contents).as_str())
}

/// What is said of a file that does not fit its checksum.
pub open spec fn fault_text(
    fault: Md5Fault,
    dest: Seq<char>,
    md5_url: Seq<char>,
    local: Seq<char>,
) -> Seq<char> {
    match fault {
        Md5Fault::Empty => "empty md5 sidecar at "@ + md5_url,
        Md5Fault::Differs { server } => "md5 mismatch on "@ + dest + ": server="@ + server@
            + " local="@ + local + " (partial removed)"@,
    }
}

/// Reports a file that does not fit its checksum.
pub fn fault_message(fault: &Md5Fault, dest: &str, md5_url: &str, local: &str) -> (r: String)
    ensures
        r@ == fault_text(*fault, dest@, md5_url@, local@),
{
    let mut out: Vec<char> = Vec::new();
    match fault {
        Md5Fault::Empty => {
            append_str(&mut out, "empty md5 sidecar at ");
            append_str(&mut out, md5_url);
            assert(out@ =~= "empty md5 sidecar at "@ + md5_url@);
        },
        Md5Fault::Differs { server } => {
            append_str(&mut out, "md5 mismatch on ");
            append_str(&mut out, dest);
            append_str(&mut out, ": server=");
            append_str(&mut out, server.as_str());
            append_str(&mut out, " local=");
            append_str(&mut out, local);
            append_str(&mut out, " (partial removed)");
            assert(out@ =~= "md5 mismatch on "@ + dest@ + ": server="@ + server@ + " local="@
                + local@ + " (partial removed)"@);
        },
    }
    string_of(&out)
}

/// Two files with the same text for a checksum have the same digest: the text
/// leaves nothing of it out.
pub proof fn law_hex_tells_apart(a: Seq<u8>, b: Seq<u8>)
    requires
        hex_text(a) == hex_text(b),
    ensures
        a == b,
{
    assert(2 * a.len() == hex_text(a).len() && 2 * b.len() == hex_text(b).len());
    assert(a.len() == b.len());
    assert forall|i: int| 0 <= i < a.len() implies a[i] == b[i] by {
        let (x, y) = (a[i] as int, b[i] as int);
        lemma_hex_of_byte(a, i);
        lemma_hex_of_byte(b, i);
        lemma_hex_digit(x / 16, y / 16);
        lemma_hex_digit(x % 16, y % 16);
    }
    assert(a =~= b);
}

proof fn lemma_hex_of_byte(bytes: Seq<u8>, i: int)
    requires
        0 <= i < bytes.len(),
    ensures
        hex_text(bytes)[2 * i] == hex_digit(bytes[i] as int / 16),
        hex_text(bytes)[2 * i + 1] == hex_digit(bytes[i] as int % 16),
{
    let (high, low) = (2 * i, 2 * i + 1);
    assert(high % 2 == 0 && high / 2 == i && low % 2 == 1 && low / 2 == i);
    assert(0 <= high < 2 * bytes.len() && 0 <= low < 2 * bytes.len());
}

proof fn lemma_hex_digit(m: int, n: int)
    requires
        0 <= m < 16,
        0 <= n < 16,
        hex_digit(m) == hex_digit(n),
    ensures
        m == n,
{
    assert(hex_digit(m) as int == (if m < 10 { 48 + m } else { 87 + m }));
    assert(hex_digit(n) as int == (if n < 10 { 48 + n } else { 87 + n }));
}

/// The number that a digit of the hexadecimal system stands for.
pub open spec fn digit_of(c: char) -> int {
    if '0' <= c <= '9' {
        c as int - 48
    } else {
        c as int - 87
    }
}

/// Each byte is written as two digits, the sixteens before the ones, with letters
/// in lower case.
pub proof fn law_bytes_are_two_digits(bytes: Seq<u8>, i: int)
    requires
        0 <= i < bytes.len(),
    ensures
        ({
            let t = hex_text(bytes);
            let a = t[2 * i];
            let b = t[2 * i + 1];
            &&& t.len() == 2 * bytes.len()
            &&& '0' <= a <= '9' || 'a' <= a <= 'f'
            &&& '0' <= b <= '9' || 'a' <= b <= 'f'
            &&& 16 * digit_of(a) + digit_of(b) == bytes[i]
        }),
{
    assert((2 * i) / 2 == i && (2 * i) % 2 == 0);
    assert((2 * i + 1) / 2 == i && (2 * i + 1) % 2 == 1);
}

} // verus!
