//! Little-endian fields, string pools and sorted tables inside byte buffers.
use vstd::prelude::*;
use vstd::utf8::{decode_utf8, valid_utf8};

verus! {

broadcast use vstd::seq::group_seq_axioms;

// --- Little-endian integers ---
/// The unsigned number that `s` writes in base 256, least significant first.
pub open spec fn le_value(s: Seq<u8>) -> nat
    decreases s.len(),
{
    if s.len() == 0 {
        0
    } else {
        s[0] as nat + 256 * le_value(s.drop_first())
    }
}

/// The `width` least significant base-256 digits of `n`, least significant first.
pub open spec fn le_digits(n: nat, width: nat) -> Seq<u8>
    decreases width,
{
    if width == 0 {
        Seq::empty()
    } else {
        seq![(n % 256) as u8] + le_digits(n / 256, (width - 1) as nat)
    }
}

/// The 16-bit field at `off`.
pub open spec fn u16_at(s: Seq<u8>, off: int) -> u16 {
    le_value(s.subrange(off, off + 2)) as u16
}

/// The 32-bit field at `off`.
pub open spec fn u32_at(s: Seq<u8>, off: int) -> u32 {
    le_value(s.subrange(off, off + 4)) as u32
}

/// The 64-bit field at `off`.
pub open spec fn u64_at(s: Seq<u8>, off: int) -> u64 {
    le_value(s.subrange(off, off + 8)) as u64
}

proof fn lemma_le_value_step(s: Seq<u8>, a: int, b: int)
    requires
        0 <= a < b <= s.len(),
    ensures
        le_value(s.subrange(a, b)) == s[a] as nat + 256 * le_value(s.subrange(a + 1, b)),
{
    assert(s.subrange(a, b).drop_first() =~= s.subrange(a + 1, b));
}

/// Reads the 16-bit field at `off`.
pub fn read_u16(s: &[u8], off: usize) -> (r: u16)
    requires
        off + 2 <= s@.len(),
    ensures
        r == u16_at(s@, off as int),
{
    proof {
        lemma_le_value_step(s@, off as int, off + 2);
        lemma_le_value_step(s@, off + 1, off + 2);
        assert(le_value(s@.subrange(off + 2, off + 2)) == 0);
    }
    s[off] as u16 + 256 * (s[off + 1] as u16)
}

/// Reads the 32-bit field at `off`.
pub fn read_u32(s: &[u8], off: usize) -> (r: u32)
    requires
        off + 4 <= s@.len(),
    ensures
        r == u32_at(s@, off as int),
{
    proof {
        lemma_le_value_step(s@, off as int, off + 4);
        lemma_le_value_step(s@, off + 1, off + 4);
        lemma_le_value_step(s@, off + 2, off + 4);
        lemma_le_value_step(s@, off + 3, off + 4);
        assert(le_value(s@.subrange(off + 4, off + 4)) == 0);
    }
    s[off] as u32 + 256 * (s[off + 1] as u32 + 256 * (s[off + 2] as u32 + 256 * (s[off + 3] as u32)))
}

/// Reads the 64-bit field at `off`.
pub fn read_u64(s: &[u8], off: usize) -> (r: u64)
    requires
        off + 8 <= s@.len(),
    ensures
        r == u64_at(s@, off as int),
{
    assert(off + 8 <= s.len());
    let hi: u64 = read_u32(s, off + 4) as u64;
    let lo: u64 = read_u32(s, off) as u64;
    proof {
        lemma_le_value_step(s@, off as int, off + 8);
        lemma_le_value_step(s@, off + 1, off + 8);
        lemma_le_value_step(s@, off + 2, off + 8);
        lemma_le_value_step(s@, off + 3, off + 8);
        lemma_le_value_step(s@, off as int, off + 4);
        lemma_le_value_step(s@, off + 1, off + 4);
        lemma_le_value_step(s@, off + 2, off + 4);
        lemma_le_value_step(s@, off + 3, off + 4);
        assert(le_value(s@.subrange(off + 4, off + 4)) == 0);
        lemma_le_value_step(s@, off + 4, off + 8);
        lemma_le_value_step(s@, off + 5, off + 8);
        lemma_le_value_step(s@, off + 6, off + 8);
        lemma_le_value_step(s@, off + 7, off + 8);
        assert(le_value(s@.subrange(off + 8, off + 8)) == 0);
    }
    lo + 0x1_0000_0000 * hi
}

pub open spec fn pow256(width: nat) -> nat
    decreases width,
{
    if width == 0 {
        1
    } else {
        256 * pow256((width - 1) as nat)
    }
}

/// Reading back the digits of a number that fits gives the number.
pub proof fn lemma_le_round_trip(n: nat, width: nat)
    requires
        n < pow256(width),
    ensures
        le_digits(n, width).len() == width,
        le_value(le_digits(n, width)) == n,
    decreases width,
{
    if width > 0 {
        assert(n / 256 < pow256((width - 1) as nat));
        lemma_le_round_trip(n / 256, (width - 1) as nat);
        assert(le_digits(n, width).drop_first() =~= le_digits(n / 256, (width - 1) as nat));
    }
}

pub proof fn lemma_le_digits_len(n: nat, width: nat)
    ensures
        le_digits(n, width).len() == width,
    decreases width,
{
    if width > 0 {
        lemma_le_digits_len(n / 256, (width - 1) as nat);
    }
}

/// The bounds of the fixed-width integers, in powers of 256.
pub proof fn lemma_pow256()
    ensures
        pow256(2) == 0x1_0000,
        pow256(4) == 0x1_0000_0000,
        pow256(8) == 0x1_0000_0000_0000_0000,
{
    reveal_with_fuel(pow256, 9);
}

/// Appends `n` in `width` little-endian bytes.
fn push_le(out: &mut Vec<u8>, n: u64, width: usize)
    ensures
        final(out)@ == old(out)@ + le_digits(n as nat, width as nat),
{
    let mut rest: u64 = n;
    let mut k: usize = width;
    assert(out@ + le_digits(rest as nat, k as nat) =~= old(out)@ + le_digits(
        n as nat,
        width as nat,
    ));
    while k > 0
        invariant
            k <= width,
            out@ + le_digits(rest as nat, k as nat) == old(out)@ + le_digits(
                n as nat,
                width as nat,
            ),
        decreases k,
    {
        let ghost before = out@;
        out.push((rest % 256) as u8);
        proof {
            assert(out@ + le_digits((rest / 256) as nat, (k - 1) as nat) =~= before + le_digits(
                rest as nat,
                k as nat,
            ));
        }
        rest = rest / 256;
        k -= 1;
    }
    assert(out@ =~= out@ + le_digits(rest as nat, 0));
}

pub fn push_u16(out: &mut Vec<u8>, n: u16)
    ensures
        final(out)@ == old(out)@ + le_digits(n as nat, 2),
{
    push_le(out, n as u64, 2);
}

pub fn push_u32(out: &mut Vec<u8>, n: u32)
    ensures
        final(out)@ == old(out)@ + le_digits(n as nat, 4),
{
    push_le(out, n as u64, 4);
}

pub fn push_u64(out: &mut Vec<u8>, n: u64)
    ensures
        final(out)@ == old(out)@ + le_digits(n as nat, 8),
{
    push_le(out, n, 8);
}

// --- NUL-terminated strings ---
/// The index of the first NUL at or behind `off`, or the length of `s`.
pub open spec fn nul_from(s: Seq<u8>, off: int) -> int
    decreases s.len() - off,
{
    if off < 0 || off >= s.len() || s[off] == 0 {
        off
    } else {
        nul_from(s, off + 1)
    }
}

/// The bytes of the NUL-terminated string at `off`.
pub open spec fn cstr(s: Seq<u8>, off: int) -> Seq<u8> {
    s.subrange(off, nul_from(s, off))
}

/// The text of the NUL-terminated string at `off`; empty if it is not UTF-8.
pub open spec fn text_at(s: Seq<u8>, off: int) -> Seq<char> {
    if valid_utf8(cstr(s, off)) {
        decode_utf8(cstr(s, off))
    } else {
        Seq::empty()
    }
}

pub proof fn lemma_nul_from(s: Seq<u8>, off: int)
    requires
        0 <= off <= s.len(),
    ensures
        off <= nul_from(s, off) <= s.len(),
        forall|j: int| off <= j < nul_from(s, off) ==> s[j] != 0,
        nul_from(s, off) < s.len() ==> s[nul_from(s, off)] == 0,
    decreases s.len() - off,
{
    if off < s.len() && s[off] != 0 {
        lemma_nul_from(s, off + 1);
    }
}

/// `std::str::from_utf8`: the bytes as a string slice where they are UTF-8.
#[verifier::external_body]
pub(crate) fn utf8_str(bytes: &[u8]) -> (r: Option<&str>)
    ensures
        match r {
            Some(s) => valid_utf8(bytes@) && s@ == decode_utf8(bytes@),
            None => !valid_utf8(bytes@),
        },
{
    std::str::from_utf8(bytes).ok()
}

/// What `String::from_utf8_lossy` makes of bytes that are not UTF-8.
pub uninterp spec fn lossy_text(bytes: Seq<u8>) -> Seq<char>;

/// `String::from_utf8_lossy`: the text of the bytes where they are UTF-8, and
/// otherwise text with replacement characters.
#[verifier::external_body]
pub(crate) fn lossy_string(bytes: &[u8]) -> (r: String)
    ensures
        r@ == (if valid_utf8(bytes@) {
            decode_utf8(bytes@)
        } else {
            lossy_text(bytes@)
        }),
{
    String::from_utf8_lossy(bytes).into_owned()
}

/// Where the NUL-terminated string at `off` ends.
pub fn find_nul(s: &[u8], off: usize) -> (r: usize)
    requires
        off <= s@.len(),
    ensures
        r == nul_from(s@, off as int),
        off <= r <= s@.len(),
{
    let mut i: usize = off;
    while i < s.len() && s[i] != 0
        invariant
            off <= i <= s@.len(),
            nul_from(s@, i as int) == nul_from(s@, off as int),
        decreases s@.len() - i,
    {
        i += 1;
    }
    i
}

/// The bytes of the NUL-terminated string at `off`.
pub fn cstr_at(s: &[u8], off: usize) -> (r: &[u8])
    requires
        off <= s@.len(),
    ensures
        r@ == cstr(s@, off as int),
{
    let end: usize = find_nul(s, off);
    vstd::slice::slice_subrange(s, off, end)
}

/// The NUL-terminated string at `off`; empty if it is not UTF-8.
pub fn str_at(s: &[u8], off: usize) -> (r: &str)
    requires
        off <= s@.len(),
    ensures
        r@ == text_at(s@, off as int),
{
    match utf8_str(cstr_at(s, off)) {
        Some(t) => t,
        None => {
            proof {
                reveal_strlit("");
            }
            assert(""@ =~= Seq::<char>::empty());
            ""
        },
    }
}

// --- Sorted tables of fixed-size records ---
/// The number of whole records of `size` bytes.
pub open spec fn record_count(table: Seq<u8>, size: int) -> int {
    table.len() as int / size
}

/// The 64-bit keys that the records of a table begin with.
pub open spec fn table_keys(table: Seq<u8>, size: int) -> Seq<u64> {
    Seq::new(record_count(table, size) as nat, |i: int| u64_at(table, i * size))
}

/// The position at which halving the range `lo..hi` meets `key`.
pub open spec fn bisect(keys: Seq<u64>, key: u64, lo: int, hi: int) -> Option<int>
    decreases hi - lo,
{
    if lo >= hi {
        None
    } else {
        let mid = lo + (hi - lo) / 2;
        if keys[mid] == key {
            Some(mid)
        } else if keys[mid] < key {
            bisect(keys, key, mid + 1, hi)
        } else {
            bisect(keys, key, lo, mid)
        }
    }
}

pub open spec fn ascending(keys: Seq<u64>) -> bool {
    forall|i: int, j: int| 0 <= i < j < keys.len() ==> keys[i] < keys[j]
}

/// Halving a table whose keys ascend finds a key exactly where it stands, and
/// finds nothing only where the key is absent.
pub proof fn lemma_bisect_ascending(keys: Seq<u64>, key: u64, lo: int, hi: int)
    requires
        ascending(keys),
        0 <= lo <= hi <= keys.len(),
    ensures
        match bisect(keys, key, lo, hi) {
            Some(i) => lo <= i < hi && keys[i] == key,
            None => forall|i: int| lo <= i < hi ==> keys[i] != key,
        },
    decreases hi - lo,
{
    if lo < hi {
        let mid = lo + (hi - lo) / 2;
        if keys[mid] < key {
            lemma_bisect_ascending(keys, key, mid + 1, hi);
        } else if keys[mid] > key {
            lemma_bisect_ascending(keys, key, lo, mid);
        }
    }
}

/// A key that a bisection reports stands where it is reported.
pub proof fn lemma_bisect_sound(keys: Seq<u64>, key: u64, lo: int, hi: int)
    requires
        0 <= lo,
        hi <= keys.len(),
    ensures
        bisect(keys, key, lo, hi) matches Some(i) ==> lo <= i < hi && keys[i] == key,
    decreases hi - lo,
{
    if lo < hi {
        let mid = lo + (hi - lo) / 2;
        lemma_bisect_sound(keys, key, mid + 1, hi);
        lemma_bisect_sound(keys, key, lo, mid);
    }
}

pub proof fn lemma_record_bounds(len: int, size: int, i: int)
    requires
        size > 0,
        0 <= i < len / size,
    ensures
        0 <= i * size,
        i * size + size <= len,
{
    assert(i * size + size <= len && 0 <= i * size) by (nonlinear_arith)
        requires
            size > 0,
            0 <= i < len / size,
    ;
}

/// Finds the record of a sorted table that begins with `key`.
pub fn find_record(table: &[u8], size: usize, key: u64) -> (r: Option<usize>)
    requires
        size >= 8,
    ensures
        match r {
            Some(i) => bisect(
                table_keys(table@, size as int),
                key,
                0,
                record_count(table@, size as int),
            ) == Some(i as int) && i < record_count(table@, size as int) && (i + 1) * size
                <= table@.len(),
            None => bisect(
                table_keys(table@, size as int),
                key,
                0,
                record_count(table@, size as int),
            ) is None,
        },
{
    let count: usize = table.len() / size;
    let mut lo: usize = 0;
    let mut hi: usize = count;
    while lo < hi
        invariant
            size >= 8,
            0 <= lo,
            hi <= count,
            count == record_count(table@, size as int),
            bisect(table_keys(table@, size as int), key, lo as int, hi as int) == bisect(
                table_keys(table@, size as int),
                key,
                0,
                count as int,
            ),
        decreases hi - lo,
    {
        let mid: usize = lo + (hi - lo) / 2;
        proof {
            lemma_record_bounds(table@.len() as int, size as int, mid as int);
        }
        assert(mid * size + size <= table.len());
        let found: u64 = read_u64(table, mid * size);
        if found == key {
            assert((mid + 1) * size == mid * size + size) by (nonlinear_arith);
            return Some(mid);
        } else if found < key {
            lo = mid + 1;
        } else {
            hi = mid;
        }
    }
    None
}

/// Numbers are stored with the least significant byte first.
pub proof fn law_least_byte_comes_first(s: Seq<u8>, off: int)
    requires
        0 <= off,
        off + 8 <= s.len(),
    ensures
        u16_at(s, off) == s[off] + 0x100 * s[off + 1],
        u32_at(s, off) == s[off] + 0x100 * s[off + 1] + 0x1_0000 * s[off + 2] + 0x100_0000 * s[off
            + 3],
        u64_at(s, off) == u32_at(s, off) + 0x1_0000_0000 * u32_at(s, off + 4),
{
    lemma_two_bytes(s, off);
    lemma_four_bytes(s, off);
    lemma_four_bytes(s, off + 4);
    reveal_with_fuel(le_value, 9);
    let e = s.subrange(off, off + 8);
    assert(e.drop_first()[0] == s[off + 1]);
    assert(e.drop_first().drop_first()[0] == s[off + 2]);
    assert(e.drop_first().drop_first().drop_first()[0] == s[off + 3]);
    let f = e.drop_first().drop_first().drop_first().drop_first();
    assert(f =~= s.subrange(off + 4, off + 8));
    assert(le_value(e) == e[0] + 0x100 * s[off + 1] + 0x1_0000 * s[off + 2] + 0x100_0000 * s[off + 3]
        + 0x1_0000_0000 * le_value(f));
}

proof fn lemma_two_bytes(s: Seq<u8>, off: int)
    requires
        0 <= off,
        off + 2 <= s.len(),
    ensures
        le_value(s.subrange(off, off + 2)) == s[off] + 0x100 * s[off + 1],
{
    reveal_with_fuel(le_value, 3);
    let e = s.subrange(off, off + 2);
    assert(e.drop_first()[0] == s[off + 1]);
    assert(e.drop_first().drop_first().len() == 0);
}

proof fn lemma_four_bytes(s: Seq<u8>, off: int)
    requires
        0 <= off,
        off + 4 <= s.len(),
    ensures
        le_value(s.subrange(off, off + 4)) == s[off] + 0x100 * s[off + 1] + 0x1_0000 * s[off + 2]
            + 0x100_0000 * s[off + 3],
{
    reveal_with_fuel(le_value, 5);
    let e = s.subrange(off, off + 4);
    assert(e.drop_first()[0] == s[off + 1]);
    assert(e.drop_first().drop_first()[0] == s[off + 2]);
    assert(e.drop_first().drop_first().drop_first()[0] == s[off + 3]);
    assert(e.drop_first().drop_first().drop_first().drop_first().len() == 0);
}

} // verus!
