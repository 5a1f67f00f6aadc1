//! The cell index: which records lie in an S2 cell.
//!
//! Two buffers make up an index. The cell table holds one 12-byte record for
//! each cell, sorted by cell id: the id (64 bits) and an offset into the
//! entries (32 bits). The entries hold, at each such offset, a 16-bit count
//! and that many 32-bit record ids.
use vstd::prelude::*;
use crate::bytes::{
    bisect, find_record, le_digits, lemma_bisect_ascending, lemma_le_digits_len,
    lemma_le_round_trip, lemma_pow256, push_u16, push_u32, push_u64, read_u16, read_u32,
    record_count, table_keys, u16_at, u32_at, u64_at,
};

verus! {

broadcast use vstd::seq::group_seq_axioms;

/// The offset that stands for "no entries".
pub const NO_DATA: u32 = 0xFFFFFFFF;

/// Bytes of a record in the cell table.
pub const CELL_ENTRY_SIZE: usize = 12;

/// The most ids that one cell can list.
pub const MAX_CELL_IDS: usize = 65535;

/// The offset that the cell table gives for a cell.
pub open spec fn cell_offset(cells: Seq<u8>, cell: u64) -> Option<u32> {
    match bisect(table_keys(cells, 12), cell, 0, record_count(cells, 12)) {
        Some(i) => Some(u32_at(cells, i * 12 + 8)),
        None => None,
    }
}

/// The ids listed at `offset`; none where the list would not fit.
pub open spec fn ids_at(entries: Seq<u8>, offset: u32) -> Seq<u32> {
    let off = offset as int;
    if off + 2 > entries.len() {
        Seq::empty()
    } else {
        let n = u16_at(entries, off) as int;
        if off + 2 + n * 4 > entries.len() {
            Seq::empty()
        } else {
            Seq::new(n as nat, |i: int| u32_at(entries, off + 2 + i * 4))
        }
    }
}

/// The ids listed for a cell.
pub open spec fn ids_in_cell(cells: Seq<u8>, entries: Seq<u8>, cell: u64) -> Seq<u32> {
    match cell_offset(cells, cell) {
        Some(off) => ids_at(entries, off),
        None => Seq::empty(),
    }
}

/// The ids listed for each of several cells, one list behind the other.
pub open spec fn ids_in_cells(cells: Seq<u8>, entries: Seq<u8>, scan: Seq<u64>) -> Seq<u32>
    decreases scan.len(),
{
    if scan.len() == 0 {
        Seq::empty()
    } else {
        ids_in_cells(cells, entries, scan.drop_last()) + ids_in_cell(cells, entries, scan.last())
    }
}

/// Looks a cell up in the cell table.
pub fn lookup_cell_offset(cells: &[u8], cell_id: u64) -> (r: Option<u32>)
    ensures
        r == cell_offset(cells@, cell_id),
{
    match find_record(cells, CELL_ENTRY_SIZE, cell_id) {
        Some(i) => {
            assert((i + 1) * 12 <= cells.len());
            Some(read_u32(cells, i * CELL_ENTRY_SIZE + 8))
        },
        None => None,
    }
}

/// The ids listed at `offset`.
pub fn read_ids(entries: &[u8], offset: u32) -> (r: Vec<u32>)
    ensures
        r@ == ids_at(entries@, offset),
{
    let mut out: Vec<u32> = Vec::new();
    let off: usize = offset as usize;
    let len: usize = entries.len();
    if len < 2 || off > len - 2 {
        assert(out@ =~= ids_at(entries@, offset));
        return out;
    }
    let n: usize = read_u16(entries, off) as usize;
    if (len - 2 - off) / 4 < n {
        assert(out@ =~= ids_at(entries@, offset));
        return out;
    }
    let ghost all = Seq::new(n as nat, |i: int| u32_at(entries@, off + 2 + i * 4));
    for i in 0..n
        invariant
            off + 2 + n * 4 <= len,
            len == entries@.len(),
            all == Seq::new(n as nat, |i: int| u32_at(entries@, off + 2 + i * 4)),
            out@ == all.take(i as int),
    {
        out.push(read_u32(entries, off + 2 + i * 4));
        assert(all.take(i + 1) =~= all.take(i as int).push(all[i as int]));
    }
    assert(all.take(n as int) =~= all);
    out
}

/// The ids listed for each of several cells, one list behind the other.
pub fn scan_cells(cells: &[u8], entries: &[u8], scan: &[u64]) -> (r: Vec<u32>)
    ensures
        r@ == ids_in_cells(cells@, entries@, scan@),
{
    let mut out: Vec<u32> = Vec::new();
    for i in 0..scan.len()
        invariant
            out@ == ids_in_cells(cells@, entries@, scan@.take(i as int)),
    {
        assert(scan@.take(i + 1).drop_last() =~= scan@.take(i as int));
        let ghost before = out@;
        match lookup_cell_offset(cells, scan[i]) {
            Some(off) => {
                let mut ids = read_ids(entries, off);
                out.append(&mut ids);
            },
            None => {
                assert(before =~= before + Seq::<u32>::empty());
            },
        }
    }
    assert(scan@.take(scan@.len() as int) =~= scan@);
    out
}

// --- Writing ---
/// Where the run of equal cells that begins at `start` ends.
pub open spec fn run_end(cells: Seq<u64>, start: int) -> int {
    run_end_from(cells, start, start + 1)
}

pub open spec fn run_end_from(cells: Seq<u64>, start: int, at: int) -> int
    decreases cells.len() - at,
{
    if at < cells.len() && cells[at] == cells[start] {
        run_end_from(cells, start, at + 1)
    } else {
        at
    }
}

/// The number of ids that the run at `start` lists.
pub open spec fn run_ids(cells: Seq<u64>, start: int) -> int {
    let n = run_end(cells, start) - start;
    if n > MAX_CELL_IDS {
        MAX_CELL_IDS as int
    } else {
        n
    }
}

proof fn lemma_run_end_from(cells: Seq<u64>, start: int, at: int)
    requires
        0 <= start < at <= cells.len(),
    ensures
        at <= run_end_from(cells, start, at) <= cells.len(),
        forall|j: int| at <= j < run_end_from(cells, start, at) ==> cells[j] == cells[start],
        run_end_from(cells, start, at) < cells.len() ==> cells[run_end_from(cells, start, at)]
            != cells[start],
    decreases cells.len() - at,
{
    if at < cells.len() && cells[at] == cells[start] {
        lemma_run_end_from(cells, start, at + 1);
    }
}

/// The cell table for records whose cells are `cells[start..]`, when their
/// entries begin at offset `off`.
pub open spec fn cell_table(cells: Seq<u64>, start: int, off: int) -> Seq<u8>
    decreases cells.len() - start,
    via cell_table_decreases
{
    if start < 0 || start >= cells.len() {
        Seq::empty()
    } else {
        le_digits(cells[start] as nat, 8) + le_digits(off as nat, 4) + cell_table(
            cells,
            run_end(cells, start),
            off + 2 + 4 * run_ids(cells, start),
        )
    }
}

#[via_fn]
proof fn cell_table_decreases(cells: Seq<u64>, start: int, off: int) {
    if 0 <= start < cells.len() {
        lemma_run_end_from(cells, start, start + 1);
    }
}

/// The `n` ids from `first` on, four bytes each.
pub open spec fn id_bytes(first: int, n: int) -> Seq<u8>
    decreases n,
{
    if n <= 0 {
        Seq::empty()
    } else {
        id_bytes(first, n - 1) + le_digits((first + n - 1) as nat, 4)
    }
}

/// The entries for records whose cells are `cells[start..]`: of each run of
/// equal cells, its length and the positions in it, up to the most that a cell
/// can list.
pub open spec fn entry_bytes(cells: Seq<u64>, start: int) -> Seq<u8>
    decreases cells.len() - start,
    via entry_bytes_decreases
{
    if start < 0 || start >= cells.len() {
        Seq::empty()
    } else {
        le_digits(run_ids(cells, start) as nat, 2) + id_bytes(start, run_ids(cells, start))
            + entry_bytes(cells, run_end(cells, start))
    }
}

#[via_fn]
proof fn entry_bytes_decreases(cells: Seq<u64>, start: int) {
    if 0 <= start < cells.len() {
        lemma_run_end_from(cells, start, start + 1);
    }
}

proof fn lemma_id_bytes_len(first: int, n: int)
    requires
        0 <= n,
    ensures
        id_bytes(first, n).len() == 4 * n,
    decreases n,
{
    if n > 0 {
        lemma_id_bytes_len(first, n - 1);
        lemma_le_digits_len((first + n - 1) as nat, 4);
    }
}

/// Where the run of equal cells that begins at `start` ends.
fn find_run_end(cells: &[u64], start: usize) -> (r: usize)
    requires
        start < cells@.len(),
    ensures
        r == run_end(cells@, start as int),
        start < r <= cells@.len(),
{
    assert(start < cells.len());
    let mut at: usize = start + 1;
    while at < cells.len() && cells[at] == cells[start]
        invariant
            start < at <= cells@.len(),
            run_end_from(cells@, start as int, at as int) == run_end(cells@, start as int),
        decreases cells@.len() - at,
    {
        at += 1;
    }
    at
}

/// Whether every offset into the entries for these cells fits in 32 bits.
pub fn entries_fit(cells: &[u64]) -> (r: bool)
    ensures
        r == (entry_bytes(cells@, 0).len() <= u32::MAX),
{
    let mut start: usize = 0;
    let mut off: u64 = 0;
    while start < cells.len()
        invariant
            start <= cells@.len(),
            off <= u32::MAX,
            off + entry_bytes(cells@, start as int).len() == entry_bytes(cells@, 0).len(),
        decreases cells@.len() - start,
    {
        let end: usize = find_run_end(cells, start);
        let n: usize = if end - start > MAX_CELL_IDS {
            MAX_CELL_IDS
        } else {
            end - start
        };
        proof {
            lemma_id_bytes_len(start as int, n as int);
            lemma_le_digits_len(n as nat, 2);
        }
        off = off + 2 + 4 * (n as u64);
        if off > u32::MAX as u64 {
            return false;
        }
        start = end;
    }
    true
}

/// The two buffers of a cell index.
pub struct CellIndex {
    pub cells: Vec<u8>,
    pub entries: Vec<u8>,
    /// How many cells the table lists.
    pub count: u64,
}

/// Builds the index over records that stand in the order of their cells:
/// `cells[i]` is the cell of record `i`.
pub fn build_cell_index(cells: &[u64]) -> (r: CellIndex)
    requires
        entry_bytes(cells@, 0).len() <= u32::MAX,
        cells@.len() <= u32::MAX,
    ensures
        r.cells@ == cell_table(cells@, 0, 0),
        r.entries@ == entry_bytes(cells@, 0),
        r.count * 12 == cell_table(cells@, 0, 0).len(),
{
    let mut table: Vec<u8> = Vec::new();
    let mut entries: Vec<u8> = Vec::new();
    let mut start: usize = 0;
    let mut off: u32 = 0;
    let mut count: u64 = 0;
    assert(table@ + cell_table(cells@, 0, 0) =~= cell_table(cells@, 0, 0));
    assert(entries@ + entry_bytes(cells@, 0) =~= entry_bytes(cells@, 0));
    while start < cells.len()
        invariant
            start <= cells@.len() <= u32::MAX,
            entry_bytes(cells@, 0).len() <= u32::MAX,
            table@ + cell_table(cells@, start as int, off as int) == cell_table(cells@, 0, 0),
            entries@ + entry_bytes(cells@, start as int) == entry_bytes(cells@, 0),
            off == entries@.len(),
            count * 12 == table@.len(),
            count <= start,
        decreases cells@.len() - start,
    {
        let end: usize = find_run_end(cells, start);
        let n: usize = if end - start > MAX_CELL_IDS {
            MAX_CELL_IDS
        } else {
            end - start
        };
        let ghost table0 = table@;
        let ghost entries0 = entries@;
        proof {
            lemma_id_bytes_len(start as int, n as int);
            lemma_le_digits_len(n as nat, 2);
            lemma_le_digits_len(cells@[start as int] as nat, 8);
            lemma_le_digits_len(off as nat, 4);
        }
        push_u64(&mut table, cells[start]);
        push_u32(&mut table, off);
        push_u16(&mut entries, n as u16);
        let ghost entries1 = entries@;
        assert(entries1 + id_bytes(start as int, 0) =~= entries1);
        for i in 0..n
            invariant
                entries@ == entries1 + id_bytes(start as int, i as int),
                start + n <= cells@.len() <= u32::MAX,
        {
            push_u32(&mut entries, (start + i) as u32);
            assert(entries@ =~= entries1 + id_bytes(start as int, i + 1));
        }
        proof {
            let table_tail = cell_table(cells@, end as int, off + 2 + 4 * n);
            let entries_tail = entry_bytes(cells@, end as int);
            assert(table@ + table_tail =~= table0 + cell_table(cells@, start as int, off as int));
            assert(entries@ + entries_tail =~= entries0 + entry_bytes(cells@, start as int));
            assert(entries@.len() + entries_tail.len() == entry_bytes(cells@, 0).len());
        }
        off = off + 2 + 4 * (n as u32);
        count += 1;
        start = end;
    }
    assert(table@ =~= cell_table(cells@, 0, 0));
    assert(entries@ =~= entry_bytes(cells@, 0));
    CellIndex { cells: table, entries, count }
}

// --- What a read gives back of a write ---
/// A run of records in the same cell.
pub struct Run {
    pub cell: u64,
    pub start: int,
    pub off: int,
}

/// The runs of `cells[start..]`, with the offsets of their entries.
pub open spec fn runs(cells: Seq<u64>, start: int, off: int) -> Seq<Run>
    decreases cells.len() - start,
    via runs_decreases
{
    if start < 0 || start >= cells.len() {
        Seq::empty()
    } else {
        seq![Run { cell: cells[start], start, off }] + runs(
            cells,
            run_end(cells, start),
            off + 2 + 4 * run_ids(cells, start),
        )
    }
}

#[via_fn]
proof fn runs_decreases(cells: Seq<u64>, start: int, off: int) {
    if 0 <= start < cells.len() {
        lemma_run_end_from(cells, start, start + 1);
    }
}

proof fn lemma_u64_at_front(n: nat, rest: Seq<u8>)
    requires
        n <= u64::MAX,
    ensures
        u64_at(le_digits(n, 8) + rest, 0) == n,
{
    lemma_pow256();
    lemma_le_round_trip(n, 8);
    assert((le_digits(n, 8) + rest).subrange(0, 8) =~= le_digits(n, 8));
}

proof fn lemma_u32_at(before: Seq<u8>, n: nat, rest: Seq<u8>)
    requires
        n <= u32::MAX,
    ensures
        u32_at(before + le_digits(n, 4) + rest, before.len() as int) == n,
{
    lemma_pow256();
    lemma_le_round_trip(n, 4);
    let b = before.len() as int;
    assert((before + le_digits(n, 4) + rest).subrange(b, b + 4) =~= le_digits(n, 4));
}

proof fn lemma_u16_at(before: Seq<u8>, n: nat, rest: Seq<u8>)
    requires
        n <= u16::MAX,
    ensures
        u16_at(before + le_digits(n, 2) + rest, before.len() as int) == n,
{
    lemma_pow256();
    lemma_le_round_trip(n, 2);
    let b = before.len() as int;
    assert((before + le_digits(n, 2) + rest).subrange(b, b + 2) =~= le_digits(n, 2));
}

proof fn lemma_table_runs(cells: Seq<u64>, start: int, off: int)
    requires
        0 <= start <= cells.len(),
        0 <= off,
        off + entry_bytes(cells, start).len() <= u32::MAX,
    ensures
        cell_table(cells, start, off).len() == 12 * runs(cells, start, off).len(),
        forall|k: int|
            #![trigger runs(cells, start, off)[k]]
            0 <= k < runs(cells, start, off).len() ==> {
                &&& u64_at(cell_table(cells, start, off), k * 12) == runs(cells, start, off)[k].cell
                &&& u32_at(cell_table(cells, start, off), k * 12 + 8) == runs(
                    cells,
                    start,
                    off,
                )[k].off
            },
    decreases cells.len() - start,
{
    if start < cells.len() {
        lemma_run_end_from(cells, start, start + 1);
        let end = run_end(cells, start);
        let n = run_ids(cells, start);
        let off2 = off + 2 + 4 * n;
        lemma_id_bytes_len(start, n);
        lemma_le_digits_len(n as nat, 2);
        lemma_table_runs(cells, end, off2);
        let t = cell_table(cells, start, off);
        let tail = cell_table(cells, end, off2);
        let rs = runs(cells, start, off);
        let rest = runs(cells, end, off2);
        let key = le_digits(cells[start] as nat, 8);
        let value = le_digits(off as nat, 4);
        lemma_le_digits_len(cells[start] as nat, 8);
        lemma_le_digits_len(off as nat, 4);
        lemma_u64_at_front(cells[start] as nat, value + tail);
        assert(key + (value + tail) =~= t);
        lemma_u32_at(key, off as nat, tail);
        assert forall|k: int| #![trigger rs[k]] 0 <= k < rs.len() implies u64_at(t, k * 12) == rs[k].cell
            && u32_at(t, k * 12 + 8) == rs[k].off by {
            if k > 0 {
                assert(rs[k] == rest[k - 1]);
                assert(t.subrange(k * 12, k * 12 + 8) =~= tail.subrange(
                    (k - 1) * 12,
                    (k - 1) * 12 + 8,
                ));
                assert(t.subrange(k * 12 + 8, k * 12 + 12) =~= tail.subrange(
                    (k - 1) * 12 + 8,
                    (k - 1) * 12 + 12,
                ));
            }
        }
    }
}

proof fn lemma_id_bytes_at(before: Seq<u8>, first: int, n: int, rest: Seq<u8>, i: int)
    requires
        0 <= first,
        0 <= i < n,
        first + n <= u32::MAX + 1,
    ensures
        u32_at(before + id_bytes(first, n) + rest, before.len() + 4 * i) == first + i,
    decreases n,
{
    lemma_id_bytes_len(first, n - 1);
    let last = le_digits((first + n - 1) as nat, 4);
    if i == n - 1 {
        lemma_u32_at(before + id_bytes(first, n - 1), (first + n - 1) as nat, rest);
        assert(before + id_bytes(first, n - 1) + last + rest =~= before + id_bytes(first, n) + rest);
    } else {
        lemma_id_bytes_at(before, first, n - 1, last + rest, i);
        assert(before + id_bytes(first, n - 1) + (last + rest) =~= before + id_bytes(first, n) + rest);
    }
}

proof fn lemma_entries_runs(cells: Seq<u64>, start: int, before: Seq<u8>)
    requires
        0 <= start <= cells.len() <= u32::MAX,
        before.len() + entry_bytes(cells, start).len() <= u32::MAX,
    ensures
        forall|k: int|
            #![trigger runs(cells, start, before.len() as int)[k]]
            0 <= k < runs(cells, start, before.len() as int).len() ==> {
                let run = runs(cells, start, before.len() as int)[k];
                &&& 0 <= run.off <= u32::MAX
                &&& start <= run.start < cells.len()
                &&& ids_at(before + entry_bytes(cells, start), run.off as u32) == Seq::new(
                    run_ids(cells, run.start) as nat,
                    |i: int| (run.start + i) as u32,
                )
            },
    decreases cells.len() - start,
{
    if start < cells.len() {
        lemma_run_end_from(cells, start, start + 1);
        let off = before.len() as int;
        let end = run_end(cells, start);
        let n = run_ids(cells, start);
        let count = le_digits(n as nat, 2);
        let ids = id_bytes(start, n);
        let tail = entry_bytes(cells, end);
        let whole = before + entry_bytes(cells, start);
        lemma_id_bytes_len(start, n);
        lemma_le_digits_len(n as nat, 2);
        let before2 = before + count + ids;
        lemma_entries_runs(cells, end, before2);
        assert(before2 + tail =~= whole);
        assert(before2.len() == off + 2 + 4 * n);
        let rs = runs(cells, start, off);
        let rest = runs(cells, end, off + 2 + 4 * n);
        lemma_u16_at(before, n as nat, ids + tail);
        assert(before + count + (ids + tail) =~= whole);
        assert forall|k: int| #![trigger rs[k]] 0 <= k < rs.len() implies {
            let run = rs[k];
            &&& 0 <= run.off <= u32::MAX
            &&& start <= run.start < cells.len()
            &&& ids_at(whole, run.off as u32) == Seq::new(
                run_ids(cells, run.start) as nat,
                |i: int| (run.start + i) as u32,
            )
        } by {
            if k > 0 {
                assert(rs[k] == rest[k - 1]);
            } else {
                let got = ids_at(whole, off as u32);
                let want = Seq::new(n as nat, |i: int| (start + i) as u32);
                assert(got.len() == n);
                assert forall|i: int| 0 <= i < n implies got[i] == want[i] by {
                    lemma_id_bytes_at(before + count, start, n, tail, i);
                    assert(before + count + ids + tail =~= whole);
                }
                assert(got =~= want);
            }
        }
    }
}

/// Whether the records stand in the order of their cells.
pub open spec fn ordered(cells: Seq<u64>) -> bool {
    forall|i: int, j: int| 0 <= i <= j < cells.len() ==> cells[i] <= cells[j]
}

#[verifier::rlimit(50)]
#[verifier::spinoff_prover]
proof fn lemma_runs_ascend(cells: Seq<u64>, start: int, off: int)
    requires
        ordered(cells),
        0 <= start <= cells.len(),
    ensures
        forall|a: int, b: int|
            #![trigger runs(cells, start, off)[a], runs(cells, start, off)[b]]
            0 <= a < b < runs(cells, start, off).len() ==> runs(cells, start, off)[a].cell < runs(
                cells,
                start,
                off,
            )[b].cell,
        forall|a: int|
            #![trigger runs(cells, start, off)[a]]
            0 <= a < runs(cells, start, off).len() ==> {
                let run = runs(cells, start, off)[a];
                &&& start <= run.start < cells.len()
                &&& run.cell == cells[run.start]
                &&& forall|j: int| start <= j < cells.len() ==> (cells[j] == run.cell <==> run.start
                    <= j < run_end(cells, run.start))
            },
        forall|j: int|
            #![trigger cells[j]]
            start <= j < cells.len() ==> exists|a: int|
                0 <= a < runs(cells, start, off).len() && #[trigger] runs(cells, start, off)[a].cell
                    == cells[j],
    decreases cells.len() - start,
{
    if start < cells.len() {
        lemma_run_end_from(cells, start, start + 1);
        let end = run_end(cells, start);
        let off2 = off + 2 + 4 * run_ids(cells, start);
        lemma_runs_ascend(cells, end, off2);
        let rs = runs(cells, start, off);
        let rest = runs(cells, end, off2);
        assert forall|a: int| #![trigger rs[a]] 0 <= a < rs.len() implies {
            let run = rs[a];
            &&& start <= run.start < cells.len()
            &&& run.cell == cells[run.start]
            &&& forall|j: int| start <= j < cells.len() ==> (cells[j] == run.cell <==> run.start <= j
                < run_end(cells, run.start))
        } by {
            if a > 0 {
                assert(rs[a] == rest[a - 1]);
                let run = rest[a - 1];
                assert(cells[end] <= cells[run.start]);
                assert forall|j: int| start <= j < end implies cells[j] != run.cell by {
                    assert(cells[j] <= cells[end]);
                }
            } else {
                assert forall|j: int| end <= j < cells.len() implies cells[j] != cells[start] by {
                    assert(cells[end] <= cells[j]);
                    assert(cells[start] <= cells[end]);
                }
            }
        }
        assert forall|a: int, b: int| #![trigger rs[a], rs[b]] 0 <= a < b < rs.len() implies rs[a].cell
            < rs[b].cell by {
            assert(rs[b] == rest[b - 1]);
            let run = rest[b - 1];
            if a > 0 {
                assert(rs[a] == rest[a - 1]);
            } else {
                assert(cells[start] <= cells[end]);
                assert(cells[end] <= cells[run.start]);
            }
        }
        assert forall|j: int| #![trigger cells[j]] start <= j < cells.len() implies exists|a: int|
            0 <= a < rs.len() && #[trigger] rs[a].cell == cells[j] by {
            if j < end {
                assert(rs[0].cell == cells[j]);
            } else {
                let b = choose|b: int| 0 <= b < rest.len() && #[trigger] rest[b].cell == cells[j];
                assert(rs[b + 1] == rest[b]);
            }
        }
    }
}

/// Looking a cell up in an index that was written from records in the order of
/// their cells gives back exactly the records in that cell: none where there
/// are none, all of them up to 65535, and the first 65535 beyond.
pub proof fn law_index_gives_back(cells: Seq<u64>, cell: u64, from: int, to: int)
    requires
        ordered(cells),
        cells.len() <= u32::MAX,
        entry_bytes(cells, 0).len() <= u32::MAX,
        0 <= from <= to <= cells.len(),
        forall|j: int| 0 <= j < cells.len() ==> (cells[j] == cell <==> from <= j < to),
    ensures
        ids_in_cell(cell_table(cells, 0, 0), entry_bytes(cells, 0), cell) == Seq::new(
            (if to - from > 65535 {
                65535
            } else {
                to - from
            }) as nat,
            |i: int| (from + i) as u32,
        ),
{
    let t = cell_table(cells, 0, 0);
    let e = entry_bytes(cells, 0);
    let rs = runs(cells, 0, 0);
    let keys = table_keys(t, 12);
    lemma_table_runs(cells, 0, 0);
    lemma_runs_ascend(cells, 0, 0);
    lemma_entries_runs(cells, 0, Seq::empty());
    assert(Seq::<u8>::empty() + e =~= e);
    assert(record_count(t, 12) == rs.len());
    assert forall|a: int, b: int| 0 <= a < b < keys.len() implies keys[a] < keys[b] by {
        assert(keys[a] == rs[a].cell);
        assert(keys[b] == rs[b].cell);
    }
    lemma_bisect_ascending(keys, cell, 0, keys.len() as int);
    match bisect(keys, cell, 0, keys.len() as int) {
        Some(k) => {
            let run = rs[k];
            assert(keys[k] == run.cell);
            assert(cells[run.start] == cell);
            lemma_run_end_from(cells, run.start, run.start + 1);
            let end = run_end(cells, run.start);
            assert(from <= run.start < to);
            assert(cells[end - 1] == cell);
            assert(run.start == from) by {
                assert(cells[from] == cell);
            }
            assert(end == to) by {
                assert(cells[to - 1] == cell);
            }
            assert(u32_at(t, k * 12 + 8) == run.off as u32);
            assert(ids_at(e, run.off as u32) == Seq::new(
                run_ids(cells, run.start) as nat,
                |i: int| (run.start + i) as u32,
            ));
        },
        None => {
            if from < to {
                assert(cells[from] == cell);
                let a = choose|a: int| 0 <= a < rs.len() && #[trigger] rs[a].cell == cells[from];
                assert(keys[a] == rs[a].cell);
            }
        },
    }
    assert(ids_in_cell(t, e, cell) =~= Seq::new(
        (if to - from > 65535 {
            65535
        } else {
            to - from
        }) as nat,
        |i: int| (from + i) as u32,
    ));
}

} // verus!
