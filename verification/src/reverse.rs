//! The reverse index: what lies at a point.
//!
//! A query visits a cell and its neighbours. The library lists the records in
//! them; the caller computes how far each is from the point, or whether a
//! polygon holds it, and hands the answers back. What follows from them is
//! decided here.
use vstd::prelude::*;
use crate::bytes::{bisect, find_record, read_u32, record_count, table_keys, u32_at};
use crate::cell_index::{ids_at, lookup_cell_offset, read_ids, cell_offset, NO_DATA};
use crate::records::{interp_way_of, way_header_of, InterpWay, NODE_COORD_SIZE};
use crate::text::{append_str, append_chars, decimal, decimal_chars, string_of};

verus! {

broadcast use vstd::seq::group_seq_axioms;

/// Most streets that a scan remembers. Beyond it a street may be listed again.
pub const SEEN_STREETS_CAP: usize = 256;

// --- Opening ---
/// What is wrong with a file of records, if anything.
pub open spec fn records_fault(
    path: Seq<char>,
    len: nat,
    record_size: nat,
    record_name: Seq<char>,
) -> Option<Seq<char>> {
    if record_size == 0 {
        Some("internal: record_size=0 for "@ + path)
    } else if len == 0 {
        Some(
            path + ": empty (expected at least one "@ + record_name
                + ") — index is corrupt or incomplete"@,
        )
    } else if len % record_size != 0 {
        Some(
            path + ": length "@ + decimal(len) + " is not a multiple of "@ + decimal(record_size)
                + " ("@ + record_name
                + ") — likely truncated or format-mismatched; rebuild the index"@,
        )
    } else {
        None
    }
}

/// Checks that a file holds a whole, positive number of records.
pub fn check_records(path: &str, len: usize, record_size: usize, record_name: &str) -> (r: Result<
    (),
    String,
>)
    ensures
        match r {
            Ok(_) => records_fault(path@, len as nat, record_size as nat, record_name@) is None,
            Err(m) => records_fault(path@, len as nat, record_size as nat, record_name@) == Some(
                m@,
            ),
        },
{
    let mut m: Vec<char> = Vec::new();
    if record_size == 0 {
        append_str(&mut m, "internal: record_size=0 for ");
        append_str(&mut m, path);
        assert(m@ =~= "internal: record_size=0 for "@ + path@);
        return Err(string_of(&m));
    }
    append_str(&mut m, path);
    assert(m@ =~= path@);
    if len == 0 {
        append_str(&mut m, ": empty (expected at least one ");
        append_str(&mut m, record_name);
        append_str(&mut m, ") — index is corrupt or incomplete");
        return Err(string_of(&m));
    }
    if len % record_size != 0 {
        append_str(&mut m, ": length ");
        append_chars(&mut m, &decimal_chars(len as u64));
        append_str(&mut m, " is not a multiple of ");
        append_chars(&mut m, &decimal_chars(record_size as u64));
        append_str(&mut m, " (");
        append_str(&mut m, record_name);
        append_str(&mut m, ") — likely truncated or format-mismatched; rebuild the index");
        return Err(string_of(&m));
    }
    Ok(())
}

/// What is wrong with a file that must not be empty, if anything.
pub open spec fn nonempty_fault(path: Seq<char>, len: nat, role: Seq<char>) -> Option<Seq<char>> {
    if len == 0 {
        Some(
            path + ": empty (expected a non-empty "@ + role
                + ") — index is corrupt or incomplete"@,
        )
    } else {
        None
    }
}

/// Checks that a file is not empty.
pub fn check_nonempty(path: &str, len: usize, role: &str) -> (r: Result<(), String>)
    ensures
        match r {
            Ok(_) => nonempty_fault(path@, len as nat, role@) is None,
            Err(m) => nonempty_fault(path@, len as nat, role@) == Some(m@),
        },
{
    if len == 0 {
        let mut m: Vec<char> = Vec::new();
        append_str(&mut m, path);
        append_str(&mut m, ": empty (expected a non-empty ");
        append_str(&mut m, role);
        append_str(&mut m, ") — index is corrupt or incomplete");
        assert(m@ =~= path@ + ": empty (expected a non-empty "@ + role@
            + ") — index is corrupt or incomplete"@);
        return Err(string_of(&m));
    }
    Ok(())
}

// --- Cells ---
/// Where the entries of a street-level cell begin.
#[derive(Clone, Copy, Debug, PartialEq, Eq, Structural)]
pub struct GeoCellOffsets {
    pub street: u32,
    pub addr: u32,
    pub interp: u32,
}

/// The offsets of a cell; none where the table does not list it.
pub open spec fn geo_offsets(cells: Seq<u8>, cell: u64) -> GeoCellOffsets {
    match bisect(table_keys(cells, 20), cell, 0, record_count(cells, 20)) {
        Some(i) => GeoCellOffsets {
            street: u32_at(cells, i * 20 + 8),
            addr: u32_at(cells, i * 20 + 12),
            interp: u32_at(cells, i * 20 + 16),
        },
        None => GeoCellOffsets { street: NO_DATA, addr: NO_DATA, interp: NO_DATA },
    }
}

/// The ids at an offset; [`NO_DATA`] has none.
pub open spec fn listed(entries: Seq<u8>, offset: u32) -> Seq<u32> {
    if offset == NO_DATA {
        Seq::empty()
    } else {
        ids_at(entries, offset)
    }
}

/// Looks a street-level cell up.
pub fn lookup_geo_cell(cells: &[u8], cell_id: u64) -> (r: GeoCellOffsets)
    ensures
        r == geo_offsets(cells@, cell_id),
{
    match find_record(cells, 20, cell_id) {
        Some(i) => {
            assert((i + 1) * 20 <= cells.len());
            GeoCellOffsets {
                street: read_u32(cells, i * 20 + 8),
                addr: read_u32(cells, i * 20 + 12),
                interp: read_u32(cells, i * 20 + 16),
            }
        },
        None => GeoCellOffsets { street: NO_DATA, addr: NO_DATA, interp: NO_DATA },
    }
}

/// The offset of a cell in a table with one offset for each cell.
pub open spec fn admin_offset(cells: Seq<u8>, cell: u64) -> u32 {
    match cell_offset(cells, cell) {
        Some(off) => off,
        None => NO_DATA,
    }
}

/// Looks a cell up in a table with one offset for each cell.
pub fn lookup_admin_cell(cells: &[u8], cell_id: u64) -> (r: u32)
    ensures
        r == admin_offset(cells@, cell_id),
{
    match lookup_cell_offset(cells, cell_id) {
        Some(off) => off,
        None => NO_DATA,
    }
}

/// The ids at an offset.
pub fn entries_at(entries: &[u8], offset: u32) -> (r: Vec<u32>)
    ensures
        r@ == listed(entries@, offset),
{
    if offset == NO_DATA {
        Vec::new()
    } else {
        read_ids(entries, offset)
    }
}

/// Which kind of entries of a street-level cell a scan lists.
#[derive(Clone, Copy, Debug, PartialEq, Eq, Structural)]
pub enum Layer {
    Street,
    Addr,
    Interp,
}

pub open spec fn layer_offset(o: GeoCellOffsets, layer: Layer) -> u32 {
    match layer {
        Layer::Street => o.street,
        Layer::Addr => o.addr,
        Layer::Interp => o.interp,
    }
}

/// The ids of one layer in several street-level cells.
pub open spec fn geo_scan(cells: Seq<u8>, entries: Seq<u8>, layer: Layer, scan: Seq<u64>) -> Seq<u32>
    decreases scan.len(),
{
    if scan.len() == 0 {
        Seq::empty()
    } else {
        geo_scan(cells, entries, layer, scan.drop_last()) + listed(
            entries,
            layer_offset(geo_offsets(cells, scan.last()), layer),
        )
    }
}

/// The ids in several cells of a table with one offset for each cell.
pub open spec fn admin_scan(cells: Seq<u8>, entries: Seq<u8>, scan: Seq<u64>) -> Seq<u32>
    decreases scan.len(),
{
    if scan.len() == 0 {
        Seq::empty()
    } else {
        admin_scan(cells, entries, scan.drop_last()) + listed(
            entries,
            admin_offset(cells, scan.last()),
        )
    }
}

pub(crate) fn scan_layer(cells: &[u8], entries: &[u8], layer: Layer, scan: &[u64]) -> (r: Vec<u32>)
    ensures
        r@ == geo_scan(cells@, entries@, layer, scan@),
{
    let mut out: Vec<u32> = Vec::new();
    for i in 0..scan.len()
        invariant
            out@ == geo_scan(cells@, entries@, layer, scan@.take(i as int)),
    {
        assert(scan@.take(i + 1).drop_last() =~= scan@.take(i as int));
        let o = lookup_geo_cell(cells, scan[i]);
        let off: u32 = match layer {
            Layer::Street => o.street,
            Layer::Addr => o.addr,
            Layer::Interp => o.interp,
        };
        let mut ids = entries_at(entries, off);
        out.append(&mut ids);
    }
    assert(scan@.take(scan@.len() as int) =~= scan@);
    out
}

/// The ids in several cells of a table with one offset for each cell.
pub fn scan_admin_cells(cells: &[u8], entries: &[u8], scan: &[u64]) -> (r: Vec<u32>)
    ensures
        r@ == admin_scan(cells@, entries@, scan@),
{
    let mut out: Vec<u32> = Vec::new();
    for i in 0..scan.len()
        invariant
            out@ == admin_scan(cells@, entries@, scan@.take(i as int)),
    {
        assert(scan@.take(i + 1).drop_last() =~= scan@.take(i as int));
        let mut ids = entries_at(entries, lookup_admin_cell(cells, scan[i]));
        out.append(&mut ids);
    }
    assert(scan@.take(scan@.len() as int) =~= scan@);
    out
}

// --- Streets, addresses and interpolated numbers ---
/// Whether `count` nodes from `offset` on lie in a file of nodes and make at
/// least one segment.
pub open spec fn has_segments(nodes: Seq<u8>, offset: u32, count: u8) -> bool {
    offset + count <= record_count(nodes, 8) && count >= 2
}

pub(crate) fn check_segments(nodes: &[u8], offset: u32, count: u8) -> (r: bool)
    ensures
        r == has_segments(nodes@, offset, count),
{
    let n: usize = nodes.len() / NODE_COORD_SIZE;
    count >= 2 && offset as u64 + count as u64 <= n as u64
}

/// The streets that a scan over `ids` considers, with what it remembers: each
/// the first time it occurs, as long as the memory lasts.
pub struct StreetScan {
    pub seen: Seq<u32>,
    pub out: Seq<u32>,
}

pub open spec fn street_scan(ways: Seq<u8>, nodes: Seq<u8>, ids: Seq<u32>) -> StreetScan
    decreases ids.len(),
{
    if ids.len() == 0 {
        StreetScan { seen: Seq::empty(), out: Seq::empty() }
    } else {
        let before = street_scan(ways, nodes, ids.drop_last());
        let id = ids.last();
        if before.seen.contains(id) {
            before
        } else {
            StreetScan {
                seen: if before.seen.len() < SEEN_STREETS_CAP {
                    before.seen.push(id)
                } else {
                    before.seen
                },
                out: if usable_way(ways, nodes, id) {
                    before.out.push(id)
                } else {
                    before.out
                },
            }
        }
    }
}

/// Whether a street exists and has segments.
pub open spec fn usable_way(ways: Seq<u8>, nodes: Seq<u8>, id: u32) -> bool {
    way_header_of(ways, id as int) matches Some(w) && has_segments(nodes, w.node_offset, w.node_count)
}

/// Whether an interpolation way exists, has both its numbers, and has segments.
pub open spec fn usable_interp(ways: Seq<u8>, nodes: Seq<u8>, id: u32) -> bool {
    &&& interp_way_of(ways, id as int) matches Some(w)
    &&& w.start_number != 0
    &&& w.end_number != 0
    &&& has_segments(nodes, w.node_offset, w.node_count)
}

/// The usable interpolation ways among `ids`.
pub open spec fn interp_scan(ways: Seq<u8>, nodes: Seq<u8>, ids: Seq<u32>) -> Seq<u32>
    decreases ids.len(),
{
    if ids.len() == 0 {
        Seq::empty()
    } else {
        let before = interp_scan(ways, nodes, ids.drop_last());
        if usable_interp(ways, nodes, ids.last()) {
            before.push(ids.last())
        } else {
            before
        }
    }
}

/// Whether `id` is among the streets seen.
pub(crate) fn seen_streets_contains(seen: &[u32], id: u32) -> (r: bool)
    ensures
        r == seen@.contains(id),
{
    for i in 0..seen.len()
        invariant
            forall|j: int| 0 <= j < i ==> seen@[j] != id,
    {
        if seen[i] == id {
            return true;
        }
    }
    false
}

/// The house number at a position along an interpolation way. `steps` is the
/// position in steps from the first number, rounded, and `nearest_number` is
/// the position as a number, rounded. Where only odd or only even numbers
/// occur, a step is two numbers.
pub open spec fn interpolated(w: InterpWay, steps: u32, nearest_number: u32) -> int {
    if w.interpolation == 1 || w.interpolation == 2 {
        w.start_number + 2 * steps
    } else {
        nearest_number as int
    }
}

/// The house number at a position along an interpolation way.
pub fn interpolated_number(w: &InterpWay, steps: u32, nearest_number: u32) -> (r: u32)
    requires
        interpolated(*w, steps, nearest_number) <= u32::MAX,
    ensures
        r == interpolated(*w, steps, nearest_number),
{
    if w.interpolation == 1 || w.interpolation == 2 {
        w.start_number + 2 * steps
    } else {
        nearest_number
    }
}

/// Along a way with odd or even numbers only, every number has the parity of
/// the first.
pub proof fn law_interpolation_keeps_parity(w: InterpWay, steps: u32, nearest_number: u32)
    requires
        w.interpolation == 1 || w.interpolation == 2,
    ensures
        interpolated(w, steps, nearest_number) % 2 == w.start_number as int % 2,
{
}

/// The largest finite binary64 number: no distance beyond it counts.
pub const MAX_DISTANCE: u64 = 0x7fef_ffff_ffff_ffff;

} // verus!
