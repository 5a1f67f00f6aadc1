//! S2 cells: the neighbourhood of a cell that every spatial scan visits.
use vstd::prelude::*;

verus! {

pub const DEFAULT_STREET_CELL_LEVEL: u64 = 17;

pub const DEFAULT_ADMIN_CELL_LEVEL: u64 = 10;

/// The deepest level of the S2 hierarchy.
pub const MAX_LEVEL: u64 = 30;

pub open spec fn pow4(n: nat) -> nat
    decreases n,
{
    if n == 0 {
        1
    } else {
        4 * pow4((n - 1) as nat)
    }
}

/// Whether `cell` is the id of an S2 cell of the given level: one of the six
/// faces in the top three bits, and the lowest set bit where the level puts it.
pub open spec fn is_cell(cell: u64, level: u64) -> bool {
    &&& level <= MAX_LEVEL
    &&& cell < 0xc000_0000_0000_0000
    &&& cell as nat % (2 * pow4((MAX_LEVEL - level) as nat)) == pow4((MAX_LEVEL - level) as nat)
}

proof fn lemma_pow4(n: nat)
    requires
        n <= 30,
    ensures
        0 < pow4(n) <= 0x1000_0000_0000_0000,
    decreases n,
{
    assert(pow4(30) == 0x1000_0000_0000_0000) by {
        reveal_with_fuel(pow4, 31);
    }
    lemma_pow4_monotone(n, 30);
}

proof fn lemma_pow4_monotone(a: nat, b: nat)
    requires
        a <= b,
    ensures
        0 < pow4(a) <= pow4(b),
    decreases b,
{
    if b > 0 {
        if a < b {
            lemma_pow4_monotone(a, (b - 1) as nat);
        } else {
            lemma_pow4_monotone((b - 1) as nat, (b - 1) as nat);
        }
    }
}

/// Tests whether `cell` is the id of an S2 cell of the given level.
pub fn is_cell_at_level(cell: u64, level: u64) -> (r: bool)
    ensures
        r == is_cell(cell, level),
{
    if level > MAX_LEVEL || cell >= 0xc000_0000_0000_0000 {
        return false;
    }
    let mut bit: u64 = 1;
    let mut k: u64 = 0;
    while k < MAX_LEVEL - level
        invariant
            level <= MAX_LEVEL,
            k <= MAX_LEVEL - level,
            bit == pow4(k as nat),
        decreases MAX_LEVEL - level - k,
    {
        proof {
            lemma_pow4((k + 1) as nat);
        }
        bit = 4 * bit;
        k += 1;
    }
    proof {
        lemma_pow4(k as nat);
    }
    cell % (2 * bit) == bit
}

/// The ids that `CellID::all_neighbors` lists.
pub uninterp spec fn s2_neighbors(cell: u64, level: u64) -> Seq<u64>;

/// `s2::cellid::CellID::all_neighbors`, on the raw ids: the cells of the given
/// level that share an edge or a corner with `cell`. The list is a function of
/// the two numbers; its order and its repetitions next to a corner of the cube
/// are those of the crate.
#[verifier::external_body]
fn all_neighbors(cell: u64, level: u64) -> (r: Vec<u64>)
    requires
        is_cell(cell, level),
    ensures
        r@ == s2_neighbors(cell, level),
{
    s2::cellid::CellID(cell).all_neighbors(level).into_iter().map(|c| c.0).collect()
}

/// The neighbours of a cell at its own level.
pub fn cell_neighbors_at_level(cell_id: u64, level: u64) -> (r: Vec<u64>)
    requires
        is_cell(cell_id, level),
    ensures
        r@ == s2_neighbors(cell_id, level),
{
    all_neighbors(cell_id, level)
}

/// The cells that a scan around `cell_id` visits: the cell itself, then its
/// neighbours.
pub fn neighbourhood(cell_id: u64, level: u64) -> (r: Vec<u64>)
    requires
        is_cell(cell_id, level),
    ensures
        r@ == seq![cell_id] + s2_neighbors(cell_id, level),
{
    let mut out: Vec<u64> = Vec::new();
    out.push(cell_id);
    let mut rest = cell_neighbors_at_level(cell_id, level);
    out.append(&mut rest);
    assert(out@ =~= seq![cell_id] + s2_neighbors(cell_id, level));
    out
}

/// The level of a cell stands in its lowest set bit: the first for a leaf, two
/// bits further up for each level above. Streets and areas are indexed by cells of
/// two levels.
pub proof fn law_lowest_bit_tells_the_level(cell: u64)
    ensures
        is_cell(cell, 30) <==> cell < 0xc000_0000_0000_0000 && cell % 2 == 1,
        is_cell(cell, 29) <==> cell < 0xc000_0000_0000_0000 && cell % 8 == 4,
        is_cell(cell, DEFAULT_STREET_CELL_LEVEL) <==> cell < 0xc000_0000_0000_0000 && cell
            % 0x800_0000 == 0x400_0000,
        is_cell(cell, DEFAULT_ADMIN_CELL_LEVEL) <==> cell < 0xc000_0000_0000_0000 && cell
            % 0x200_0000_0000 == 0x100_0000_0000,
        !is_cell(cell, 31),
{
    reveal_with_fuel(pow4, 21);
    assert(pow4(0) == 1);
    assert(pow4(1) == 4);
    assert(pow4(13) == 0x400_0000);
    assert(pow4(20) == 0x100_0000_0000);
}

} // verus!
