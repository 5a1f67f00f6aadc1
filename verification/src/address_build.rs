//! Builds the files of an address index from the addresses of a country.
use vstd::prelude::*;
use crate::address_points::{point_at, AddressPoint, AddressPointIndex, AddressText};
use crate::bytes::{
    le_digits, lemma_le_digits_len, lemma_le_round_trip, lemma_pow256, push_u32, record_count,
};
use crate::cell_index::{
    build_cell_index, cell_table, entries_fit, entry_bytes, ids_in_cell, law_index_gives_back,
    ordered, MAX_CELL_IDS,
};
use crate::name_files::no_nul;
use crate::sorting::{keyed, pair_lt, sort_positions};
use crate::string_pool::{
    law_growth_keeps_strings, law_stored_reads_back, lemma_with_step, stored_at, str_views, total,
    with_texts, StringPool,
};

verus! {

broadcast use vstd::seq::group_seq_axioms;

/// An address to be indexed. The coordinates are bit patterns (binary32).
pub struct AddressRow<'a> {
    pub lat: u32,
    pub lng: u32,
    /// The cell that the address lies in.
    pub cell: u64,
    pub housenumber: &'a str,
    pub street: &'a str,
    pub locality: &'a str,
    pub postcode: &'a str,
}

impl<'a> View for AddressRow<'a> {
    type V = AddressText;

    open spec fn view(&self) -> AddressText {
        AddressText {
            lat: self.lat,
            lng: self.lng,
            housenumber: self.housenumber@,
            street: self.street@,
            locality: self.locality@,
            postcode: self.postcode@,
            unit: Seq::empty(),
        }
    }
}

/// The bytes of a point record.
pub open spec fn point_bytes(p: AddressPoint) -> Seq<u8> {
    le_digits(p.lat as nat, 4) + le_digits(p.lng as nat, 4) + le_digits(p.housenumber_id as nat, 4)
        + le_digits(p.street_id as nat, 4) + le_digits(p.locality_id as nat, 4) + le_digits(
        p.postcode_id as nat,
        4,
    ) + le_digits(p.unit_id as nat, 4)
}

/// The bytes of several point records, one behind the other.
pub open spec fn all_point_bytes(ps: Seq<AddressPoint>) -> Seq<u8>
    decreases ps.len(),
{
    if ps.len() == 0 {
        Seq::empty()
    } else {
        all_point_bytes(ps.drop_last()) + point_bytes(ps.last())
    }
}

proof fn lemma_point_len(p: AddressPoint)
    ensures
        point_bytes(p).len() == 28,
{
    lemma_le_digits_len(p.lat as nat, 4);
    lemma_le_digits_len(p.lng as nat, 4);
    lemma_le_digits_len(p.housenumber_id as nat, 4);
    lemma_le_digits_len(p.street_id as nat, 4);
    lemma_le_digits_len(p.locality_id as nat, 4);
    lemma_le_digits_len(p.postcode_id as nat, 4);
    lemma_le_digits_len(p.unit_id as nat, 4);
}

proof fn lemma_points_len(ps: Seq<AddressPoint>)
    ensures
        all_point_bytes(ps).len() == 28 * ps.len(),
    decreases ps.len(),
{
    if ps.len() > 0 {
        lemma_points_len(ps.drop_last());
        lemma_point_len(ps.last());
    }
}

proof fn lemma_point_at(before: Seq<u8>, p: AddressPoint)
    ensures
        point_at(before + point_bytes(p), before.len() as int) == p,
{
    let all = before + point_bytes(p);
    let b = before.len() as int;
    lemma_point_len(p);
    lemma_pow256();
    lemma_le_round_trip(p.lat as nat, 4);
    lemma_le_round_trip(p.lng as nat, 4);
    lemma_le_round_trip(p.housenumber_id as nat, 4);
    lemma_le_round_trip(p.street_id as nat, 4);
    lemma_le_round_trip(p.locality_id as nat, 4);
    lemma_le_round_trip(p.postcode_id as nat, 4);
    lemma_le_round_trip(p.unit_id as nat, 4);
    assert(all.subrange(b, b + 4) =~= le_digits(p.lat as nat, 4));
    assert(all.subrange(b + 4, b + 8) =~= le_digits(p.lng as nat, 4));
    assert(all.subrange(b + 8, b + 12) =~= le_digits(p.housenumber_id as nat, 4));
    assert(all.subrange(b + 12, b + 16) =~= le_digits(p.street_id as nat, 4));
    assert(all.subrange(b + 16, b + 20) =~= le_digits(p.locality_id as nat, 4));
    assert(all.subrange(b + 20, b + 24) =~= le_digits(p.postcode_id as nat, 4));
    assert(all.subrange(b + 24, b + 28) =~= le_digits(p.unit_id as nat, 4));
}

/// Point records read back as they were written.
pub proof fn law_points_read_back(ps: Seq<AddressPoint>, k: int)
    requires
        0 <= k < ps.len(),
    ensures
        record_count(all_point_bytes(ps), 28) == ps.len(),
        point_at(all_point_bytes(ps), k * 28) == ps[k],
    decreases ps.len(),
{
    lemma_points_len(ps);
    let front = ps.drop_last();
    lemma_points_len(front);
    lemma_point_len(ps.last());
    let b = all_point_bytes(ps);
    if k == ps.len() - 1 {
        lemma_point_at(all_point_bytes(front), ps.last());
    } else {
        law_points_read_back(front, k);
        let f = all_point_bytes(front);
        let o = k * 28;
        assert(b.subrange(o, o + 4) =~= f.subrange(o, o + 4));
        assert(b.subrange(o + 4, o + 8) =~= f.subrange(o + 4, o + 8));
        assert(b.subrange(o + 8, o + 12) =~= f.subrange(o + 8, o + 12));
        assert(b.subrange(o + 12, o + 16) =~= f.subrange(o + 12, o + 16));
        assert(b.subrange(o + 16, o + 20) =~= f.subrange(o + 16, o + 20));
        assert(b.subrange(o + 20, o + 24) =~= f.subrange(o + 20, o + 24));
        assert(b.subrange(o + 24, o + 28) =~= f.subrange(o + 24, o + 28));
    }
}

fn push_point(out: &mut Vec<u8>, p: &AddressPoint)
    ensures
        final(out)@ == old(out)@ + point_bytes(*p),
{
    push_u32(out, p.lat);
    push_u32(out, p.lng);
    push_u32(out, p.housenumber_id);
    push_u32(out, p.street_id);
    push_u32(out, p.locality_id);
    push_u32(out, p.postcode_id);
    push_u32(out, p.unit_id);
    assert(out@ =~= old(out)@ + point_bytes(*p));
}

/// Whether a point stands for an address.
pub open spec fn point_stands_for(p: AddressPoint, a: AddressText, pool: Seq<u8>) -> bool {
    &&& p.lat == a.lat
    &&& p.lng == a.lng
    &&& stored_at(pool, a.housenumber, p.housenumber_id as int)
    &&& stored_at(pool, a.street, p.street_id as int)
    &&& stored_at(pool, a.locality, p.locality_id as int)
    &&& stored_at(pool, a.postcode, p.postcode_id as int)
    &&& p.unit_id == 0
    &&& a.unit.len() == 0
}

/// The strings of an address.
pub open spec fn row_texts(a: AddressText) -> Seq<Seq<char>> {
    seq![a.housenumber, a.street, a.locality, a.postcode]
}

/// The contents of the files of an address index.
pub struct AddressFiles {
    pub points: Vec<u8>,
    pub cells: Vec<u8>,
    pub entries: Vec<u8>,
    pub strings: Vec<u8>,
    /// How many cells have addresses.
    pub cell_count: u64,
}

/// An address index under construction.
pub struct AddressBuilder {
    pub pool: StringPool,
    pub points: Vec<AddressPoint>,
    pub cells: Vec<u64>,
    pub rows: Ghost<Seq<AddressText>>,
}

/// `items` in the order of some positions.
pub open spec fn arranged<T>(items: Seq<T>, order: Seq<u64>) -> Seq<T> {
    Seq::new(order.len(), |i: int| items[order[i] as int])
}

/// Interns a string. What the pool held stays where it was.
fn intern_kept(pool: &mut StringPool, s: &str) -> (r: u32)
    requires
        old(pool).wf(),
        old(pool).bytes().len() <= u32::MAX,
    ensures
        final(pool).wf(),
        final(pool).texts() == with_texts(old(pool).texts(), seq![s@]),
        old(pool).bytes().len() <= final(pool).bytes().len(),
        stored_at(final(pool).bytes(), s@, r as int),
        forall|t: Seq<char>, off: int| #[trigger]
            stored_at(old(pool).bytes(), t, off) ==> stored_at(final(pool).bytes(), t, off),
{
    let ghost before = pool.bytes();
    let r: u32 = pool.intern(s);
    proof {
        assert(pool.offsets().contains_key(s@));
        assert(stored_at(pool.bytes(), s@, pool.offsets()[s@] as int));
        let more = pool.bytes().skip(before.len() as int);
        assert(pool.bytes() =~= before + more);
        assert forall|t: Seq<char>, off: int| #[trigger] stored_at(before, t, off) implies stored_at(
            pool.bytes(),
            t,
            off,
        ) by {
            law_growth_keeps_strings(before, more, t, off);
        }
    }
    r
}

impl AddressBuilder {
    pub open spec fn wf(&self) -> bool {
        &&& self.pool.wf()
        &&& 0 < self.pool.bytes().len() <= u32::MAX
        &&& self.points@.len() == self.rows@.len()
        &&& self.cells@.len() == self.rows@.len()
        &&& self.rows@.len() <= u32::MAX
        &&& forall|i: int|
            0 <= i < self.points@.len() ==> point_stands_for(
                #[trigger] self.points@[i],
                self.rows@[i],
                self.pool.bytes(),
            )
    }

    pub fn new() -> (r: AddressBuilder)
        ensures
            r.wf(),
            r.rows@.len() == 0,
            r.pool.texts() == seq![Seq::<char>::empty()],
    {
        AddressBuilder {
            pool: StringPool::new(),
            points: Vec::new(),
            cells: Vec::new(),
            rows: Ghost(Seq::empty()),
        }
    }

    fn intern_row(&mut self, row: &AddressRow<'_>) -> (r: (u32, u32, u32, u32))
        requires
            old(self).wf(),
            total(with_texts(old(self).pool.texts(), row_texts(row@))) <= u32::MAX,
        ensures
            final(self).wf(),
            final(self).points == old(self).points,
            final(self).cells == old(self).cells,
            final(self).rows == old(self).rows,
            final(self).pool.texts() == with_texts(old(self).pool.texts(), row_texts(row@)),
            stored_at(final(self).pool.bytes(), row.housenumber@, r.0 as int),
            stored_at(final(self).pool.bytes(), row.street@, r.1 as int),
            stored_at(final(self).pool.bytes(), row.locality@, r.2 as int),
            stored_at(final(self).pool.bytes(), row.postcode@, r.3 as int),
    {
        proof {
            let held = self.pool.texts();
            let more = row_texts(row@);
            lemma_with_step(held, more, 0);
            lemma_with_step(held, more, 1);
            lemma_with_step(held, more, 2);
            lemma_with_step(held, more, 3);
            assert(more.take(0) =~= Seq::<Seq<char>>::empty());
            assert(more.take(4) =~= more);
        }
        let a: u32 = intern_kept(&mut self.pool, row.housenumber);
        let b: u32 = intern_kept(&mut self.pool, row.street);
        let c: u32 = intern_kept(&mut self.pool, row.locality);
        let d: u32 = intern_kept(&mut self.pool, row.postcode);
        (a, b, c, d)
    }

    /// Takes an address. It fails, and nothing changes, where offsets or ids
    /// would not fit in 32 bits.
    pub fn push(&mut self, row: &AddressRow<'_>) -> (r: bool)
        requires
            old(self).wf(),
        ensures
            final(self).wf(),
            r == (total(with_texts(old(self).pool.texts(), row_texts(row@))) <= u32::MAX && old(
                self,
            ).rows@.len() < u32::MAX),
            r ==> {
                &&& final(self).rows@ == old(self).rows@.push(row@)
                &&& final(self).cells@ == old(self).cells@.push(row.cell)
                &&& final(self).pool.texts() == with_texts(
                    old(self).pool.texts(),
                    row_texts(row@),
                )
            },
            !r ==> *final(self) == *old(self),
    {
        let texts = [row.housenumber, row.street, row.locality, row.postcode];
        assert(str_views(texts@) =~= row_texts(row@));
        if self.pool.size_with(&texts) > u32::MAX as u128 || self.points.len() as u64
            >= u32::MAX as u64 {
            return false;
        }
        let ghost before = *self;
        let (housenumber_id, street_id, locality_id, postcode_id) = self.intern_row(row);
        self.points.push(
            AddressPoint {
                lat: row.lat,
                lng: row.lng,
                housenumber_id,
                street_id,
                locality_id,
                postcode_id,
                unit_id: 0,
            },
        );
        self.cells.push(row.cell);
        self.rows = Ghost(self.rows@.push(row@));
        proof {
            assert forall|i: int| 0 <= i < self.points@.len() implies point_stands_for(
                #[trigger] self.points@[i],
                self.rows@[i],
                self.pool.bytes(),
            ) by {
                if i < before.points@.len() {
                    assert(self.points@[i] == before.points@[i]);
                    assert(self.rows@[i] == before.rows@[i]);
                    assert(point_stands_for(before.points@[i], before.rows@[i], self.pool.bytes()));
                }
            }
        }
        true
    }

    /// Whether files hold the addresses in the order of `order`.
    pub open spec fn is_written(&self, files: AddressFiles, order: Seq<u64>) -> bool {
        let cells = arranged(self.cells@, order);
        &&& keyed(self.cells@, order)
        &&& files.points@ == all_point_bytes(arranged(self.points@, order))
        &&& files.cells@ == cell_table(cells, 0, 0)
        &&& files.entries@ == entry_bytes(cells, 0)
        &&& files.entries@.len() <= u32::MAX
        &&& files.strings@ == self.pool.bytes()
        &&& files.cell_count * 12 == files.cells@.len()
    }

    /// Whether files hold the addresses.
    pub open spec fn holds(&self, files: AddressFiles) -> bool {
        exists|order: Seq<u64>| #[trigger] self.is_written(files, order)
    }

    /// Writes the files: the addresses in the order of their cells, those of
    /// one cell in the order in which they came. It fails where the lists of
    /// addresses do not fit in 32-bit offsets.
    pub fn files(&self) -> (r: Option<AddressFiles>)
        requires
            self.wf(),
        ensures
            match r {
                Some(files) => self.holds(files),
                None => exists|order: Seq<u64>| #[trigger]
                    keyed(self.cells@, order) && entry_bytes(
                        arranged(self.cells@, order),
                        0,
                    ).len() > u32::MAX,
            },
    {
        let order = sort_positions(self.cells.as_slice());
        let mut cells: Vec<u64> = Vec::new();
        let mut points: Vec<u8> = Vec::new();
        let ghost ps = arranged(self.points@, order@);
        for i in 0..order.len()
            invariant
                self.wf(),
                keyed(self.cells@, order@),
                ps == arranged(self.points@, order@),
                cells@ == arranged(self.cells@, order@).take(i as int),
                points@ == all_point_bytes(ps.take(i as int)),
        {
            let at: u64 = order[i];
            assert(at < self.cells.len());
            let at: usize = at as usize;
            assert(ps.take(i + 1).drop_last() =~= ps.take(i as int));
            cells.push(self.cells[at]);
            push_point(&mut points, &self.points[at]);
            assert(cells@ =~= arranged(self.cells@, order@).take(i + 1));
        }
        assert(ps.take(order@.len() as int) =~= ps);
        assert(arranged(self.cells@, order@).take(order@.len() as int) =~= arranged(
            self.cells@,
            order@,
        ));
        if !entries_fit(cells.as_slice()) {
            return None;
        }
        let table = build_cell_index(cells.as_slice());
        let strings = vstd::slice::slice_to_vec(self.pool.as_bytes());
        let files = AddressFiles {
            points,
            cells: table.cells,
            entries: table.entries,
            strings,
            cell_count: table.count,
        };
        assert(self.is_written(files, order@));
        Some(files)
    }
}

proof fn lemma_arranged_ordered(cells: Seq<u64>, order: Seq<u64>)
    requires
        keyed(cells, order),
    ensures
        ordered(arranged(cells, order)),
{
    let s = arranged(cells, order);
    assert forall|i: int, j: int| 0 <= i <= j < s.len() implies s[i] <= s[j] by {
        if i < j {
            assert(pair_lt((cells[order[i] as int], order[i]), (cells[order[j] as int], order[j])));
        }
    }
}

proof fn lemma_run_of(cells: Seq<u64>, at: int) -> (r: (int, int))
    requires
        ordered(cells),
        0 <= at < cells.len(),
    ensures
        0 <= r.0 <= at < r.1 <= cells.len(),
        forall|j: int| 0 <= j < cells.len() ==> (cells[j] == cells[at] <==> r.0 <= j < r.1),
{
    let from = lemma_run_start(cells, at, at);
    let to = lemma_run_stop(cells, at, at + 1);
    assert forall|j: int| 0 <= j < cells.len() implies (cells[j] == cells[at] <==> from <= j < to) by {
        if j < from {
            assert(cells[j] <= cells[from - 1]);
            assert(cells[from - 1] <= cells[at]);
        }
        if j >= to {
            assert(cells[to] <= cells[j]);
            assert(cells[at] <= cells[to]);
        }
    }
    (from, to)
}

proof fn lemma_run_start(cells: Seq<u64>, at: int, i: int) -> (r: int)
    requires
        0 <= i <= at < cells.len(),
        forall|j: int| i <= j <= at ==> cells[j] == cells[at],
    ensures
        0 <= r <= i,
        forall|j: int| r <= j <= at ==> cells[j] == cells[at],
        r > 0 ==> cells[r - 1] != cells[at],
    decreases i,
{
    if i > 0 && cells[i - 1] == cells[at] {
        lemma_run_start(cells, at, i - 1)
    } else {
        i
    }
}

proof fn lemma_run_stop(cells: Seq<u64>, at: int, i: int) -> (r: int)
    requires
        0 <= at < i <= cells.len(),
        forall|j: int| at <= j < i ==> cells[j] == cells[at],
    ensures
        i <= r <= cells.len(),
        forall|j: int| at <= j < r ==> cells[j] == cells[at],
        r < cells.len() ==> cells[r] != cells[at],
    decreases cells.len() - i,
{
    if i < cells.len() && cells[i] == cells[at] {
        lemma_run_stop(cells, at, i + 1)
    } else {
        i
    }
}

/// Every address that was taken is in the index, under some id, as it was
/// given. Its cell lists the id, unless 65535 addresses of the same cell come
/// before it. (NUL characters end a text in the files.)
pub proof fn law_built_addresses_read_back(
    builder: AddressBuilder,
    files: AddressFiles,
    order: Seq<u64>,
    index: AddressPointIndex<'_>,
    i: int,
) -> (id: u32)
    requires
        builder.wf(),
        builder.is_written(files, order),
        index.points@ == files.points@,
        index.cells@ == files.cells@,
        index.entries@ == files.entries@,
        index.strings@ == files.strings@,
        0 <= i < builder.rows@.len(),
        no_nul(builder.rows@[i].housenumber),
        no_nul(builder.rows@[i].street),
        no_nul(builder.rows@[i].locality),
        no_nul(builder.rows@[i].postcode),
    ensures
        id < index.point_count(),
        index.address(index.point(id as int)) == builder.rows@[i],
        ids_in_cell(index.cells@, index.entries@, builder.cells@[i]).contains(id) || (exists|
            first: int,
        |
            0 <= first && first + MAX_CELL_IDS <= id && arranged(builder.cells@, order)[first]
                == builder.cells@[i]),
{
    let cells = arranged(builder.cells@, order);
    let ps = arranged(builder.points@, order);
    assert(order.contains(i as u64));
    let k = choose|k: int| 0 <= k < order.len() && order[k] == i as u64;
    law_points_read_back(ps, k);
    let p = builder.points@[i];
    let a = builder.rows@[i];
    let pool = builder.pool.bytes();
    assert(ps[k] == p);
    assert(point_stands_for(p, a, pool));
    law_stored_reads_back(pool, a.housenumber, p.housenumber_id as int);
    law_stored_reads_back(pool, a.street, p.street_id as int);
    law_stored_reads_back(pool, a.locality, p.locality_id as int);
    law_stored_reads_back(pool, a.postcode, p.postcode_id as int);
    assert(a.unit =~= Seq::<char>::empty());
    lemma_arranged_ordered(builder.cells@, order);
    let (from, to) = lemma_run_of(cells, k);
    law_index_gives_back(cells, cells[k], from, to);
    let ids = ids_in_cell(index.cells@, index.entries@, builder.cells@[i]);
    assert(cells[k] == builder.cells@[i]);
    if k - from < MAX_CELL_IDS {
        assert(ids[k - from] == k as u32);
    } else {
        assert(cells[from] == builder.cells@[i]);
    }
    k as u32
}

} // verus!
