//! What the files of the datasets and the lists of countries promise.
use vstd::prelude::*;
use crate::abbreviations::name_key;
use crate::address_laws::are_distances;
use crate::address_points::{
    contains_ignoring_case, index_fault, occurs_at, presence_of, AddressPointIndex, AddressQuery,
    IndexFault,
};
use crate::bytes::{
    ascending, bisect, lemma_bisect_ascending, lemma_record_bounds, record_count, table_keys, u16_at,
    u32_at, u64_at,
};
use crate::country_list::{codes_among, codes_in, is_skip_list, list_separator, CountryFilter};
use crate::fetch::{published_md5, stated_length};
use crate::fold::{lemma_nonempty_concat, lemma_split_concat, lowered};
use crate::fst_map::bytes_lt;
use crate::gnaf_build::{abbr_of, distinct_states, is_file_of, PsvTable};
use crate::ieee::{law_patterns_are_in_order, lemma_nearest_bounds, nearest, Candidate};
use crate::index::Index;
use crate::openaddresses::{code_of, found_shard, nearest_shard, Shard};
use crate::point_schema::schema_name;
use crate::name_build::of_country;
use crate::name_index::CandText;
use crate::postal::{gives_postcodes, PostalBook};
use crate::reverse::{admin_offset, admin_scan, listed, records_fault};
use crate::sources::saved_name;
use crate::text::{
    decimal, law_written_number_reads_back,
    eq_ignore_case, has_infix, has_prefix, has_suffix, is_white_space, lower_char, lower_seq, nonempty,
    space_char, split_where, words,
};

verus! {

broadcast use vstd::seq::group_seq_axioms;

// --- Datasets of several countries ---
proof fn lemma_found_bounds(index: AddressPointIndex<'_>, q: AddressQuery, near: Seq<Candidate>)
    ensures
        index.found_at(q, near) matches Some(b) ==> 0 <= b < near.len(),
{
    lemma_nearest_bounds(near, index.unit_marks(near, q));
    lemma_nearest_bounds(near, index.building_marks(near, q));
}

/// A search over all countries finds the address that is nearest of those that
/// the countries find, and nothing only where none of them finds anything.
pub proof fn law_nearest_find_of_all_countries(
    shards: Seq<Shard<'_>>,
    near: Seq<Vec<Candidate>>,
    q: AddressQuery,
    n: int,
)
    requires
        0 <= n,
        forall|i: int| 0 <= i < n ==> are_distances((#[trigger] near[i])@),
    ensures
        match found_shard(shards, near, q, n) {
            Some(s) => {
                &&& 0 <= s < n
                &&& shards[s].index.found_at(q, near[s]@) is Some
                &&& forall|i: int|
                    0 <= i < n && (#[trigger] shards[i].index.found_at(q, near[i]@)) is Some
                        ==> near[s]@[shards[s].index.found_at(q, near[s]@)->0].dist
                        <= near[i]@[shards[i].index.found_at(q, near[i]@)->0].dist
            },
            None => forall|i: int|
                0 <= i < n ==> (#[trigger] shards[i].index.found_at(q, near[i]@)) is None,
        },
    decreases n,
{
    if n > 0 {
        law_nearest_find_of_all_countries(shards, near, q, n - 1);
        let last = shards[n - 1].index.found_at(q, near[n - 1]@);
        lemma_found_bounds(shards[n - 1].index, q, near[n - 1]@);
        assert(are_distances(near[n - 1]@));
        if let Some(s) = found_shard(shards, near, q, n - 1) {
            lemma_found_bounds(shards[s].index, q, near[s]@);
            assert(are_distances(near[s]@));
            if let Some(k) = last {
                law_patterns_are_in_order(
                    near[n - 1]@[k].dist,
                    near[s]@[shards[s].index.found_at(q, near[s]@)->0].dist,
                    0x7ff8_0000_0000_0000,
                );
            }
        }
    }
}

/// The nearest address over all countries is nearest of the nearest addresses of
/// the countries; there is none only where no country has one.
pub proof fn law_nearest_of_all_countries(shards: Seq<Shard<'_>>, near: Seq<Vec<Candidate>>, n: int)
    requires
        0 <= n,
        forall|i: int| 0 <= i < n ==> are_distances((#[trigger] near[i])@),
    ensures
        match nearest_shard(shards, near, n) {
            Some(s) => {
                let b = nearest(near[s]@, shards[s].index.known_marks(near[s]@));
                &&& 0 <= s < n
                &&& b is Some
                &&& forall|i: int|
                    0 <= i < n && (#[trigger] nearest(
                        near[i]@,
                        shards[i].index.known_marks(near[i]@),
                    )) is Some ==> near[s]@[b->0].dist <= near[i]@[nearest(
                        near[i]@,
                        shards[i].index.known_marks(near[i]@),
                    )->0].dist
            },
            None => forall|i: int|
                0 <= i < n ==> (#[trigger] nearest(
                    near[i]@,
                    shards[i].index.known_marks(near[i]@),
                )) is None,
        },
    decreases n,
{
    if n > 0 {
        law_nearest_of_all_countries(shards, near, n - 1);
        let last = nearest(near[n - 1]@, shards[n - 1].index.known_marks(near[n - 1]@));
        lemma_nearest_bounds(near[n - 1]@, shards[n - 1].index.known_marks(near[n - 1]@));
        assert(are_distances(near[n - 1]@));
        if let Some(s) = nearest_shard(shards, near, n - 1) {
            let best = nearest(near[s]@, shards[s].index.known_marks(near[s]@));
            lemma_nearest_bounds(near[s]@, shards[s].index.known_marks(near[s]@));
            assert(are_distances(near[s]@));
            if let Some(k) = last {
                law_patterns_are_in_order(
                    near[n - 1]@[k].dist,
                    near[s]@[best->0].dist,
                    0x7ff8_0000_0000_0000,
                );
            }
        }
    }
}

/// An ASCII text contains a hint just where the hint, in any case, is a part of
/// it.
pub proof fn law_hint_is_a_part_of_the_text(text: Seq<char>, hint: Seq<char>)
    requires
        vstd::utf8::is_ascii_chars(text),
        vstd::utf8::is_ascii_chars(hint),
    ensures
        contains_ignoring_case(text, hint) <==> exists|i: int|
            0 <= i <= text.len() - hint.len() && eq_ignore_case(
                #[trigger] text.subrange(i, i + hint.len()),
                hint,
            ),
{
    let h = vstd::utf8::encode_utf8(text);
    let n = vstd::utf8::encode_utf8(hint);
    vstd::utf8::is_ascii_chars_encode_utf8(text);
    vstd::utf8::is_ascii_chars_encode_utf8(hint);
    if contains_ignoring_case(text, hint) {
        let i = choose|i: int| #[trigger] occurs_at(h, n, i);
        let part = text.subrange(i, i + hint.len());
        assert forall|j: int| 0 <= j < hint.len() implies lower_char(#[trigger] part[j]) == lower_char(
            hint[j],
        ) by {
            assert(part[j] == text[i + j]);
            assert(text[i + j] as u8 == h[i + j]);
            assert(hint[j] as u8 == n[j]);
        }
        assert(lower_seq(part) =~= lower_seq(hint));
    }
    if exists|i: int|
        0 <= i <= text.len() - hint.len() && eq_ignore_case(
            #[trigger] text.subrange(i, i + hint.len()),
            hint,
        ) {
        let i = choose|i: int|
            0 <= i <= text.len() - hint.len() && eq_ignore_case(
                #[trigger] text.subrange(i, i + hint.len()),
                hint,
            );
        let part = text.subrange(i, i + hint.len());
        assert forall|j: int| 0 <= j < n.len() implies crate::address_points::lower_byte(
            #[trigger] h[i + j],
        ) == crate::address_points::lower_byte(n[j]) by {
            assert(lower_seq(part)[j] == lower_char(part[j]));
            assert(lower_seq(hint)[j] == lower_char(hint[j]));
            assert(part[j] == text[i + j]);
            assert(text[i + j] as u8 == h[i + j]);
            assert(hint[j] as u8 == n[j]);
        }
        assert(occurs_at(h, n, i));
    }
}

/// The files of an address index form one if the points are whole records of 28
/// bytes and the cells whole records of 12, at least one of each, the entries
/// have room for a count, and the strings begin with the empty one; otherwise the
/// first of these that fails is the fault.
pub proof fn law_index_files_are_whole(
    points: Seq<u8>,
    cells: Seq<u8>,
    entries: Seq<u8>,
    strings: Seq<u8>,
    k: nat,
    m: nat,
)
    requires
        k > 0,
        m > 0,
    ensures
        points.len() == 28 * k && cells.len() == 12 * m && entries.len() >= 2 && strings.len() > 0
            && strings[0] == 0 ==> index_fault(points, cells, entries, strings) is None,
        points.len() == 28 * k && cells.len() == 12 * m && entries.len() >= 2 && (strings.len() == 0
            || strings[0] != 0) ==> index_fault(points, cells, entries, strings) == Some(
            IndexFault::Sentinel,
        ),
        points.len() == 28 * k && cells.len() == 12 * m && entries.len() < 2 ==> index_fault(
            points,
            cells,
            entries,
            strings,
        ) == Some(IndexFault::EntryHeader),
        points.len() == 28 * k && (cells.len() == 0 || 12 * m - 12 < cells.len() < 12 * m)
            ==> index_fault(points, cells, entries, strings) == Some(IndexFault::CellLength),
        points.len() == 0 || 28 * k - 28 < points.len() < 28 * k ==> index_fault(
            points,
            cells,
            entries,
            strings,
        ) == Some(IndexFault::PointLength),
{
}

/// The schema of a points file stands beside it, under its name with another
/// extension.
pub proof fn law_schema_stands_beside_the_points(stem: Seq<char>)
    ensures
        schema_name(stem + ".bin"@) == stem + ".schema.json"@,
{
    reveal_strlit(".bin");
    reveal_strlit("schema.json");
    reveal_strlit(".schema.json");
    let points = stem + ".bin"@;
    assert(points.skip(points.len() - ".bin"@.len()) =~= ".bin"@);
    assert(points.take(points.len() - ".bin"@.len()) =~= stem);
    assert(stem.push('.') + "schema.json"@ =~= stem + ".schema.json"@);
}

/// A file that holds records holds at least one, and only whole ones.
pub proof fn law_record_files_are_whole(path: Seq<char>, len: nat, size: nat, name: Seq<char>)
    ensures
        records_fault(path, len, size, name) is None <==> size > 0 && len >= size && len % size == 0,
{
    if size > 0 && len < size {
        vstd::arithmetic::div_mod::lemma_small_mod(len, size);
    }
}

/// The files of the national dataset are told by the ends of their names. A file
/// of streets is none of localities, though its name ends like one.
pub proof fn law_tables_are_told_by_their_names(state: Seq<char>)
    requires
        forall|i: int| 0 <= i < state.len() ==> #[trigger] state[i] != '_',
    ensures
        is_file_of(state + "_STATE_psv.psv"@, PsvTable::State),
        is_file_of(state + "_STREET_LOCALITY_psv.psv"@, PsvTable::StreetLocality),
        is_file_of(state + "_ADDRESS_DEFAULT_GEOCODE_psv.psv"@, PsvTable::DefaultGeocode),
        is_file_of(state + "_ADDRESS_DETAIL_psv.psv"@, PsvTable::AddressDetail),
        !is_file_of(state + "_STREET_LOCALITY_psv.psv"@, PsvTable::Locality),
        !has_suffix(state, "STREET"@) ==> is_file_of(
            state + "_LOCALITY_psv.psv"@,
            PsvTable::Locality,
        ),
{
    assert forall|t: Seq<char>| #[trigger] has_suffix(state + t, t) by {
        assert((state + t).skip((state + t).len() - t.len()) =~= t);
    }
    reveal_strlit("_STREET_LOCALITY_psv.psv");
    reveal_strlit("_LOCALITY_psv.psv");
    reveal_strlit("STREET_LOCALITY");
    reveal_strlit("STREET");
    let infix = "STREET_LOCALITY"@;
    let streets = state + "_STREET_LOCALITY_psv.psv"@;
    let behind = streets.skip(state.len() as int + 1);
    assert(behind.take(infix.len() as int) =~= infix);
    assert(has_prefix(streets.skip(state.len() as int + 1), infix));
    assert(has_infix(streets, infix));
    let end = "_LOCALITY_psv.psv"@;
    let name = state + end;
    if !has_suffix(state, "STREET"@) && has_infix(name, infix) {
        let i = choose|i: int|
            #![trigger name.skip(i)]
            0 <= i <= name.len() && has_prefix(name.skip(i), infix);
        let n = state.len() as int;
        assert forall|k: int| 0 <= k < infix.len() implies name[i + k] == #[trigger] infix[k] by {
            assert(name.skip(i).take(infix.len() as int)[k] == name[i + k]);
        }
        assert(name[i + 6] == infix[6]);
        assert(i + 6 >= n) by {
            if i + 6 < n {
                assert(state[i + 6] == name[i + 6]);
            }
        }
        assert(name[i + 6] == end[i + 6 - n]);
        assert(name[i] == infix[0]);
        if i + 6 == n {
            assert forall|k: int| 0 <= k < 6 implies state[i + k] == #[trigger] "STREET"@[k] by {
                assert(name[i + k] == infix[k]);
            }
            assert(state.skip(state.len() - 6) =~= "STREET"@);
            assert(false);
        } else {
            assert(end[i + 6 - n] == '_');
            assert(i + 6 - n == 9);
            assert(name[i] == end[3]);
            assert(false);
        }
    }
}

/// Any of its four files makes an index that has to open; a schema alone is one
/// without files; nothing at all is no index.
pub proof fn law_any_file_makes_an_index(a: bool, b: bool, c: bool, d: bool, schema: bool)
    ensures
        ({
            let r = presence_of(seq![a, b, c, d], schema);
            &&& r is Present <==> a || b || c || d
            &&& r is SchemaOnly <==> schema && !a && !b && !c && !d
            &&& r is Absent <==> !schema && !a && !b && !c && !d
        }),
{
    let files = seq![a, b, c, d];
    assert(files[0] == a && files[1] == b && files[2] == c && files[3] == d);
}

/// A state has the abbreviation that stands beside its id, and an id that is not
/// there has none.
pub proof fn law_state_has_its_abbreviation(
    states: Seq<(String, String)>,
    i: int,
    id: Seq<char>,
)
    requires
        distinct_states(states),
        0 <= i < states.len(),
    ensures
        abbr_of(states, states[i].0@) == Some(states[i].1@),
        (forall|j: int| 0 <= j < states.len() ==> (#[trigger] states[j]).0@ != id) ==> abbr_of(
            states,
            id,
        ) is None,
    decreases states.len(),
{
    let front = states.drop_last();
    let n = states.len() - 1;
    if i < n {
        assert forall|a: int, b: int| 0 <= a < b < front.len() implies (#[trigger] front[a]).0@ != (
        #[trigger] front[b]).0@ by {
            assert(front[a] == states[a] && front[b] == states[b]);
        }
        assert(states[i].0@ != states[n].0@);
        assert(front[i] == states[i]);
        law_state_has_its_abbreviation(front, i, id);
    }
    if forall|j: int| 0 <= j < states.len() ==> (#[trigger] states[j]).0@ != id {
        lemma_unknown_state(states, id);
    }
}

proof fn lemma_unknown_state(states: Seq<(String, String)>, id: Seq<char>)
    requires
        forall|j: int| 0 <= j < states.len() ==> (#[trigger] states[j]).0@ != id,
    ensures
        abbr_of(states, id) is None,
    decreases states.len(),
{
    if states.len() > 0 {
        let front = states.drop_last();
        assert forall|j: int| 0 <= j < front.len() implies (#[trigger] front[j]).0@ != id by {
            assert(front[j] == states[j]);
        }
        assert(states[states.len() - 1].0@ != id);
        lemma_unknown_state(front, id);
    }
}

// --- Cells ---
/// A cell of the areas, the places or the points of interest lists what stands
/// at the offset of its record; a cell without a record lists nothing.
pub proof fn law_cell_lists_what_its_record_says(
    cells: Seq<u8>,
    entries: Seq<u8>,
    cell: u64,
    i: int,
)
    requires
        ascending(table_keys(cells, 12)),
        0 <= i,
        12 * i + 12 <= cells.len(),
    ensures
        u64_at(cells, 12 * i) == cell ==> admin_scan(cells, entries, seq![cell]) == listed(
            entries,
            u32_at(cells, 12 * i + 8),
        ),
        (forall|j: int|
            0 <= j && 12 * j + 12 <= cells.len() ==> #[trigger] u64_at(cells, j * 12) != cell)
            ==> admin_scan(cells, entries, seq![cell]).len() == 0,
{
    let keys = table_keys(cells, 12);
    let n = record_count(cells, 12);
    lemma_bisect_ascending(keys, cell, 0, n);
    assert(i < n);
    assert(keys[i] == u64_at(cells, i * 12));
    assert(i * 12 == 12 * i);
    let one = seq![cell];
    assert(one.drop_last() =~= Seq::<u64>::empty());
    assert(one.last() == cell);
    assert(admin_scan(cells, entries, one.drop_last()) =~= Seq::<u32>::empty());
    assert(admin_scan(cells, entries, one) =~= listed(entries, admin_offset(cells, cell)));
    match bisect(keys, cell, 0, n) {
        Some(k) => {
            assert(keys[k] == u64_at(cells, k * 12));
            lemma_record_bounds(cells.len() as int, 12, k);
            if u64_at(cells, 12 * i) == cell && k != i {
                assert(keys[k] == keys[i]);
                assert(false);
            }
        },
        None => {},
    }
}

/// A scan over several cells lists what they list, one behind the other.
pub proof fn law_scan_goes_cell_by_cell(
    cells: Seq<u8>,
    entries: Seq<u8>,
    a: Seq<u64>,
    b: Seq<u64>,
)
    ensures
        admin_scan(cells, entries, a + b) == admin_scan(cells, entries, a) + admin_scan(
            cells,
            entries,
            b,
        ),
        crate::cell_index::ids_in_cells(cells, entries, a + b) == crate::cell_index::ids_in_cells(
            cells,
            entries,
            a,
        ) + crate::cell_index::ids_in_cells(cells, entries, b),
    decreases b.len(),
{
    if b.len() == 0 {
        assert(a + b =~= a);
        assert(admin_scan(cells, entries, b) =~= Seq::<u32>::empty());
        assert(crate::cell_index::ids_in_cells(cells, entries, b) =~= Seq::<u32>::empty());
        assert(admin_scan(cells, entries, a) + Seq::<u32>::empty() =~= admin_scan(
            cells,
            entries,
            a,
        ));
        assert(crate::cell_index::ids_in_cells(cells, entries, a) + Seq::<u32>::empty()
            =~= crate::cell_index::ids_in_cells(cells, entries, a));
    } else {
        law_scan_goes_cell_by_cell(cells, entries, a, b.drop_last());
        assert((a + b).drop_last() =~= a + b.drop_last());
        assert((a + b).last() == b.last());
        assert(admin_scan(cells, entries, a + b) =~= admin_scan(cells, entries, a) + admin_scan(
            cells,
            entries,
            b,
        ));
        assert(crate::cell_index::ids_in_cells(cells, entries, a + b)
            =~= crate::cell_index::ids_in_cells(cells, entries, a)
            + crate::cell_index::ids_in_cells(cells, entries, b));
    }
}

/// Places are listed by the files of the places and points of interest by those
/// of the points of interest; an index without one of the files lists none.
pub proof fn law_layers_have_their_own_files(index: Index<'_>, scan: Seq<u64>)
    ensures
        index.place_points is None || index.place_cells is None || index.place_entries is None
            ==> index.places_in(scan).len() == 0,
        index.poi_points is None || index.poi_cells is None || index.poi_entries is None
            ==> index.pois_in(scan).len() == 0,
        index.place_points is Some && index.place_cells is Some && index.place_entries is Some
            ==> index.places_in(scan) == admin_scan(
            index.place_cells->0@,
            index.place_entries->0@,
            scan,
        ),
        index.poi_points is Some && index.poi_cells is Some && index.poi_entries is Some
            ==> index.pois_in(scan) == admin_scan(index.poi_cells->0@, index.poi_entries->0@, scan),
{
}

// --- Lists of countries ---
proof fn lemma_codes_concat(a: Seq<Seq<char>>, b: Seq<Seq<char>>)
    ensures
        codes_among(a + b) == codes_among(a) + codes_among(b),
    decreases b.len(),
{
    if b.len() == 0 {
        assert(a + b =~= a);
        assert(codes_among(b) =~= Seq::<Seq<char>>::empty());
        assert(codes_among(a) + Seq::<Seq<char>>::empty() =~= codes_among(a));
    } else {
        lemma_codes_concat(a, b.drop_last());
        assert((a + b).drop_last() =~= a + b.drop_last());
        assert((a + b).last() == b.last());
        assert(codes_among(a + b) =~= codes_among(a) + codes_among(b));
    }
}

proof fn lemma_one_piece(s: Seq<char>, p: spec_fn(char) -> bool)
    requires
        forall|i: int| 0 <= i < s.len() ==> !p(#[trigger] s[i]),
    ensures
        split_where(s, p) == seq![s],
    decreases s.len(),
{
    if s.len() == 0 {
        assert(s =~= Seq::<char>::empty());
        assert(split_where(s, p) =~= seq![s]);
    } else {
        let front = s.drop_last();
        assert forall|i: int| 0 <= i < front.len() implies !p(#[trigger] front[i]) by {
            assert(front[i] == s[i]);
        }
        lemma_one_piece(front, p);
        assert(!p(s[s.len() - 1]));
        let done = split_where(front, p);
        assert(front.push(s.last()) =~= s);
        assert(done.drop_last().push(done.last().push(s.last())) =~= seq![s]);
    }
}

/// A comma or white space in a list of countries parts it into two lists.
pub proof fn law_list_is_parted(a: Seq<char>, sep: char, b: Seq<char>)
    requires
        sep == ',' || is_white_space(sep),
    ensures
        codes_in(a.push(sep) + b) == codes_in(a) + codes_in(b),
{
    let p = list_separator();
    assert(p(sep));
    lemma_split_concat(a, sep, b, p);
    lemma_codes_concat(split_where(a, p), split_where(b, p));
}

/// Two letters are a list of one country, in lower case; a word of any other
/// length lists none.
pub proof fn law_word_lists_its_country(w: Seq<char>)
    requires
        forall|i: int| 0 <= i < w.len() ==> #[trigger] w[i] != ',' && !is_white_space(w[i]),
    ensures
        w.len() != 2 ==> codes_in(w).len() == 0,
        w.len() == 2 && 'a' <= w[0] <= 'z' && 'a' <= w[1] <= 'z' ==> codes_in(w) == seq![w],
        w.len() == 2 && 'A' <= w[0] <= 'Z' && 'A' <= w[1] <= 'Z' ==> codes_in(w) == seq![
            seq![(w[0] as u32 + 32) as char, (w[1] as u32 + 32) as char],
        ],
{
    let p = list_separator();
    lemma_one_piece(w, p);
    let one = seq![w];
    assert(one.drop_last() =~= Seq::<Seq<char>>::empty());
    assert(codes_among(one.drop_last()) =~= Seq::<Seq<char>>::empty());
    assert(one.last() == w);
    if w.len() == 2 && 'a' <= w[0] <= 'z' && 'a' <= w[1] <= 'z' {
        assert(lower_seq(w) =~= w);
        assert(codes_in(w) =~= seq![w]);
    }
    if w.len() == 2 && 'A' <= w[0] <= 'Z' && 'A' <= w[1] <= 'Z' {
        let low = seq![(w[0] as u32 + 32) as char, (w[1] as u32 + 32) as char];
        assert(lower_seq(w) =~= low);
        assert(code_of(w) == Some(low));
        assert(codes_in(w) =~= seq![low]);
    }
}

// --- Checksums ---
/// A checksum file begins with the checksum, in any case; the name of the file
/// stands behind white space.
pub proof fn law_checksum_comes_first(sum: Seq<char>, space: char, rest: Seq<char>)
    requires
        sum.len() > 0,
        forall|i: int| 0 <= i < sum.len() ==> !is_white_space(#[trigger] sum[i]),
        is_white_space(space),
    ensures
        published_md5(sum.push(space) + rest) == Some(lowered(sum)),
        published_md5(sum) == Some(lowered(sum)),
        published_md5(seq![space]) is None,
{
    let p = space_char();
    assert forall|i: int| 0 <= i < sum.len() implies !p(#[trigger] sum[i]) by {}
    lemma_one_piece(sum, p);
    assert(p(space));
    lemma_split_concat(sum, space, rest, p);
    lemma_nonempty_concat(seq![sum], split_where(rest, p));
    let one = seq![sum];
    assert(one.drop_last() =~= Seq::<Seq<char>>::empty());
    assert(nonempty(one.drop_last()) =~= Seq::<Seq<char>>::empty());
    assert(one.last() == sum);
    assert(nonempty(one) =~= one);
    assert(words(sum.push(space) + rest) =~= one + nonempty(split_where(rest, p)));
    assert(words(sum.push(space) + rest)[0] == sum);
    assert(words(sum)[0] == sum);
    let none = Seq::<char>::empty();
    lemma_split_concat(none, space, none, p);
    assert(none.push(space) + none =~= seq![space]);
    assert(split_where(none, p) =~= seq![none]);
    let blank = seq![none];
    assert(blank.drop_last() =~= Seq::<Seq<char>>::empty());
    assert(nonempty(blank.drop_last()) =~= Seq::<Seq<char>>::empty());
    assert(nonempty(blank) =~= Seq::<Seq<char>>::empty());
    lemma_nonempty_concat(blank, blank);
    assert(words(seq![space]) =~= Seq::<Seq<char>>::empty());
}

/// Where nothing is said of the countries to pass over, Australia is passed over,
/// unless a filter lists it.
pub proof fn law_australia_is_passed_over(codes: Seq<[u8; 2]>, filter: CountryFilter)
    requires
        is_skip_list(codes, None, filter),
    ensures
        ({
            let asked = filter.codes matches Some(c) && exists|i: int|
                0 <= i < c@.len() && (#[trigger] c@[i])@ == seq![97u8, 117u8];
            &&& asked ==> codes.len() == 0
            &&& !asked ==> codes.len() == 1 && codes[0]@ == seq![97u8, 117u8]
        }),
{
    let au: [u8; 2] = [97, 117];
    assert(crate::openaddresses::lower_code(au)@ =~= seq![97u8, 117u8]);
}

/// The addresses of Australia give no postcodes where its national dataset is
/// there; those of any other country that is built do.
pub proof fn law_national_dataset_gives_the_postcodes(filter: CountryFilter, a: u8, b: u8)
    requires
        97 <= a <= 122,
        97 <= b <= 122,
    ensures
        !gives_postcodes(filter, [97, 117], true),
        filter.codes is None ==> gives_postcodes(filter, [a, b], false),
        filter.codes is None && !(a == 97 && b == 117) ==> gives_postcodes(filter, [a, b], true),
        filter.codes matches Some(c) && (forall|i: int|
            0 <= i < c@.len() ==> (#[trigger] c@[i])@ != seq![a, b]) ==> !gives_postcodes(
            filter,
            [a, b],
            false,
        ),
{
    let cc: [u8; 2] = [a, b];
    let au: [u8; 2] = [97, 117];
    assert(crate::openaddresses::lower_code(cc)@ =~= seq![a, b]);
    assert(au@ =~= seq![97u8, 117u8]);
    assert(cc@[0] == a && cc@[1] == b);
}

/// The index of a country has just the candidates of the country whose names
/// have a key.
pub proof fn law_country_has_its_candidates(
    taken: Seq<(Seq<u8>, CandText)>,
    cc: Seq<u8>,
    c: CandText,
)
    ensures
        of_country(taken, cc).contains(c) <==> taken.contains((cc, c)) && name_key(c.name).len() > 0,
    decreases taken.len(),
{
    let all = of_country(taken, cc);
    if taken.len() == 0 {
        assert(all =~= Seq::<CandText>::empty());
    } else {
        let front = taken.drop_last();
        let done = of_country(front, cc);
        law_country_has_its_candidates(front, cc, c);
        assert(taken =~= front.push(taken.last()));
        assert(taken.contains((cc, c)) <==> front.contains((cc, c)) || taken.last() == (cc, c)) by {
            if front.contains((cc, c)) {
                let k = choose|k: int| 0 <= k < front.len() && front[k] == (cc, c);
                assert(taken[k] == (cc, c));
            }
            if taken.last() == (cc, c) {
                assert(taken[taken.len() - 1] == (cc, c));
            }
            if taken.contains((cc, c)) && taken.last() != (cc, c) {
                let k = choose|k: int| 0 <= k < taken.len() && taken[k] == (cc, c);
                assert(front[k] == (cc, c));
            }
        }
        let d = taken.last().1;
        assert(done.push(d).contains(c) <==> done.contains(c) || d == c) by {
            if done.contains(c) {
                let k = choose|k: int| 0 <= k < done.len() && done[k] == c;
                assert(done.push(d)[k] == c);
            }
            if d == c {
                assert(done.push(d)[done.len() as int] == c);
            }
            if done.push(d).contains(c) && d != c {
                let k = choose|k: int| 0 <= k < done.push(d).len() && done.push(d)[k] == c;
                assert(done[k] == c);
            }
        }
    }
}

/// Postcodes are listed country by country, and within a country by name; each
/// is listed once.
pub proof fn law_postcodes_are_listed_by_country(
    index: PostalBook<'_>,
    order: Seq<u64>,
    i: int,
    j: int,
)
    requires
        index.is_order(order),
        0 <= i < j < order.len(),
        index.codes@[order[i] as int]@.cc.len() == 2,
        index.codes@[order[j] as int]@.cc.len() == 2,
    ensures
        ({
            let a = index.codes@[order[i] as int]@;
            let b = index.codes@[order[j] as int]@;
            &&& order[i] != order[j]
            &&& a.cc[0] <= b.cc[0]
            &&& a.cc[0] == b.cc[0] ==> a.cc[1] <= b.cc[1]
            &&& a.cc == b.cc ==> !bytes_lt(
                vstd::utf8::encode_utf8(b.name),
                vstd::utf8::encode_utf8(a.name),
            )
        }),
{
    let a = index.codes@[order[i] as int]@;
    let b = index.codes@[order[j] as int]@;
    let x = a.cc + vstd::utf8::encode_utf8(a.name);
    let y = b.cc + vstd::utf8::encode_utf8(b.name);
    assert(!bytes_lt(y, x));
    assert(y[0] == b.cc[0] && x[0] == a.cc[0] && y[1] == b.cc[1] && x[1] == a.cc[1]);
    reveal_with_fuel(bytes_lt, 3);
    assert(y.drop_first()[0] == y[1] && x.drop_first()[0] == x[1]);
    assert(y.drop_first().drop_first() =~= vstd::utf8::encode_utf8(b.name));
    assert(x.drop_first().drop_first() =~= vstd::utf8::encode_utf8(a.name));
}

/// A download is saved under the last segment of its URL.
pub proof fn law_download_keeps_its_name(segment: Seq<char>)
    ensures
        segment.len() > 0 ==> saved_name(Some(segment)) == segment,
        saved_name(Some(Seq::empty())) == saved_name(None),
{
}

/// The length that a reply states is the number in its header.
pub proof fn law_stated_length_is_that_written(n: u64)
    ensures
        stated_length(Some(decimal(n as nat))) == Some(n),
        stated_length(None) is None,
{
    law_written_number_reads_back(n as nat, u64::MAX as nat);
}

/// A list of ids is a count and that many ids behind it; a list that does not fit
/// into the file is empty, and so is the one at the offset that stands for none.
pub proof fn law_list_is_a_count_and_ids(entries: Seq<u8>, offset: u32, n: u16, k: int)
    requires
        offset + 2 <= entries.len(),
        u16_at(entries, offset as int) == n,
        offset != 0xffff_ffff,
    ensures
        offset + 2 + 4 * n <= entries.len() ==> {
            &&& listed(entries, offset).len() == n
            &&& 0 <= k < n ==> listed(entries, offset)[k] == u32_at(
                entries,
                offset as int + 2 + 4 * k,
            )
        },
        offset + 2 + 4 * n > entries.len() ==> listed(entries, offset).len() == 0,
        listed(entries, 0xffff_ffff).len() == 0,
{
    assert(n * 4 == 4 * n);
}

} // verus!
