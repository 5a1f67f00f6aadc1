//! What the autocomplete indexes promise of the things that go into them.
use vstd::prelude::*;
use vstd::utf8::encode_utf8;
use crate::abbreviations::name_key;
use crate::admin::AdminResult;
use crate::articles::{is_article, without_article};
use crate::autocomplete::{
    best_cands, cand_lt, entry_of, fst_file_country, hit_lt, hit_of, hit_place, law_keeps_the_best,
    lemma_hit_place, pool_text, sorted_hits, AutocompleteCountry, AutocompleteEntry, HitText,
};
use crate::bytes::u32_at;
use crate::country_list::{codes_among, CountryFilter};
use crate::fold::lowered;
use crate::i18n::lang_code;
use crate::index::Index;
use crate::name_candidates::{
    alias_texts, are_aliases, is_place_candidate, is_poi_candidate, is_street_candidate, Classified,
};
use crate::name_index::{cand_hit, indexed_under, CandText, NameCandidate, NameIndex};
use crate::openaddresses::{code_of, lower_code};
use crate::records::{node_coord_of, PlacePoint, PoiPoint, WayHeader};
use crate::suggest::{at_most, concat_hits, Autocomplete};
use crate::text::{
    first_where, is_ascii_letter, is_white_space, lemma_first_where_is, lex_lt, space_char,
    trim_start_seq,
};

verus! {

broadcast use vstd::seq::group_seq_axioms;

// --- Candidates ---
/// A place with a name in a country that is built becomes a candidate: under its
/// name, with its rank and where it is, in the city that it lies in.
pub proof fn law_place_becomes_a_candidate(
    r: Option<Classified<'_>>,
    index: Index<'_>,
    place_id: u32,
    place: PlacePoint,
    admin: AdminResult<'_>,
    filter: CountryFilter,
)
    requires
        is_place_candidate(r, index, place_id, place, admin, filter),
    ensures
        r is Some <==> index.text(place.name_id).len() > 0 && filter.owner(
            admin.country_code,
        ) is Some,
        r matches Some(c) ==> {
            &&& c.cand.name@ == index.text(place.name_id)
            &&& c.name_id == place.name_id
            &&& c.cand.kind == 1
            &&& c.cand.rank == place.rank
            &&& c.cand.lat == place.lat
            &&& c.cand.lng == place.lng
            &&& admin.city is Some <==> c.cand.suburb is Some
            &&& admin.city matches Some(s) ==> c.cand.suburb->0@ == s@
            &&& are_aliases(index, 1, place_id, c.cand.name@, c.cand@.aliases)
        },
{
}

/// A street with a name and nodes in a country that is built becomes a
/// candidate: under its name, at its middle node, in the city that it lies in.
pub proof fn law_street_becomes_a_candidate(
    r: Option<Classified<'_>>,
    index: Index<'_>,
    way: WayHeader,
    admin: AdminResult<'_>,
    filter: CountryFilter,
)
    requires
        is_street_candidate(r, index, way, admin, filter),
    ensures
        r is Some <==> index.text(way.name_id).len() > 0 && way.node_count > 0 && 8 * (
        way.node_offset + way.node_count) <= index.street_nodes@.len() && filter.owner(
            admin.country_code,
        ) is Some,
        r matches Some(c) ==> {
            let middle = node_coord_of(
                index.street_nodes@,
                way.node_offset + (way.node_count as int) / 2,
            );
            &&& c.cand.name@ == index.text(way.name_id)
            &&& c.name_id == way.name_id
            &&& c.cand.kind == 2
            &&& middle matches Some(m) && m.lat == c.cand.lat && m.lng == c.cand.lng
            &&& admin.city is Some <==> c.cand.suburb is Some
            &&& admin.city matches Some(s) ==> c.cand.suburb->0@ == s@
            &&& c.cand.aliases@.len() == 0
        },
{
    if let Some(c) = r {
        assert(c.cand@.aliases.len() == c.cand.aliases@.len());
    }
}

/// A point of interest with a name and of a rank up to the tenth, in a country
/// that is built, becomes a candidate: under its name, with its rank and where it
/// is, in the place that it names as its parent, or else in the city that it lies
/// in.
pub proof fn law_interest_becomes_a_candidate(
    r: Option<Classified<'_>>,
    index: Index<'_>,
    poi_id: u32,
    poi: PoiPoint,
    admin: AdminResult<'_>,
    filter: CountryFilter,
)
    requires
        is_poi_candidate(r, index, poi_id, poi, admin, filter),
    ensures
        r is Some <==> index.text(poi.name_id).len() > 0 && poi.rank <= 10 && filter.owner(
            admin.country_code,
        ) is Some,
        r matches Some(c) ==> {
            &&& c.cand.name@ == index.text(poi.name_id)
            &&& c.name_id == poi.name_id
            &&& c.cand.kind == 3
            &&& c.cand.rank == poi.rank
            &&& c.cand.lat == poi.lat
            &&& c.cand.lng == poi.lng
            &&& poi.parent_place_id > 0 ==> (c.cand.suburb matches Some(s) && s@ == index.text(
                poi.parent_place_id,
            ))
            &&& poi.parent_place_id == 0 ==> (admin.city is Some <==> c.cand.suburb is Some)
            &&& poi.parent_place_id == 0 && admin.city is Some ==> c.cand.suburb->0@
                == admin.city->0@
            &&& are_aliases(index, 2, poi_id, c.cand.name@, c.cand@.aliases)
        },
{
}

/// The other names of a thing: all that the records of its names point to, but
/// for empty ones and its own name.
pub proof fn law_aliases_are_the_other_names(
    index: Index<'_>,
    alternates: Seq<(u8, u16, u32)>,
    name: Seq<char>,
    alias: Seq<char>,
)
    ensures
        alias_texts(index, alternates, name).contains(alias) <==> alias.len() > 0 && alias != name
            && exists|i: int|
            0 <= i < alternates.len() && index.text((#[trigger] alternates[i]).2) == alias,
    decreases alternates.len(),
{
    let all = alias_texts(index, alternates, name);
    if alternates.len() == 0 {
        assert(!all.contains(alias));
    } else {
        let front = alternates.drop_last();
        let n = alternates.len() - 1;
        let done = alias_texts(index, front, name);
        law_aliases_are_the_other_names(index, front, name, alias);
        let alt = index.text(alternates[n].2);
        if exists|i: int| 0 <= i < front.len() && index.text((#[trigger] front[i]).2) == alias {
            let i = choose|i: int|
                0 <= i < front.len() && index.text((#[trigger] front[i]).2) == alias;
            assert(alternates[i] == front[i]);
        }
        if exists|i: int|
            0 <= i < alternates.len() && index.text((#[trigger] alternates[i]).2) == alias {
            let i = choose|i: int|
                0 <= i < alternates.len() && index.text((#[trigger] alternates[i]).2) == alias;
            if i < n {
                assert(front[i] == alternates[i]);
            }
        }
        assert(done.push(alt).contains(alias) <==> done.contains(alias) || alt == alias) by {
            if done.contains(alias) {
                let k = choose|k: int| 0 <= k < done.len() && done[k] == alias;
                assert(done.push(alt)[k] == alias);
            }
            if alt == alias {
                assert(done.push(alt)[done.len() as int] == alias);
            }
            if done.push(alt).contains(alias) && alt != alias {
                let k = choose|k: int| 0 <= k < done.push(alt).len() && done.push(alt)[k] == alias;
                assert(done[k] == alias);
            }
        }
    }
}

// --- Keys ---
/// A suggestion shows the fields of the candidate that it comes from. An empty
/// suburb is none.
pub proof fn law_suggestion_shows_the_candidate(c: NameCandidate<'_>)
    ensures
        cand_hit(c@).name == c.name@,
        cand_hit(c@).kind == c.kind,
        cand_hit(c@).rank == c.rank,
        cand_hit(c@).lat == c.lat,
        cand_hit(c@).lng == c.lng,
        cand_hit(c@).suburb == (match c.suburb {
            Some(s) => if s@.len() == 0 {
                None
            } else {
                Some(s@)
            },
            None => None,
        }),
{
}

/// In an index a key leads to a candidate that is indexed under it, and no other
/// candidate that is indexed under it has a lower rank.
pub proof fn law_most_prominent_has_the_key(index: NameIndex, i: int, k: Seq<char>)
    requires
        index.wf(),
        index.complete(),
        0 <= i < index.sources@.len(),
        indexed_under(index.sources@[i], k),
    ensures
        index.keys@.contains_key(k),
        ({
            let at = index.keys@[k] as int;
            &&& 0 <= at < index.entries@.len()
            &&& indexed_under(index.sources@[at], k)
            &&& index.entries@[at].rank <= index.sources@[i].rank
            &&& index.entries@[at].kind == index.sources@[at].kind
            &&& index.entries@[at].lat == index.sources@[at].lat
            &&& index.entries@[at].lng == index.sources@[at].lng
        }),
{
    let at = index.keys@[k] as int;
    assert(index.keys@.contains_key(k));
    assert(crate::name_index::entry_stands_for(
        index.entries@[at],
        index.sources@[at],
        index.pool.bytes(),
    ));
}

/// A new record takes a key over only from a record of a higher rank; of equals
/// the first keeps it.
pub proof fn law_first_of_equals_keeps_the_key(
    entries: Seq<AutocompleteEntry>,
    keys: Map<Seq<char>, u64>,
    under: spec_fn(Seq<char>) -> bool,
    k: Seq<char>,
)
    requires
        entries.len() > 0,
        under(k),
        keys.contains_key(k) ==> keys[k] < entries.len() - 1,
        entries.len() <= u64::MAX,
    ensures
        ({
            let after = NameIndex::keys_with(entries, keys, under);
            let new = entries.last();
            &&& after.contains_key(k)
            &&& keys.contains_key(k) && entries[keys[k] as int].rank <= new.rank ==> after[k]
                == keys[k]
            &&& keys.contains_key(k) && entries[keys[k] as int].rank > new.rank ==> after[k]
                == entries.len() - 1
            &&& !keys.contains_key(k) ==> after[k] == entries.len() - 1
        }),
{
}

// --- Articles ---
proof fn lemma_trim_start(s: Seq<char>)
    ensures
        trim_start_seq(s).len() <= s.len(),
        s.skip(s.len() - trim_start_seq(s).len()) == trim_start_seq(s),
        trim_start_seq(s).len() > 0 ==> !is_white_space(trim_start_seq(s)[0]),
    decreases s.len(),
{
    if s.len() > 0 && is_white_space(s[0]) {
        let t = s.drop_first();
        lemma_trim_start(t);
        let r = trim_start_seq(t);
        assert(trim_start_seq(s) == r);
        assert(s.skip(s.len() - r.len()) =~= t.skip(t.len() - r.len()));
    } else {
        assert(trim_start_seq(s) == s);
        assert(s.skip(0) =~= s);
    }
}

/// A name without its article is the end of the name, and begins with a word.
pub proof fn law_rest_of_a_name_is_its_end(name: Seq<char>)
    ensures
        without_article(name) matches Some(rest) ==> {
            &&& 0 < rest.len() < name.len()
            &&& rest == name.skip(name.len() - rest.len())
            &&& !is_white_space(rest[0])
        },
{
    let t = trim_start_seq(name);
    lemma_trim_start(name);
    if let Some(rest) = without_article(name) {
        let n = first_where(t, space_char());
        if t.len() >= 2 && trim_start_seq(t.skip(2)).len() > 0 && rest == trim_start_seq(
            t.skip(2),
        ) {
            lemma_trim_start(t.skip(2));
            assert(rest =~= name.skip(name.len() - rest.len()));
        } else {
            crate::text::lemma_first_where(t, space_char());
            lemma_trim_start(t.skip(n + 1));
            assert(rest =~= name.skip(name.len() - rest.len()));
        }
    }
}

/// A word that is an article, with white space behind it, comes off a name.
pub proof fn law_article_comes_off(article: Seq<char>, gap: char, rest: Seq<char>)
    requires
        article.len() > 0,
        forall|i: int| 0 <= i < article.len() ==> !is_white_space(#[trigger] article[i]),
        is_article(lowered(article)),
        !crate::articles::is_elision(
            (article + seq![gap] + rest)[0],
            (article + seq![gap] + rest)[1],
        ),
        is_white_space(gap),
        rest.len() > 0,
        !is_white_space(rest[0]),
    ensures
        without_article(article + seq![gap] + rest) == Some(rest),
{
    let name = article + seq![gap] + rest;
    let n = article.len() as int;
    assert(!is_white_space(name[0])) by {
        assert(name[0] == article[0]);
    }
    assert(trim_start_seq(name) == name);
    assert forall|j: int| 0 <= j < n implies !space_char()(#[trigger] name[j]) by {
        assert(name[j] == article[j]);
    }
    assert(space_char()(name[n]));
    lemma_first_where_is(name, space_char(), n);
    assert(name.take(n) =~= article);
    assert(name.skip(n + 1) =~= rest);
    assert(trim_start_seq(rest) == rest);
}

// --- Languages and countries ---
/// The packed form of a language tells its two letters apart, whatever their
/// case: the first is in the low byte.
pub proof fn law_language_packs_its_letters(a: char, b: char, rest: Seq<char>)
    requires
        'a' <= a <= 'z',
        'a' <= b <= 'z',
    ensures
        lang_code(seq![a, b] + rest) == Some((a as u32 + 256 * (b as u32)) as u16),
        lang_code(seq![(a as u32 - 32) as char, b] + rest) == lang_code(seq![a, b]),
        lang_code(seq![a, (b as u32 - 32) as char] + rest) == lang_code(seq![a, b]),
{
    let up = (a as u32 - 32) as char;
    let vp = (b as u32 - 32) as char;
    crate::i18n::law_subtags_do_not_count(seq![a, b], rest);
    crate::i18n::law_subtags_do_not_count(seq![up, b], rest);
    crate::i18n::law_subtags_do_not_count(seq![a, vp], rest);
    assert(crate::text::trim_seq(seq![a, b]) =~= seq![a, b]);
    assert(crate::text::trim_seq(seq![up, b]) =~= seq![up, b]);
    assert(crate::text::trim_seq(seq![a, vp]) =~= seq![a, vp]);
}

/// The countries of a list are its pieces of two letters, and no others.
pub proof fn law_list_names_its_countries(pieces: Seq<Seq<char>>, code: Seq<char>)
    ensures
        codes_among(pieces).contains(code) <==> exists|i: int|
            0 <= i < pieces.len() && code_of(#[trigger] pieces[i]) == Some(code),
    decreases pieces.len(),
{
    let all = codes_among(pieces);
    if pieces.len() == 0 {
        assert(!all.contains(code));
    } else {
        let front = pieces.drop_last();
        let n = pieces.len() - 1;
        let done = codes_among(front);
        law_list_names_its_countries(front, code);
        if exists|i: int| 0 <= i < front.len() && code_of(#[trigger] front[i]) == Some(code) {
            let i = choose|i: int| 0 <= i < front.len() && code_of(#[trigger] front[i]) == Some(code);
            assert(pieces[i] == front[i]);
        }
        if exists|i: int| 0 <= i < pieces.len() && code_of(#[trigger] pieces[i]) == Some(code) {
            let i = choose|i: int|
                0 <= i < pieces.len() && code_of(#[trigger] pieces[i]) == Some(code);
            if i < n {
                assert(front[i] == pieces[i]);
            }
        }
        if let Some(c) = code_of(pieces[n]) {
            assert(done.push(c).contains(code) <==> done.contains(code) || c == code) by {
                if done.contains(code) {
                    let k = choose|k: int| 0 <= k < done.len() && done[k] == code;
                    assert(done.push(c)[k] == code);
                }
                if c == code {
                    assert(done.push(c)[done.len() as int] == code);
                }
                if done.push(c).contains(code) && c != code {
                    let k = choose|k: int| 0 <= k < done.push(c).len() && done.push(c)[k] == code;
                    assert(done[k] == code);
                }
            }
        }
    }
}

/// Without a filter every country with two letters owns what lies in it; with
/// one, only the countries that it lists do. The owner is in lower case.
pub proof fn law_filter_settles_the_owner(filter: CountryFilter, a: u8, b: u8, i: int)
    requires
        97 <= a <= 122,
        97 <= b <= 122,
    ensures
        filter.codes is None ==> filter.owner(Some([a, b])) == Some(seq![a, b]),
        filter.codes is None ==> filter.owner(Some([(a - 32) as u8, (b - 32) as u8])) == Some(
            seq![a, b],
        ),
        filter.codes matches Some(codes) ==> {
            &&& 0 <= i < codes@.len() && codes@[i]@ == seq![a, b] ==> filter.owner(
                Some([(a - 32) as u8, (b - 32) as u8]),
            ) == Some(seq![a, b])
            &&& (forall|j: int| 0 <= j < codes@.len() ==> (#[trigger] codes@[j])@ != seq![a, b])
                ==> filter.owner(Some([a, b])) is None
        },
        filter.owner(None) is None,
        filter.owner(Some([0, b])) is None,
        filter.owner(Some([a, 0])) is None,
{
    let low = [a, b];
    let up = [(a - 32) as u8, (b - 32) as u8];
    assert(crate::openaddresses::lower_code(low)@ =~= seq![a, b]);
    assert(crate::openaddresses::lower_code(up)@ =~= seq![a, b]);
}

/// Two letters are a country in any case; anything else is none.
pub proof fn law_two_letters_are_a_country(s: Seq<char>)
    ensures
        code_of(s) is Some <==> s.len() == 2 && is_ascii_letter(s[0]) && is_ascii_letter(s[1]),
        code_of(s) matches Some(c) ==> c.len() == 2 && 'a' <= c[0] <= 'z' && 'a' <= c[1] <= 'z' && (
        'a' <= s[0] <= 'z' ==> c[0] == s[0]) && ('a' <= s[1] <= 'z' ==> c[1] == s[1]),
{
}

// --- Suggestions ---
/// Of what there is to suggest, the lowest ranks are kept, and come first; of one
/// rank the names are in order.
pub proof fn law_lowest_ranks_are_kept(cands: Seq<(HitText, u64)>, limit: nat, i: int, j: int)
    requires
        0 <= i < best_cands(cands, limit).len(),
    ensures
        i <= j < best_cands(cands, limit).len() ==> {
            let a = best_cands(cands, limit)[i].0;
            let b = best_cands(cands, limit)[j].0;
            a.rank < b.rank || (a.rank == b.rank && !lex_lt(b.name, a.name))
        },
        0 <= j < cands.len() && !best_cands(cands, limit).contains(cands[j]) ==> {
            let a = best_cands(cands, limit)[i].0;
            let b = cands[j].0;
            a.rank < b.rank || (a.rank == b.rank && !lex_lt(b.name, a.name))
        },
{
    law_keeps_the_best(cands, limit);
    let best = best_cands(cands, limit);
    if i == j {
        crate::text::lemma_lex_irreflexive(best[i].0.name);
    } else if i < j < best.len() {
        assert(!cand_lt(best[j], best[i]));
    }
    if 0 <= j < cands.len() && !best.contains(cands[j]) {
        assert(!cand_lt(cands[j], best[i]));
    }
}

/// Sorting suggestions keeps each of them, puts lower ranks first, and has the
/// names of a rank in order.
pub proof fn law_suggestions_are_sorted(hits: Seq<HitText>)
    ensures
        sorted_hits(hits).to_multiset() == hits.to_multiset(),
        forall|i: int, j: int|
            0 <= i < j < sorted_hits(hits).len() ==> {
                let a = #[trigger] sorted_hits(hits)[i];
                let b = #[trigger] sorted_hits(hits)[j];
                a.rank < b.rank || (a.rank == b.rank && !lex_lt(b.name, a.name))
            },
    decreases hits.len(),
{
    if hits.len() == 0 {
        assert(sorted_hits(hits) =~= hits);
    } else {
        let front = hits.drop_last();
        let x = hits.last();
        law_suggestions_are_sorted(front);
        let before = sorted_hits(front);
        let p = hit_place(before, x);
        lemma_hit_place(before, x);
        let after = sorted_hits(hits);
        assert(after == before.insert(p, x));
        assert(hits =~= front.push(x));
        vstd::seq_lib::to_multiset_insert(before, p, x);
        vstd::seq_lib::to_multiset_build(front, x);
        assert forall|i: int, j: int| 0 <= i < j < after.len() implies ({
            let a = #[trigger] after[i];
            let b = #[trigger] after[j];
            a.rank < b.rank || (a.rank == b.rank && !lex_lt(b.name, a.name))
        }) by {
            if j < p {
                assert(after[i] == before[i] && after[j] == before[j]);
            } else if i < p && j == p {
                assert(after[i] == before[i] && after[j] == x);
                let last = before[p - 1];
                assert(!hit_lt(x, last));
                if i < p - 1 {
                    crate::text::lemma_lex_total(before[i].name, last.name);
                    if lex_lt(x.name, before[i].name) && lex_lt(before[i].name, last.name) {
                        crate::text::lemma_lex_transitive(x.name, before[i].name, last.name);
                    }
                }
            } else if i < p {
                assert(after[i] == before[i] && after[j] == before[j - 1]);
            } else if i == p {
                assert(after[i] == x && after[j] == before[j - 1]);
                assert(hit_lt(x, before[j - 1]));
                crate::text::lemma_lex_irreflexive(x.name);
                if lex_lt(before[j - 1].name, x.name) && lex_lt(x.name, before[j - 1].name) {
                    crate::text::lemma_lex_transitive(x.name, before[j - 1].name, x.name);
                }
            } else {
                assert(after[i] == before[i - 1] && after[j] == before[j - 1]);
            }
        }
    }
}

/// Bytes that were written as a record of a name are read back as it.
pub proof fn law_name_record_reads_back(s: Seq<u8>, id: u64, e: AutocompleteEntry)
    requires
        20 * id + 20 <= s.len(),
        u32_at(s, 20 * id) == e.lat,
        u32_at(s, 20 * id + 4) == e.lng,
        u32_at(s, 20 * id + 8) == e.name_offset,
        u32_at(s, 20 * id + 12) == e.suburb_offset,
        s[20 * id + 16] == e.kind,
        s[20 * id + 17] == e.rank,
    ensures
        entry_of(s, id) == Some(e),
{
}

/// A suggestion has the two strings that its record points to, its kind, its rank
/// and where it is; an empty suburb is none.
pub proof fn law_suggestion_shows_its_record(e: AutocompleteEntry, pool: Seq<u8>, name: Seq<char>, suburb: Seq<char>)
    requires
        pool_text(pool, e.name_offset) == name,
        pool_text(pool, e.suburb_offset) == suburb,
    ensures
        hit_of(e, pool).name == name,
        hit_of(e, pool).suburb == (if suburb.len() > 0 {
            Some(suburb)
        } else {
            None
        }),
        hit_of(e, pool).kind == e.kind,
        hit_of(e, pool).rank == e.rank,
        hit_of(e, pool).lat == e.lat,
        hit_of(e, pool).lng == e.lng,
{
}

/// An exact search asks the index of all countries first, and that of the country
/// where the first has nothing.
pub proof fn law_index_of_all_countries_comes_first(
    all: Autocomplete<'_>,
    cc: [u8; 2],
    q: Seq<char>,
    i: int,
)
    requires
        all.wf(),
        0 <= i < all.per_country@.len(),
        all.per_country@[i].code@ == lower_code(cc)@,
    ensures
        all.unified matches Some(u) ==> (u.exact(cc, q) matches Some(hit) ==> all.exact_answer(
            cc,
            q,
        ) == Some(hit)),
        all.unified is None || all.unified->0.exact(cc, q) is None ==> all.exact_answer(cc, q)
            == all.per_country@[i].names.exact(q),
{
    assert(all.is_country(i, cc));
    let k = choose|k: int| all.is_country(k, cc);
    assert(all.is_country(k, cc));
    assert(all.per_country@[i].code@ == all.per_country@[k].code@);
    assert(i == k);
}

/// An exact search finds the record that the map has for the key of the name, and
/// asks for two bytes at least.
pub proof fn law_exact_search_looks_the_key_up(
    names: AutocompleteCountry<'_>,
    q: Seq<char>,
    e: AutocompleteEntry,
    id: u64,
)
    requires
        entry_of(names.entries@, id) == Some(e),
        names.map.contents().contains_key(encode_utf8(name_key(q))),
        names.map.contents()[encode_utf8(name_key(q))] == id,
    ensures
        encode_utf8(name_key(q)).len() >= 2 ==> names.exact(q) == Some(
            hit_of(e, names.strings@),
        ),
        encode_utf8(name_key(q)).len() < 2 ==> names.exact(q) is None,
{
}

/// The files of the names of a country are told by their names.
pub proof fn law_name_files_name_their_country(a: char, b: char, tail: Seq<char>)
    requires
        'a' <= a <= 'z',
        'a' <= b <= 'z',
        tail == seq!['.', 'f', 's', 't'] || tail == seq!['.', 'b', 'i', 'n'] || tail == seq![
            '_',
            's',
            't',
            'r',
            'i',
            'n',
            'g',
            's',
            '.',
            'b',
            'i',
            'n',
        ],
    ensures
        fst_file_country(seq!['f', 's', 't', '_', a, b] + tail) == Some(seq![a, b]),
{
    reveal_strlit("fst_");
    reveal_strlit(".fst");
    reveal_strlit("_strings.bin");
    reveal_strlit(".bin");
    let name = seq!['f', 's', 't', '_', a, b] + tail;
    let rest = seq![a, b] + tail;
    assert(name.take(4) =~= "fst_"@);
    assert(name.skip(4) =~= rest);
    assert(".fst"@ =~= seq!['.', 'f', 's', 't']);
    assert(".bin"@ =~= seq!['.', 'b', 'i', 'n']);
    assert("_strings.bin"@ =~= seq!['_', 's', 't', 'r', 'i', 'n', 'g', 's', '.', 'b', 'i', 'n']);
    let n = rest.len();
    assert(rest.skip(2) =~= tail);
    assert(rest.take(2) =~= seq![a, b]);
    assert(rest[n - 1] == tail[tail.len() - 1]);
    if tail != ".fst"@ {
        assert(!crate::text::has_suffix(rest, ".fst"@)) by {
            if crate::text::has_suffix(rest, ".fst"@) {
                assert(rest.skip(n - 4)[3] == 't');
            }
        }
    }
    if tail == ".bin"@ {
        assert(!crate::text::has_suffix(rest, "_strings.bin"@));
    }
    assert(crate::text::lower_seq(seq![a, b]) =~= seq![a, b]);
}

/// Suggestions come from the index of all countries where it has any, and from
/// that of the country only where it has none.
pub proof fn law_suggestions_of_all_countries_come_first(
    all: Autocomplete<'_>,
    hits: Seq<HitText>,
    cc: [u8; 2],
    q: Seq<char>,
    limit: nat,
)
    requires
        all.is_search(hits, cc, q, limit),
    ensures
        all.unified matches Some(u) ==> u.is_search(hits, cc, q, limit) || u.is_search(
            Seq::empty(),
            cc,
            q,
            limit,
        ),
        all.unified is None ==> all.is_own_search(hits, cc, q, limit),
        all.unified matches Some(u) ==> (!u.is_search(Seq::empty(), cc, q, limit) ==> u.is_search(
            hits,
            cc,
            q,
            limit,
        ) && hits.len() > 0),
{
}

/// An elided article comes off: an L, a D or an N in either case, and an
/// apostrophe.
pub proof fn law_elided_article_comes_off(letter: char, mark: char, rest: Seq<char>)
    requires
        letter == 'l' || letter == 'd' || letter == 'n' || letter == 'L' || letter == 'D' || letter
            == 'N',
        mark == '\'',
        rest.len() > 0,
        !is_white_space(rest[0]),
    ensures
        without_article(seq![letter, mark] + rest) == Some(rest),
{
    let name = seq![letter, mark] + rest;
    assert(trim_start_seq(name) == name);
    assert(name.skip(2) =~= rest);
    assert(trim_start_seq(rest) == rest);
    let head = crate::unicode::lower_of(name[0]) + crate::unicode::lower_of(name[1]);
    let low = crate::text::lower_char(letter);
    assert(head =~= seq![low, '\'']);
}

/// The articles of each language are known.
pub proof fn law_articles_are_known()
    ensures
        is_article("the"@),
        is_article("le"@) && is_article("la"@) && is_article("les"@),
        is_article("el"@) && is_article("los"@) && is_article("las"@),
        is_article("il"@) && is_article("lo"@) && is_article("i"@) && is_article("gli"@),
        is_article("o"@) && is_article("a"@) && is_article("os"@) && is_article("as"@),
        is_article("els"@),
        is_article("der"@) && is_article("die"@) && is_article("das"@),
        is_article("de"@) && is_article("het"@),
        is_article("y"@) && is_article("yr"@),
{
}

/// A candidate is found by its name, by each of its other names, by its name
/// without the article and by each spelling in Latin letters; by nothing else,
/// and not at all where its name has no letters or digits.
pub proof fn law_candidate_is_found_by_its_names(c: CandText, k: Seq<char>, i: int)
    ensures
        ({
            let named = name_key(c.name).len() > 0;
            &&& !named ==> !indexed_under(c, k)
            &&& named ==> indexed_under(c, name_key(c.name))
            &&& named && 0 <= i < c.aliases.len() && name_key(c.aliases[i]).len() > 0
                ==> indexed_under(c, name_key(c.aliases[i]))
            &&& named && (without_article(c.name) matches Some(rest) && name_key(rest).len() > 0)
                ==> indexed_under(c, name_key(without_article(c.name)->0))
            &&& named && 0 <= i < c.aliases.len() && (without_article(c.aliases[i]) matches Some(
                rest,
            ) && name_key(rest).len() > 0) ==> indexed_under(
                c,
                name_key(without_article(c.aliases[i])->0),
            )
            &&& named && 0 <= i < c.spellings.len() && name_key(c.spellings[i]).len() > 0
                ==> indexed_under(c, name_key(c.spellings[i]))
            &&& c.aliases.len() == 0 && c.spellings.len() == 0 && without_article(c.name) is None
                && indexed_under(c, k) ==> k == name_key(c.name)
        }),
{
    if 0 <= i < c.aliases.len() {
        assert(name_key(c.aliases[i]) == name_key(c.aliases[i]));
    }
}

/// What all countries suggest is what each of them suggests, and of a long list
/// the beginning is kept.
pub proof fn law_every_country_may_suggest(lists: Seq<Seq<HitText>>, h: HitText, n: nat)
    ensures
        concat_hits(lists).contains(h) <==> exists|i: int|
            0 <= i < lists.len() && (#[trigger] lists[i]).contains(h),
        at_most(concat_hits(lists), n).len() <= n,
        concat_hits(lists).len() <= n ==> at_most(concat_hits(lists), n) == concat_hits(lists),
        concat_hits(lists).len() > n ==> at_most(concat_hits(lists), n).len() == n,
        forall|k: int|
            0 <= k < at_most(concat_hits(lists), n).len() ==> (#[trigger] at_most(
                concat_hits(lists),
                n,
            )[k]) == concat_hits(lists)[k],
    decreases lists.len(),
{
    let all = concat_hits(lists);
    if lists.len() == 0 {
        assert(all =~= Seq::<HitText>::empty());
    } else {
        let front = lists.drop_last();
        let last = lists.last();
        let done = concat_hits(front);
        law_every_country_may_suggest(front, h, n);
        assert(all == done + last);
        if done.contains(h) {
            let k = choose|k: int| 0 <= k < done.len() && done[k] == h;
            assert(all[k] == h);
            let i = choose|i: int| 0 <= i < front.len() && (#[trigger] front[i]).contains(h);
            assert(lists[i] == front[i]);
        }
        if last.contains(h) {
            let k = choose|k: int| 0 <= k < last.len() && last[k] == h;
            assert(all[done.len() + k] == h);
            assert(lists[lists.len() - 1].contains(h));
        }
        if all.contains(h) {
            let k = choose|k: int| 0 <= k < all.len() && all[k] == h;
            if k < done.len() {
                assert(done[k] == h);
            } else {
                assert(last[k - done.len()] == h);
            }
        }
        if exists|i: int| 0 <= i < lists.len() && (#[trigger] lists[i]).contains(h) {
            let i = choose|i: int| 0 <= i < lists.len() && (#[trigger] lists[i]).contains(h);
            if i < front.len() {
                assert(front[i].contains(h));
            }
        }
    }
}

} // verus!
