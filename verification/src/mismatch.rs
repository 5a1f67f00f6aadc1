//! Keeps extracts of the planet and of continents apart.
//!
//! The index is built from every extract in a directory. With the planet and
//! a continent in it, the continent would be read twice.
use vstd::prelude::*;
use vstd::utf8::encode_utf8;
use crate::fst_map::bytes_lt;
use crate::name_files::bytes_of;
use crate::paths::{join_path, joined};
use crate::region::Region;
use crate::sorting::sort_keys;
use crate::text::{
    append_chars, append_str, chars_of, ends_with, has_suffix, str_eq, string_of, string_views,
    sub_chars,
};

verus! {

broadcast use vstd::seq::group_seq_axioms;

/// What does not go together in a directory.
#[derive(Debug)]
pub enum Mismatch {
    PlanetExistsButContinentsRequested { planet_path: String },
    ContinentsExistButPlanetRequested { continent_paths: Vec<String> },
}

// --- Which files are there ---
/// The name of the extract of the planet.
pub const PLANET_FILE: &'static str = "planet-latest.osm.pbf";

/// Whether a file is the extract of a continent or a country.
pub open spec fn is_continent_file(name: Seq<char>) -> bool {
    has_suffix(name, "-latest.osm.pbf"@) && name != PLANET_FILE@
}

/// Whether a file is the extract of the planet.
pub open spec fn is_planet_file(name: Seq<char>) -> bool {
    has_suffix(name, "-latest.osm.pbf"@) && name == PLANET_FILE@
}

/// How many of the files are extracts of continents or countries.
pub open spec fn continent_count(names: Seq<Seq<char>>) -> nat
    decreases names.len(),
{
    if names.len() == 0 {
        0
    } else {
        continent_count(names.drop_last()) + if is_continent_file(names.last()) {
            1nat
        } else {
            0
        }
    }
}

/// Whether some file is the extract of the planet.
pub open spec fn has_planet(names: Seq<Seq<char>>) -> bool {
    exists|i: int| 0 <= i < names.len() && is_planet_file(#[trigger] names[i])
}

/// Whether `paths` lists the extracts of continents and countries in `dir`, in
/// the order of their names.
pub open spec fn lists_continents(
    paths: Seq<Seq<char>>,
    dir: Seq<char>,
    names: Seq<Seq<char>>,
) -> bool {
    &&& paths.len() == continent_count(names)
    &&& exists|order: Seq<Seq<char>>| #[trigger] is_listing(order, names) && paths == order.map_values(
        |n: Seq<char>| joined(dir, n),
    )
}

/// Whether `order` holds the names of extracts of continents and countries, in
/// order.
pub open spec fn is_listing(order: Seq<Seq<char>>, names: Seq<Seq<char>>) -> bool {
    &&& order.len() == continent_count(names)
    &&& forall|i: int|
        0 <= i < order.len() ==> is_continent_file(#[trigger] order[i]) && names.contains(order[i])
    &&& forall|i: int|
        0 <= i < names.len() && is_continent_file(#[trigger] names[i]) ==> order.contains(names[i])
    &&& forall|i: int, j: int|
        0 <= i < j < order.len() ==> !bytes_lt(
            encode_utf8(#[trigger] order[j]),
            encode_utf8(#[trigger] order[i]),
        )
}

fn sorted_continents(names: &[String]) -> (r: Vec<String>)
    ensures
        is_listing(string_views(r@), string_views(names@)),
{
    let ghost all = string_views(names@);
    let mut keyed: Vec<(Vec<u8>, u64)> = Vec::new();
    for i in 0..names.len()
        invariant
            all == string_views(names@),
            keyed@.len() == continent_count(all.take(i as int)),
            forall|j: int| 0 <= j < keyed@.len() ==> is_entry(#[trigger] keyed@[j], all, i as int),
            forall|k: int|
                0 <= k < i && is_continent_file(#[trigger] all[k]) ==> listed_at(keyed@, k),
    {
        let ghost before = keyed@;
        assert(all.take(i + 1).drop_last() =~= all.take(i as int));
        assert(all[i as int] == names@[i as int]@);
        let name = names[i].as_str();
        let chars = chars_of(name);
        if ends_with(&chars, &chars_of("-latest.osm.pbf")) && !str_eq(name, PLANET_FILE) {
            keyed.push((bytes_of(name), i as u64));
            proof {
                let n = before.len() as int;
                assert(is_entry(keyed@[n], all, i + 1));
                assert(listed_at(keyed@, i as int)) by {
                    assert(keyed@[n].1 == i);
                }
            }
        }
        proof {
            assert forall|j: int| 0 <= j < keyed@.len() implies is_entry(
                #[trigger] keyed@[j],
                all,
                i + 1,
            ) by {
                if j < before.len() {
                    assert(is_entry(before[j], all, i as int));
                }
            }
            assert forall|k: int| 0 <= k < i + 1 && is_continent_file(#[trigger] all[k]) implies listed_at(
                keyed@,
                k,
            ) by {
                if k < i {
                    assert(listed_at(before, k));
                    let j = choose|j: int| 0 <= j < before.len() && (#[trigger] before[j]).1 == k;
                    assert(keyed@[j].1 == k);
                }
            }
        }
    }
    assert(all.take(all.len() as int) =~= all);
    let ghost given = keyed@;
    sort_keys(&mut keyed);
    proof {
        vstd::seq_lib::to_multiset_len(given);
        vstd::seq_lib::to_multiset_len(keyed@);
        assert forall|j: int| 0 <= j < keyed@.len() implies is_entry(
            #[trigger] keyed@[j],
            all,
            all.len() as int,
        ) by {
            vstd::seq_lib::to_multiset_contains(keyed@, keyed@[j]);
            vstd::seq_lib::to_multiset_contains(given, keyed@[j]);
            let k = choose|k: int| 0 <= k < given.len() && given[k] == keyed@[j];
            assert(is_entry(given[k], all, all.len() as int));
        }
        assert forall|k: int| 0 <= k < all.len() && is_continent_file(#[trigger] all[k]) implies listed_at(
            keyed@,
            k,
        ) by {
            assert(listed_at(given, k));
            let j = choose|j: int| 0 <= j < given.len() && (#[trigger] given[j]).1 == k;
            vstd::seq_lib::to_multiset_contains(given, given[j]);
            vstd::seq_lib::to_multiset_contains(keyed@, given[j]);
            let m = choose|m: int| 0 <= m < keyed@.len() && keyed@[m] == given[j];
            assert(keyed@[m].1 == k);
        }
    }
    let mut out: Vec<String> = Vec::new();
    for j in 0..keyed.len()
        invariant
            all == string_views(names@),
            out@.len() == j,
            forall|i: int|
                0 <= i < keyed@.len() ==> is_entry(#[trigger] keyed@[i], all, all.len() as int),
            forall|i: int| 0 <= i < j ==> (#[trigger] out@[i])@ == all[keyed@[i].1 as int],
    {
        assert(is_entry(keyed@[j as int], all, all.len() as int));
        let at: u64 = keyed[j].1;
        assert(at < names.len());
        out.push(names[at as usize].clone());
    }
    proof {
        let order = string_views(out@);
        assert forall|i: int| 0 <= i < order.len() implies is_continent_file(#[trigger] order[i])
            && all.contains(order[i]) by {
            assert(is_entry(keyed@[i], all, all.len() as int));
            assert(order[i] == all[keyed@[i].1 as int]);
        }
        assert forall|k: int| 0 <= k < all.len() && is_continent_file(#[trigger] all[k]) implies order.contains(
            all[k],
        ) by {
            assert(listed_at(keyed@, k));
            let m = choose|m: int| 0 <= m < keyed@.len() && (#[trigger] keyed@[m]).1 == k;
            assert(order[m] == out@[m]@);
            assert(order[m] == all[k]);
        }
        assert forall|i: int, j: int| 0 <= i < j < order.len() implies !bytes_lt(
            encode_utf8(#[trigger] order[j]),
            encode_utf8(#[trigger] order[i]),
        ) by {
            assert(is_entry(keyed@[i], all, all.len() as int));
            assert(is_entry(keyed@[j], all, all.len() as int));
            assert(order[i] == out@[i]@ && order[j] == out@[j]@);
            assert(!bytes_lt(keyed@[j].0@, keyed@[i].0@));
        }
    }
    out
}

/// Whether a pair is the name of an extract among the first `n`, and its
/// place.
spec fn is_entry(p: (Vec<u8>, u64), names: Seq<Seq<char>>, n: int) -> bool {
    &&& p.1 < n
    &&& is_continent_file(names[p.1 as int])
    &&& p.0@ == encode_utf8(names[p.1 as int])
}

spec fn listed_at(pairs: Seq<(Vec<u8>, u64)>, k: int) -> bool {
    exists|j: int| 0 <= j < pairs.len() && (#[trigger] pairs[j]).1 == k
}

fn planet_there(names: &[String]) -> (r: bool)
    ensures
        r == has_planet(string_views(names@)),
{
    let ghost all = string_views(names@);
    for i in 0..names.len()
        invariant
            all == string_views(names@),
            forall|j: int| 0 <= j < i ==> !is_planet_file(#[trigger] all[j]),
    {
        assert(all[i as int] == names@[i as int]@);
        if str_eq(names[i].as_str(), PLANET_FILE) {
            assert(has_suffix(PLANET_FILE@, "-latest.osm.pbf"@)) by {
                reveal_strlit("planet-latest.osm.pbf");
                reveal_strlit("-latest.osm.pbf");
                assert(PLANET_FILE@ == "planet-latest.osm.pbf"@);
                assert("planet-latest.osm.pbf"@.skip(6) =~= "-latest.osm.pbf"@);
            }
            return true;
        }
    }
    false
}

/// Holds the files in a directory against the region that is to be fetched
/// into it: a directory has the planet, or it has extracts of continents and
/// countries. `names` are the names of the files in the directory.
pub fn check_pbf_directory_consistency(dir: &str, names: &[String], target: Region) -> (r: Result<
    (),
    Mismatch,
>)
    ensures
        r is Ok <==> fits(string_views(names@), target),
        ({
            let all = string_views(names@);
            if target == Region::Planet {
                match r {
                    Ok(()) => continent_count(all) == 0,
                    Err(Mismatch::ContinentsExistButPlanetRequested { continent_paths }) => {
                        continent_count(all) > 0 && lists_continents(
                            string_views(continent_paths@),
                            dir@,
                            all,
                        )
                    },
                    Err(_) => false,
                }
            } else {
                match r {
                    Ok(()) => !has_planet(all),
                    Err(Mismatch::PlanetExistsButContinentsRequested { planet_path }) => {
                        has_planet(all) && planet_path@ == joined(dir@, PLANET_FILE@)
                    },
                    Err(_) => false,
                }
            }
        }),
{
    if target.is_planet() {
        let sorted = sorted_continents(names);
        let ghost order = string_views(sorted@);
        if sorted.len() == 0 {
            assert(order.len() == 0);
            return Ok(());
        }
        let mut continent_paths: Vec<String> = Vec::new();
        for i in 0..sorted.len()
            invariant
                order == string_views(sorted@),
                continent_paths@.len() == i,
                forall|j: int|
                    0 <= j < i ==> (#[trigger] continent_paths@[j])@ == joined(dir@, order[j]),
        {
            assert(order[i as int] == sorted@[i as int]@);
            continent_paths.push(join_path(dir, sorted[i].as_str()));
        }
        assert(string_views(continent_paths@) =~= order.map_values(
            |n: Seq<char>| joined(dir@, n),
        ));
        assert(is_listing(order, string_views(names@)));
        return Err(Mismatch::ContinentsExistButPlanetRequested { continent_paths });
    }
    if planet_there(names) {
        return Err(
            Mismatch::PlanetExistsButContinentsRequested {
                planet_path: join_path(dir, PLANET_FILE),
            },
        );
    }
    Ok(())
}

/// Whether a region may be fetched into a directory with these files.
pub open spec fn fits(names: Seq<Seq<char>>, target: Region) -> bool {
    if target == Region::Planet {
        continent_count(names) == 0
    } else {
        !has_planet(names)
    }
}

proof fn lemma_count_concat(a: Seq<Seq<char>>, b: Seq<Seq<char>>)
    ensures
        continent_count(a + b) == continent_count(a) + continent_count(b),
    decreases b.len(),
{
    if b.len() == 0 {
        assert(a + b =~= a);
    } else {
        assert((a + b).drop_last() =~= a + b.drop_last());
        lemma_count_concat(a, b.drop_last());
    }
}

proof fn lemma_no_continents(names: Seq<Seq<char>>)
    requires
        forall|i: int| 0 <= i < names.len() ==> !is_continent_file(#[trigger] names[i]),
    ensures
        continent_count(names) == 0,
    decreases names.len(),
{
    if names.len() > 0 {
        assert(!is_continent_file(names[names.len() - 1]));
        assert forall|i: int| 0 <= i < names.drop_last().len() implies !is_continent_file(
            #[trigger] names.drop_last()[i],
        ) by {
            assert(names.drop_last()[i] == names[i]);
        }
        lemma_no_continents(names.drop_last());
    }
}

/// A region that fits a directory never mixes the planet with continents: once
/// its extracts are fetched, the directory has the one or the others.
pub proof fn law_fetching_keeps_them_apart(
    names: Seq<Seq<char>>,
    target: Region,
    fetched: Seq<Seq<char>>,
)
    requires
        fits(names, target),
        forall|i: int|
            0 <= i < fetched.len() ==> if target == Region::Planet {
                !is_continent_file(#[trigger] fetched[i])
            } else {
                !is_planet_file(fetched[i])
            },
    ensures
        !(has_planet(names + fetched) && continent_count(names + fetched) > 0),
{
    let all = names + fetched;
    if target == Region::Planet {
        lemma_count_concat(names, fetched);
        lemma_no_continents(fetched);
    } else {
        if has_planet(all) {
            let i = choose|i: int| 0 <= i < all.len() && is_planet_file(#[trigger] all[i]);
            if i < names.len() {
                assert(is_planet_file(names[i]));
            } else {
                assert(all[i] == fetched[i - names.len()]);
                assert(!is_planet_file(fetched[i - names.len()]));
            }
        }
    }
}

// --- What is said of it ---
/// What stands before the last separator of a path: the root where nothing
/// does, and nothing where there is no separator.
pub open spec fn parent_of(path: Seq<char>) -> Seq<char>
    decreases path.len(),
{
    if path.len() == 0 {
        Seq::empty()
    } else if path.last() == '/' {
        if path.len() == 1 {
            seq!['/']
        } else {
            path.drop_last()
        }
    } else {
        parent_of(path.drop_last())
    }
}

fn parent_chars(path: &[char]) -> (r: Vec<char>)
    ensures
        r@ == parent_of(path@),
{
    let mut n: usize = path.len();
    assert(path@.take(n as int) =~= path@);
    while n > 0
        invariant
            n <= path@.len(),
            parent_of(path@.take(n as int)) == parent_of(path@),
        decreases n,
    {
        let ghost now = path@.take(n as int);
        assert(now.last() == path@[n - 1]);
        assert(now.drop_last() =~= path@.take(n - 1));
        if path[n - 1] == '/' {
            if n == 1 {
                let mut out: Vec<char> = Vec::new();
                out.push('/');
                assert(out@ =~= seq!['/']);
                return out;
            }
            let out = sub_chars(path, 0, n - 1);
            assert(out@ =~= now.drop_last());
            return out;
        }
        n = n - 1;
    }
    Vec::new()
}

/// The paths, each on a line of its own.
pub open spec fn path_lines(paths: Seq<Seq<char>>) -> Seq<char>
    decreases paths.len(),
{
    if paths.len() == 0 {
        Seq::empty()
    } else {
        path_lines(paths.drop_last()) + "    "@ + paths.last() + "\n"@
    }
}

/// What is said of an extract of the planet.
pub open spec fn planet_text(path: Seq<char>) -> Seq<char> {
    "Error: "@ + path
        + " exists from an earlier --region planet fetch.\n\nMixing planet + continent PBFs in the same directory would cause\nbuild-index to double-process every node and way (corrupt index +\nmuch longer build). Resolve before re-running:\n\n- To keep the existing planet PBF, re-run with --region planet:\nfetch-data --region planet\n\n- To switch to the parallel continent fetch, remove the planet PBF first:\nrm "@
        + path + "\n# then re-run with --region all-continents\n"@
}

/// What is said of extracts of continents.
pub open spec fn continents_text(paths: Seq<Seq<char>>) -> Seq<char> {
    "Error: continent PBFs from an earlier --region all-continents fetch:\n"@ + path_lines(paths)
        + "\nAdding planet-latest.osm.pbf alongside these would cause build-index\nto double-process. Resolve before re-running:\n\n- To keep the continent PBFs, re-run with --region all-continents:\nfetch-data --region all-continents\n\n- To switch to the single-stream planet PBF:\nrm "@
        + (if paths.len() > 0 {
        parent_of(paths[0])
    } else {
        "<pbf>"@
    }) + "/*-latest.osm.pbf\n# then re-run with --region planet\n"@
}

impl Mismatch {
    /// What is said of the mismatch.
    pub open spec fn text(&self) -> Seq<char> {
        match *self {
            Mismatch::PlanetExistsButContinentsRequested { planet_path } => planet_text(
                planet_path@,
            ),
            Mismatch::ContinentsExistButPlanetRequested { continent_paths } => continents_text(
                string_views(continent_paths@),
            ),
        }
    }
}

/// Says what does not go together, and how to resolve it.
pub fn format_mismatch(m: &Mismatch) -> (r: String)
    ensures
        r@ == m.text(),
{
    let mut out: Vec<char> = Vec::new();
    match m {
        Mismatch::PlanetExistsButContinentsRequested { planet_path } => {
            append_str(&mut out, "Error: ");
            append_str(&mut out, planet_path.as_str());
            append_str(
                &mut out,
                " exists from an earlier --region planet fetch.\n\nMixing planet + continent PBFs in the same directory would cause\nbuild-index to double-process every node and way (corrupt index +\nmuch longer build). Resolve before re-running:\n\n- To keep the existing planet PBF, re-run with --region planet:\nfetch-data --region planet\n\n- To switch to the parallel continent fetch, remove the planet PBF first:\nrm ",
            );
            append_str(&mut out, planet_path.as_str());
            append_str(&mut out, "\n# then re-run with --region all-continents\n");
            assert(out@ =~= planet_text(planet_path@));
        },
        Mismatch::ContinentsExistButPlanetRequested { continent_paths } => {
            append_str(
                &mut out,
                "Error: continent PBFs from an earlier --region all-continents fetch:\n",
            );
            let ghost head = out@;
            let ghost paths = string_views(continent_paths@);
            assert(out@ =~= head + path_lines(paths.take(0)));
            for i in 0..continent_paths.len()
                invariant
                    paths == string_views(continent_paths@),
                    out@ == head + path_lines(paths.take(i as int)),
            {
                let ghost before = out@;
                assert(paths[i as int] == continent_paths@[i as int]@);
                assert(paths.take(i + 1).drop_last() =~= paths.take(i as int));
                append_str(&mut out, "    ");
                append_str(&mut out, continent_paths[i].as_str());
                append_str(&mut out, "\n");
                assert(out@ =~= head + (path_lines(paths.take(i as int)) + "    "@ + paths[i as int]
                    + "\n"@));
            }
            assert(paths.take(paths.len() as int) =~= paths);
            append_str(
                &mut out,
                "\nAdding planet-latest.osm.pbf alongside these would cause build-index\nto double-process. Resolve before re-running:\n\n- To keep the continent PBFs, re-run with --region all-continents:\nfetch-data --region all-continents\n\n- To switch to the single-stream planet PBF:\nrm ",
            );
            if continent_paths.len() > 0 {
                assert(paths[0] == continent_paths@[0]@);
                let first = chars_of(continent_paths[0].as_str());
                append_chars(&mut out, &parent_chars(&first));
            } else {
                append_str(&mut out, "<pbf>");
            }
            append_str(&mut out, "/*-latest.osm.pbf\n# then re-run with --region planet\n");
            assert(out@ =~= continents_text(paths));
        },
    }
    string_of(&out)
}

// --- Errors ---
/// Marks an error as one about a directory.
#[derive(Clone, Copy, Debug, PartialEq, Eq, Structural)]
pub struct MismatchSentinel;

impl MismatchSentinel {
    pub fn message(&self) -> (r: &'static str)
        ensures
            r@ == "PBF directory mismatch"@,
    {
        "PBF directory mismatch"
    }
}

/// One cause in a chain of causes.
pub enum FetchCause {
    Sentinel(MismatchSentinel),
    Message(String),
}

/// An error, from the outermost cause in.
pub struct FetchError {
    pub chain: Vec<FetchCause>,
}

/// The error that a mismatch is reported as.
pub fn mismatch_error(m: &Mismatch) -> (r: FetchError)
    ensures
        r.chain@.len() == 2,
        r.chain@[0] is Sentinel,
        r.chain@[1] matches FetchCause::Message(s) && s@ == m.text(),
{
    let mut chain: Vec<FetchCause> = Vec::new();
    chain.push(FetchCause::Sentinel(MismatchSentinel));
    chain.push(FetchCause::Message(format_mismatch(m)));
    FetchError { chain }
}

/// Whether an error is one about a directory.
pub fn is_mismatch(err: &FetchError) -> (r: bool)
    ensures
        r == (exists|i: int| 0 <= i < err.chain@.len() && (#[trigger] err.chain@[i]) is Sentinel),
{
    for i in 0..err.chain.len()
        invariant
            forall|j: int| 0 <= j < i ==> !((#[trigger] err.chain@[j]) is Sentinel),
    {
        match &err.chain[i] {
            FetchCause::Sentinel(_) => {
                assert(err.chain@[i as int] is Sentinel);
                return true;
            },
            FetchCause::Message(_) => {},
        }
    }
    false
}

/// The planet fits a directory that has no other extract, and anything else one
/// that has not the planet.
pub proof fn law_planet_stands_alone(names: Seq<Seq<char>>, target: Region)
    ensures
        target == Region::Planet ==> (fits(names, target) <==> forall|i: int|
            0 <= i < names.len() ==> !(has_suffix(#[trigger] names[i], "-latest.osm.pbf"@)
                && names[i] != "planet-latest.osm.pbf"@)),
        target != Region::Planet ==> (fits(names, target) <==> forall|i: int|
            0 <= i < names.len() ==> #[trigger] names[i] != "planet-latest.osm.pbf"@),
    decreases names.len(),
{
    reveal_strlit("-latest.osm.pbf");
    reveal_strlit("planet-latest.osm.pbf");
    let p = "planet-latest.osm.pbf"@;
    assert(p.skip(p.len() - 15) =~= "-latest.osm.pbf"@);
    assert(has_suffix(p, "-latest.osm.pbf"@));
    if names.len() > 0 {
        let front = names.drop_last();
        law_planet_stands_alone(front, target);
        if forall|i: int|
            0 <= i < names.len() ==> !(has_suffix(#[trigger] names[i], "-latest.osm.pbf"@)
                && names[i] != "planet-latest.osm.pbf"@) {
            assert forall|i: int| 0 <= i < front.len() implies !(has_suffix(
                #[trigger] front[i],
                "-latest.osm.pbf"@,
            ) && front[i] != "planet-latest.osm.pbf"@) by {
                assert(front[i] == names[i]);
            }
        }
        if forall|i: int|
            0 <= i < front.len() ==> !(has_suffix(#[trigger] front[i], "-latest.osm.pbf"@)
                && front[i] != "planet-latest.osm.pbf"@) {
            assert forall|i: int| 0 <= i < names.len() - 1 implies !(has_suffix(
                #[trigger] names[i],
                "-latest.osm.pbf"@,
            ) && names[i] != "planet-latest.osm.pbf"@) by {
                assert(front[i] == names[i]);
            }
        }
        if has_planet(names) {
            let i = choose|i: int| 0 <= i < names.len() && is_planet_file(#[trigger] names[i]);
            assert(names[i] == "planet-latest.osm.pbf"@);
        } else {
            assert forall|i: int| 0 <= i < names.len() implies #[trigger] names[i]
                != "planet-latest.osm.pbf"@ by {
                assert(!is_planet_file(names[i]));
            }
        }
    }
}

/// A file lies in the directory that stands before the last separator of its path.
pub proof fn law_parent_stands_before_the_name(dir: Seq<char>, name: Seq<char>)
    requires
        dir.len() > 0,
        forall|i: int| 0 <= i < name.len() ==> #[trigger] name[i] != '/',
    ensures
        parent_of(dir + seq!['/'] + name) == dir,
        parent_of(name).len() == 0,
    decreases name.len(),
{
    let path = dir + seq!['/'] + name;
    if name.len() == 0 {
        assert(path.last() == '/');
        assert(path.drop_last() =~= dir);
    } else {
        let front = name.drop_last();
        assert forall|i: int| 0 <= i < front.len() implies #[trigger] front[i] != '/' by {
            assert(front[i] == name[i]);
        }
        law_parent_stands_before_the_name(dir, front);
        assert(path.last() == name[name.len() - 1]);
        assert(path.drop_last() =~= dir + seq!['/'] + front);
    }
}

} // verus!
