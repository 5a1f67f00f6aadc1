//! Builds the autocomplete index of a country.
//!
//! Each candidate becomes one record, and one key for each form of its name.
//! Where several candidates share a key, the most prominent one has it.
use vstd::hash_map::StringHashMap;
use vstd::prelude::*;
use vstd::utf8::encode_utf8;
use crate::abbreviations::{name_key, normalise_prefix};
use crate::articles::{strip_leading_article, without_article};
use crate::autocomplete::{AutocompleteEntry, HitText};
use crate::string_pool::{
    law_growth_keeps_strings, lemma_with_contains, lemma_with_distinct, lemma_with_held, lemma_with_step, stored_at,
    str_views, total, with_texts, StringPool,
};
use crate::text::{opt_str_view, str_eq, string_views};

verus! {

broadcast use vstd::seq::group_seq_axioms;

/// Something to be found by its name.
pub struct NameCandidate<'a> {
    pub name: &'a str,
    /// Other names for the same thing.
    pub aliases: Vec<&'a str>,
    /// How the names are spelt in Latin letters, where they are in others. A
    /// transliterator may add them.
    pub spellings: Vec<String>,
    pub kind: u8,
    pub rank: u8,
    pub lat: u32,
    pub lng: u32,
    pub suburb: Option<&'a str>,
}

/// The content of a [`NameCandidate`].
pub struct CandText {
    pub name: Seq<char>,
    pub aliases: Seq<Seq<char>>,
    pub spellings: Seq<Seq<char>>,
    pub kind: u8,
    pub rank: u8,
    pub lat: u32,
    pub lng: u32,
    pub suburb: Option<Seq<char>>,
}

impl<'a> View for NameCandidate<'a> {
    type V = CandText;

    open spec fn view(&self) -> CandText {
        CandText {
            name: self.name@,
            aliases: Seq::new(self.aliases@.len(), |i: int| self.aliases@[i]@),
            spellings: string_views(self.spellings@),
            kind: self.kind,
            rank: self.rank,
            lat: self.lat,
            lng: self.lng,
            suburb: opt_str_view(self.suburb),
        }
    }
}

/// Whether `k` is the key of a name without its article.
pub open spec fn stripped_key(name: Seq<char>, k: Seq<char>) -> bool {
    without_article(name) matches Some(rest) && name_key(rest) == k
}

/// Whether a candidate is indexed under `k`: the key of its name, and those of
/// its other names, of the names without their articles and of their spellings
/// in Latin letters, where they are not empty. A candidate whose name has no key
/// is not indexed at all.
pub open spec fn indexed_under(c: CandText, k: Seq<char>) -> bool {
    &&& name_key(c.name).len() > 0
    &&& k.len() > 0
    &&& {
        ||| k == name_key(c.name)
        ||| exists|i: int| 0 <= i < c.aliases.len() && name_key(#[trigger] c.aliases[i]) == k
        ||| stripped_key(c.name, k)
        ||| exists|i: int| 0 <= i < c.aliases.len() && stripped_key(#[trigger] c.aliases[i], k)
        ||| exists|i: int| 0 <= i < c.spellings.len() && name_key(#[trigger] c.spellings[i]) == k
    }
}

/// The suggestion that a candidate makes.
pub open spec fn cand_hit(c: CandText) -> HitText {
    HitText {
        name: c.name,
        suburb: match c.suburb {
            Some(s) => if s.len() > 0 {
                Some(s)
            } else {
                None
            },
            None => None,
        },
        kind: c.kind,
        rank: c.rank,
        lat: c.lat,
        lng: c.lng,
    }
}

/// The index of a country under construction.
pub struct NameIndex {
    pub entries: Vec<AutocompleteEntry>,
    pub pool: StringPool,
    /// The record of each key.
    pub keys: StringHashMap<u64>,
    /// The keys, in the order in which they came.
    pub order: Vec<String>,
    /// The candidates that became records.
    pub sources: Ghost<Seq<CandText>>,
}

/// Whether a record stands for a candidate.
pub open spec fn entry_stands_for(e: AutocompleteEntry, c: CandText, pool: Seq<u8>) -> bool {
    &&& e.lat == c.lat
    &&& e.lng == c.lng
    &&& e.kind == c.kind
    &&& e.rank == c.rank
    &&& stored_at(pool, c.name, e.name_offset as int)
    &&& stored_at(
        pool,
        match c.suburb {
            Some(s) => s,
            None => Seq::empty(),
        },
        e.suburb_offset as int,
    )
}

/// The strings that a candidate needs in a pool. One whose name has no key needs
/// none.
pub open spec fn cand_texts(c: CandText) -> Seq<Seq<char>> {
    if name_key(c.name).len() == 0 {
        Seq::empty()
    } else {
        seq![
            c.name,
            match c.suburb {
                Some(s) => s,
                None => Seq::empty(),
            },
        ]
    }
}

/// Whether a list of keys has `k`.
pub open spec fn in_order(order: Seq<String>, k: Seq<char>) -> bool {
    exists|i: int| 0 <= i < order.len() && #[trigger] order[i]@ == k
}

impl NameIndex {
    pub open spec fn wf(&self) -> bool {
        &&& self.pool.wf()
        &&& self.pool.bytes().len() > 0
        &&& self.pool.bytes()[0] == 0
        &&& self.pool.texts().contains(Seq::empty())
        &&& self.pool.bytes().last() == 0
        &&& self.entries@.len() == self.sources@.len()
        &&& forall|i: int|
            0 <= i < self.entries@.len() ==> entry_stands_for(
                #[trigger] self.entries@[i],
                self.sources@[i],
                self.pool.bytes(),
            )
        &&& forall|k: Seq<char>| #[trigger]
            self.keys@.contains_key(k) ==> self.keys@[k] < self.entries@.len() && indexed_under(
                self.sources@[self.keys@[k] as int],
                k,
            )
        &&& forall|k: Seq<char>| #[trigger]
            self.keys@.contains_key(k) <==> in_order(self.order@, k)
        &&& forall|i: int, j: int|
            0 <= i < j < self.order@.len() ==> #[trigger] self.order@[i]@
                != #[trigger] self.order@[j]@
    }

    /// Every candidate is found under each of its keys, or else a candidate
    /// that is at least as prominent is.
    pub open spec fn complete(&self) -> bool {
        forall|i: int, k: Seq<char>|
            #![trigger indexed_under(self.sources@[i], k)]
            0 <= i < self.sources@.len() && indexed_under(self.sources@[i], k)
                ==> self.keys@.contains_key(k) && self.sources@[self.keys@[k] as int].rank
                <= self.sources@[i].rank
    }

    /// An index without candidates.
    pub fn new() -> (r: NameIndex)
        ensures
            r.wf(),
            r.complete(),
            r.sources@.len() == 0,
            r.keys@ == Map::<Seq<char>, u64>::empty(),
            r.pool.texts() == seq![Seq::<char>::empty()],
    {
        let pool = StringPool::new();
        assert(pool.texts()[0] == Seq::<char>::empty());
        NameIndex {
            entries: Vec::new(),
            pool,
            keys: StringHashMap::new(),
            order: Vec::new(),
            sources: Ghost(Seq::empty()),
        }
    }

    /// Whether the strings of a candidate fit into the pool.
    pub fn has_room(&self, cand: &NameCandidate<'_>) -> (r: bool)
        requires
            self.wf(),
        ensures
            r == (total(with_texts(self.pool.texts(), cand_texts(cand@))) <= u32::MAX),
    {
        if normalise_prefix(cand.name).as_str().is_empty() {
            return self.pool.len() as u128 <= u32::MAX as u128;
        }
        let suburb = match cand.suburb {
            Some(s) => s,
            None => "",
        };
        proof {
            reveal_strlit("");
            assert(""@ =~= Seq::<char>::empty());
        }
        let texts = [cand.name, suburb];
        assert(str_views(texts@) =~= cand_texts(cand@));
        self.pool.size_with(&texts) <= u32::MAX as u128
    }

    /// Puts the last record under a key, unless a record that is as prominent
    /// has the key already.
    fn insert_key(&mut self, key: String)
        requires
            old(self).wf(),
            old(self).entries@.len() > 0,
            indexed_under(old(self).sources@.last(), key@),
        ensures
            final(self).wf(),
            final(self).entries == old(self).entries,
            final(self).pool == old(self).pool,
            final(self).sources == old(self).sources,
            final(self).keys@ == ({
                let last = old(self).entries@.len() - 1;
                if old(self).keys@.contains_key(key@) && old(self).entries@[old(self).keys@[key@] as int].rank
                    <= old(self).entries@[last].rank {
                    old(self).keys@
                } else {
                    old(self).keys@.insert(key@, last as u64)
                }
            }),
    {
        let last: u64 = (self.entries.len() - 1) as u64;
        let rank: u8 = self.entries[self.entries.len() - 1].rank;
        let ghost before = *self;
        match self.keys.get(key.as_str()) {
            Some(at) => {
                let at: u64 = *at;
                assert(self.keys@.contains_key(key@));
                if rank < self.entries[at as usize].rank {
                    self.keys.insert(key, last);
                    proof {
                        assert forall|k: Seq<char>| #[trigger]
                            self.keys@.contains_key(k) <==> in_order(self.order@, k) by {
                            assert(self.keys@.contains_key(k) <==> before.keys@.contains_key(k));
                        }
                        assert forall|k: Seq<char>| #[trigger]
                            self.keys@.contains_key(k) implies self.keys@[k] < self.entries@.len()
                            && indexed_under(self.sources@[self.keys@[k] as int], k) by {
                            if k != key@ {
                                assert(before.keys@.contains_key(k));
                            }
                        }
                    }
                }
            },
            None => {
                let copy = key.clone();
                self.order.push(copy);
                self.keys.insert(key, last);
                proof {
                    let n = before.order@.len() as int;
                    assert(self.order@[n]@ == key@);
                    assert(forall|i: int| 0 <= i < n ==> #[trigger] self.order@[i] == before.order@[i]);
                    assert forall|k: Seq<char>| #[trigger]
                        self.keys@.contains_key(k) <==> in_order(self.order@, k) by {
                        if k != key@ {
                            assert(self.keys@.contains_key(k) <==> before.keys@.contains_key(k));
                            if in_order(before.order@, k) {
                                let i = choose|i: int| 0 <= i < n && #[trigger] before.order@[i]@ == k;
                                assert(self.order@[i]@ == k);
                            }
                            if in_order(self.order@, k) {
                                let i = choose|i: int|
                                    0 <= i < self.order@.len() && #[trigger] self.order@[i]@ == k;
                                assert(before.order@[i]@ == k);
                            }
                        }
                    }
                    assert forall|i: int, j: int| 0 <= i < j < self.order@.len() implies #[trigger]
                        self.order@[i]@ != #[trigger] self.order@[j]@ by {
                        assert(self.order@[i] == before.order@[i]);
                        if j < n {
                            assert(self.order@[j] == before.order@[j]);
                        } else {
                            assert(before.order@[i]@ != key@) by {
                                if before.order@[i]@ == key@ {
                                    assert(in_order(before.order@, key@));
                                    assert(before.keys@.contains_key(key@));
                                }
                            }
                        }
                    }
                    assert forall|k: Seq<char>| #[trigger]
                        self.keys@.contains_key(k) implies self.keys@[k] < self.entries@.len()
                        && indexed_under(self.sources@[self.keys@[k] as int], k) by {
                        if k != key@ {
                            assert(before.keys@.contains_key(k));
                        }
                    }
                }
            },
        }
    }

    /// The keys once the last record was put under some keys more: those that
    /// satisfy `p`.
    pub open spec fn keys_with(
        entries: Seq<AutocompleteEntry>,
        keys: Map<Seq<char>, u64>,
        p: spec_fn(Seq<char>) -> bool,
    ) -> Map<Seq<char>, u64> {
        let last = entries.len() - 1;
        Map::new(
            |k: Seq<char>| keys.contains_key(k) || p(k),
            |k: Seq<char>|
                if p(k) && !(keys.contains_key(k) && entries[keys[k] as int].rank
                    <= entries[last].rank) {
                    last as u64
                } else {
                    keys[k]
                },
        )
    }

    /// Takes a candidate in.
    pub fn ingest(&mut self, cand: &NameCandidate<'_>)
        requires
            old(self).wf(),
            total(with_texts(old(self).pool.texts(), cand_texts(cand@))) <= u32::MAX,
        ensures
            final(self).wf(),
            old(self).complete() ==> final(self).complete(),
            final(self).pool.texts() == with_texts(old(self).pool.texts(), cand_texts(cand@)),
            if name_key(cand@.name).len() == 0 {
                *final(self) == *old(self)
            } else {
                &&& final(self).sources@ == old(self).sources@.push(cand@)
                &&& final(self).entries@.drop_last() == old(self).entries@
                &&& final(self).keys@ == Self::keys_with(
                    final(self).entries@,
                    old(self).keys@,
                    |k: Seq<char>| indexed_under(cand@, k),
                )
            },
    {
        let key = normalise_prefix(cand.name);
        if key.as_str().is_empty() {
            return ;
        }
        let ghost before = *self;
        self.add_entry(cand);
        let ghost mid = *self;
        assert(self.entries.len() <= u64::MAX);
        let ghost none = |k: Seq<char>| false;
        assert(self.keys@ =~= Self::keys_with(mid.entries@, before.keys@, none)) by {
            assert(self.keys@ == before.keys@);
        }
        let ghost c = cand@;
        let ghost mut done: spec_fn(Seq<char>) -> bool = none;
        for i in 0..cand.aliases.len()
            invariant
                c == cand@,
                key@ == name_key(c.name),
                key@.len() > 0,
                self.wf(),
                self.entries == mid.entries,
                self.pool == mid.pool,
                self.sources == mid.sources,
                mid.sources@.len() > 0,
                mid.sources@.last() == c,
                mid.entries@.len() == mid.sources@.len(),
                mid.entries@.len() <= u64::MAX,
                mid.entries@.drop_last() == before.entries@,
                before.wf(),
                self.keys@ == Self::keys_with(mid.entries@, before.keys@, done),
                forall|k: Seq<char>| #[trigger]
                    done(k) <==> k.len() > 0 && k != key@ && exists|j: int|
                        0 <= j < i && name_key(#[trigger] c.aliases[j]) == k,
        {
            let alias_key = normalise_prefix(cand.aliases[i]);
            assert(c.aliases[i as int] == cand.aliases@[i as int]@);
            let ghost was = done;
            if !alias_key.as_str().is_empty() && !str_eq(alias_key.as_str(), key.as_str()) {
                let ghost k0 = alias_key@;
                assert(indexed_under(c, k0));
                self.insert_key(alias_key);
                proof {
                    done = |k: Seq<char>| was(k) || k == k0;
                    lemma_keys_step(mid.entries@, before.entries@, before.keys@, was, k0);
                }
            }
            proof {
                assert forall|k: Seq<char>| #[trigger] done(k) <==> k.len() > 0 && k != key@ && exists|j: int|
                    0 <= j < i + 1 && name_key(#[trigger] c.aliases[j]) == k by {
                    assert(was(k) <==> k.len() > 0 && k != key@ && exists|j: int|
                        0 <= j < i && name_key(#[trigger] c.aliases[j]) == k);
                    assert(k == name_key(c.aliases[i as int]) ==> exists|j: int|
                        0 <= j < i + 1 && name_key(#[trigger] c.aliases[j]) == k);
                }
            }
        }
        let ghost n = cand.aliases@.len() as int;
        let ghost aliased = done;
        if let Some(stripped) = strip_leading_article(cand.name) {
            let stripped_k = normalise_prefix(stripped.as_str());
            if !stripped_k.as_str().is_empty() && !str_eq(stripped_k.as_str(), key.as_str()) {
                let ghost k0 = stripped_k@;
                assert(indexed_under(c, k0));
                self.insert_key(stripped_k);
                proof {
                    done = |k: Seq<char>| aliased(k) || k == k0;
                    lemma_keys_step(mid.entries@, before.entries@, before.keys@, aliased, k0);
                }
            }
        }
        let ghost named = done;
        assert(forall|k: Seq<char>| #[trigger]
            named(k) <==> aliased(k) || (k.len() > 0 && k != key@ && stripped_key(c.name, k)));
        for i in 0..cand.aliases.len()
            invariant
                c == cand@,
                key@ == name_key(c.name),
                key@.len() > 0,
                self.wf(),
                self.entries == mid.entries,
                self.pool == mid.pool,
                self.sources == mid.sources,
                mid.sources@.len() > 0,
                mid.sources@.last() == c,
                mid.entries@.len() == mid.sources@.len(),
                mid.entries@.len() <= u64::MAX,
                mid.entries@.drop_last() == before.entries@,
                before.wf(),
                self.keys@ == Self::keys_with(mid.entries@, before.keys@, done),
                forall|k: Seq<char>| #[trigger]
                    done(k) <==> named(k) || (k.len() > 0 && k != key@ && exists|j: int|
                        0 <= j < i && stripped_key(#[trigger] c.aliases[j], k)),
        {
            assert(c.aliases[i as int] == cand.aliases@[i as int]@);
            let ghost was = done;
            if let Some(stripped) = strip_leading_article(cand.aliases[i]) {
                let stripped_k = normalise_prefix(stripped.as_str());
                if !stripped_k.as_str().is_empty() && !str_eq(stripped_k.as_str(), key.as_str()) {
                    let ghost k0 = stripped_k@;
                    assert(stripped_key(c.aliases[i as int], k0));
                    assert(indexed_under(c, k0));
                    self.insert_key(stripped_k);
                    proof {
                        done = |k: Seq<char>| was(k) || k == k0;
                        lemma_keys_step(mid.entries@, before.entries@, before.keys@, was, k0);
                    }
                }
            }
            proof {
                assert forall|k: Seq<char>| #[trigger] done(k) <==> named(k) || (k.len() > 0 && k
                    != key@ && exists|j: int| 0 <= j < i + 1 && stripped_key(#[trigger] c.aliases[j], k)) by {
                    assert(was(k) <==> named(k) || (k.len() > 0 && k != key@ && exists|j: int|
                        0 <= j < i && stripped_key(#[trigger] c.aliases[j], k)));
                    assert(stripped_key(c.aliases[i as int], k) ==> exists|j: int|
                        0 <= j < i + 1 && stripped_key(#[trigger] c.aliases[j], k));
                }
            }
        }
        let ghost stripped = done;
        for i in 0..cand.spellings.len()
            invariant
                c == cand@,
                key@ == name_key(c.name),
                key@.len() > 0,
                self.wf(),
                self.entries == mid.entries,
                self.pool == mid.pool,
                self.sources == mid.sources,
                mid.sources@.len() > 0,
                mid.sources@.last() == c,
                mid.entries@.len() == mid.sources@.len(),
                mid.entries@.len() <= u64::MAX,
                mid.entries@.drop_last() == before.entries@,
                before.wf(),
                self.keys@ == Self::keys_with(mid.entries@, before.keys@, done),
                forall|k: Seq<char>| #[trigger]
                    done(k) <==> stripped(k) || (k.len() > 0 && k != key@ && exists|j: int|
                        0 <= j < i && name_key(#[trigger] c.spellings[j]) == k),
        {
            let spelt_key = normalise_prefix(cand.spellings[i].as_str());
            assert(c.spellings[i as int] == cand.spellings@[i as int]@);
            let ghost was = done;
            if !spelt_key.as_str().is_empty() && !str_eq(spelt_key.as_str(), key.as_str()) {
                let ghost k0 = spelt_key@;
                assert(indexed_under(c, k0));
                self.insert_key(spelt_key);
                proof {
                    done = |k: Seq<char>| was(k) || k == k0;
                    lemma_keys_step(mid.entries@, before.entries@, before.keys@, was, k0);
                }
            }
            proof {
                assert forall|k: Seq<char>| #[trigger] done(k) <==> stripped(k) || (k.len() > 0 && k
                    != key@ && exists|j: int| 0 <= j < i + 1 && name_key(#[trigger] c.spellings[j]) == k) by {
                    assert(was(k) <==> stripped(k) || (k.len() > 0 && k != key@ && exists|j: int|
                        0 <= j < i && name_key(#[trigger] c.spellings[j]) == k));
                    assert(k == name_key(c.spellings[i as int]) ==> exists|j: int|
                        0 <= j < i + 1 && name_key(#[trigger] c.spellings[j]) == k);
                }
            }
        }
        let ghost m = cand.spellings@.len() as int;
        let ghost most = done;
        let ghost k0 = key@;
        assert(indexed_under(c, k0));
        self.insert_key(key);
        proof {
            lemma_keys_step(mid.entries@, before.entries@, before.keys@, most, k0);
            let all = |k: Seq<char>| most(k) || k == k0;
            let want = |k: Seq<char>| indexed_under(c, k);
            assert forall|k: Seq<char>| #[trigger] all(k) == want(k) by {
                assert(most(k) <==> stripped(k) || (k.len() > 0 && k != k0 && exists|j: int|
                    0 <= j < m && name_key(#[trigger] c.spellings[j]) == k));
                assert(stripped(k) <==> named(k) || (k.len() > 0 && k != k0 && exists|j: int|
                    0 <= j < n && stripped_key(#[trigger] c.aliases[j], k)));
                assert(named(k) <==> aliased(k) || (k.len() > 0 && k != k0 && stripped_key(c.name, k)));
                assert(aliased(k) <==> k.len() > 0 && k != k0 && exists|j: int|
                    0 <= j < n && name_key(#[trigger] c.aliases[j]) == k);
            }
            assert(Self::keys_with(mid.entries@, before.keys@, all) =~= Self::keys_with(
                mid.entries@,
                before.keys@,
                want,
            ));
            if before.complete() {
                let last = before.sources@.len() as int;
                assert forall|i: int, k: Seq<char>|
                    #![trigger indexed_under(self.sources@[i], k)]
                    0 <= i < self.sources@.len() && indexed_under(self.sources@[i], k) implies self.keys@.contains_key(
                k) && self.sources@[self.keys@[k] as int].rank <= self.sources@[i].rank by {
                    if before.keys@.contains_key(k) {
                        let o = before.keys@[k] as int;
                        assert(self.entries@[o] == before.entries@[o]);
                        assert(entry_stands_for(
                            before.entries@[o],
                            before.sources@[o],
                            before.pool.bytes(),
                        ));
                        assert(self.sources@[o] == before.sources@[o]);
                    }
                    assert(entry_stands_for(
                        self.entries@[last],
                        self.sources@[last],
                        self.pool.bytes(),
                    ));
                    if i < last {
                        assert(self.sources@[i] == before.sources@[i]);
                        assert(indexed_under(before.sources@[i], k));
                    }
                }
            }
        }
    }

    /// Makes a record of a candidate.
    fn add_entry(&mut self, cand: &NameCandidate<'_>)
        requires
            old(self).wf(),
            name_key(cand@.name).len() > 0,
            total(with_texts(old(self).pool.texts(), cand_texts(cand@))) <= u32::MAX,
        ensures
            final(self).wf(),
            final(self).keys == old(self).keys,
            final(self).order == old(self).order,
            final(self).sources@ == old(self).sources@.push(cand@),
            final(self).entries@.len() == old(self).entries@.len() + 1,
            final(self).entries@.drop_last() == old(self).entries@,
            final(self).pool.texts() == with_texts(old(self).pool.texts(), cand_texts(cand@)),
    {
        let ghost before = *self;
        proof {
            let held = self.pool.texts();
            let more = cand_texts(cand@);
            lemma_with_distinct(held, more);
            lemma_with_step(held, more, 0);
            lemma_with_step(held, more, 1);
            assert(more.take(0) =~= Seq::<Seq<char>>::empty());
            assert(more.take(2) =~= more);
            lemma_with_contains(held, more.take(1), Seq::empty());
            lemma_with_contains(held, more, Seq::empty());
            lemma_with_held(with_texts(held, more.take(1)), Seq::empty());
        }
        let ghost pool0 = self.pool.bytes();
        let name_offset: u32 = self.pool.intern(cand.name);
        let ghost pool1 = self.pool.bytes();
        assert(self.pool.offsets().contains_key(cand.name@));
        assert(stored_at(pool1, cand.name@, name_offset as int));
        let suburb_offset: u32 = match cand.suburb {
            Some(s) => {
                if s.is_empty() {
                    0
                } else {
                    self.pool.intern(s)
                }
            },
            None => 0,
        };
        let ghost pool2 = self.pool.bytes();
        let e = AutocompleteEntry {
            lat: cand.lat,
            lng: cand.lng,
            name_offset,
            suburb_offset,
            kind: cand.kind,
            rank: cand.rank,
        };
        self.entries.push(e);
        proof {
            self.sources@ = before.sources@.push(cand@);
            let more1 = pool1.skip(pool0.len() as int);
            let more2 = pool2.skip(pool1.len() as int);
            assert(pool1 =~= pool0 + more1);
            assert(pool2 =~= pool1 + more2);
            assert(pool2[0] == 0);
            law_growth_keeps_strings(pool1, more2, cand.name@, name_offset as int);
            let suburb = match cand@.suburb {
                Some(s) => s,
                None => Seq::empty(),
            };
            assert(stored_at(pool2, suburb, suburb_offset as int)) by {
                if suburb.len() == 0 {
                    assert(suburb =~= Seq::<char>::empty());
                    assert(encode_utf8(suburb) =~= Seq::<u8>::empty());
                    assert(pool2.subrange(0, 0) =~= Seq::<u8>::empty());
                } else {
                    assert(self.pool.offsets().contains_key(suburb));
                }
            }
            assert forall|i: int| 0 <= i < self.entries@.len() implies entry_stands_for(
                #[trigger] self.entries@[i],
                self.sources@[i],
                pool2,
            ) by {
                if i < before.entries@.len() {
                    assert(self.entries@[i] == before.entries@[i]);
                    assert(entry_stands_for(before.entries@[i], before.sources@[i], pool0));
                    let s = before.sources@[i];
                    let sub = match s.suburb {
                        Some(t) => t,
                        None => Seq::empty(),
                    };
                    law_growth_keeps_strings(pool0, more1, s.name, before.entries@[i].name_offset as int);
                    law_growth_keeps_strings(pool1, more2, s.name, before.entries@[i].name_offset as int);
                    law_growth_keeps_strings(pool0, more1, sub, before.entries@[i].suburb_offset as int);
                    law_growth_keeps_strings(pool1, more2, sub, before.entries@[i].suburb_offset as int);
                }
            }
            assert(self.entries@.drop_last() =~= before.entries@);
            assert forall|k: Seq<char>| #[trigger] self.keys@.contains_key(k) implies self.keys@[k]
                < self.entries@.len() && indexed_under(self.sources@[self.keys@[k] as int], k) by {
                assert(before.keys@.contains_key(k));
            }
            assert forall|k: Seq<char>| #[trigger] self.keys@.contains_key(k) <==> in_order(
                self.order@,
                k,
            ) by {
                assert(before.keys@.contains_key(k) <==> in_order(before.order@, k));
            }
        }
    }
}

proof fn lemma_keys_step(
    entries: Seq<AutocompleteEntry>,
    before: Seq<AutocompleteEntry>,
    keys: Map<Seq<char>, u64>,
    p: spec_fn(Seq<char>) -> bool,
    k0: Seq<char>,
)
    requires
        entries.len() > 0,
        entries.len() <= u64::MAX,
        entries.drop_last() == before,
        forall|k: Seq<char>| #[trigger] keys.contains_key(k) ==> keys[k] < before.len(),
    ensures
        ({
            let mid = NameIndex::keys_with(entries, keys, p);
            let last = entries.len() - 1;
            NameIndex::keys_with(entries, keys, |k: Seq<char>| p(k) || k == k0) == (if mid.contains_key(
                k0,
            ) && entries[mid[k0] as int].rank <= entries[last].rank {
                mid
            } else {
                mid.insert(k0, last as u64)
            })
        }),
{
    let mid = NameIndex::keys_with(entries, keys, p);
    let last = entries.len() - 1;
    let q = |k: Seq<char>| p(k) || k == k0;
    let after = NameIndex::keys_with(entries, keys, q);
    let want = if mid.contains_key(k0) && entries[mid[k0] as int].rank <= entries[last].rank {
        mid
    } else {
        mid.insert(k0, last as u64)
    };
    assert forall|k: Seq<char>| after.contains_key(k) == want.contains_key(k) by {}
    assert forall|k: Seq<char>| after.contains_key(k) implies after[k] == want[k] by {
        if k == k0 {
            if keys.contains_key(k0) {
                assert(entries[keys[k0] as int] == before[keys[k0] as int]);
            }
        }
    }
    assert(after =~= want);
}

} // verus!
