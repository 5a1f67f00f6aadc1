//! The automaton that scopes a walk over the unified index to a country.
use vstd::prelude::*;
use vstd::utf8::encode_utf8;
use crate::fst_map::begins;
use crate::openaddresses::{lower_code, normalise_code};

verus! {

broadcast use vstd::seq::group_seq_axioms;

/// Matches the keys that begin with a country code and a prefix, or in exact
/// mode the one key that is the two together.
#[derive(Clone, Copy)]
pub struct CountryPrefixAutomaton<'a> {
    cc: [u8; 2],
    tail: &'a [u8],
    exact: bool,
}

/// How much of a key the automaton has seen.
#[derive(Clone, Copy, Debug, PartialEq, Eq, Structural)]
pub enum CpaState {
    /// Nothing: the first letter of the country code comes next.
    NeedCc0,
    /// The first letter: the second comes next.
    NeedCc1,
    /// The country code and this many bytes of the tail.
    MatchingPrefix(usize),
    /// The country code, the tail, and more.
    PastPrefix,
    /// Something else: no key that goes on like this matches.
    Dead,
}

impl<'a> CountryPrefixAutomaton<'a> {
    /// What the keys begin with.
    pub closed spec fn goal(&self) -> Seq<u8> {
        self.cc@ + self.tail@
    }

    /// Whether only the goal itself matches.
    pub closed spec fn is_exact(&self) -> bool {
        self.exact
    }

    /// Whether a key matches.
    pub open spec fn accepts(&self, key: Seq<u8>) -> bool {
        if self.is_exact() {
            key == self.goal()
        } else {
            begins(key, self.goal())
        }
    }

    /// Whether `state` is what the automaton is in once it has seen `key`.
    pub closed spec fn seen(&self, key: Seq<u8>, state: CpaState) -> bool {
        let n = key.len() as int;
        match state {
            CpaState::NeedCc0 => n == 0,
            CpaState::NeedCc1 => n == 1 && begins(self.goal(), key),
            CpaState::MatchingPrefix(i) => n == i + 2 && i <= self.tail@.len() && begins(
                self.goal(),
                key,
            ),
            CpaState::PastPrefix => n > self.goal().len() && begins(key, self.goal())
                && !self.exact,
            CpaState::Dead => !begins(self.goal(), key) && (self.exact || !begins(
                key,
                self.goal(),
            )),
        }
    }

    /// The keys that begin with a country code, in any case, and a prefix.
    pub fn starts_with(cc: [u8; 2], prefix: &'a str) -> (r: Self)
        ensures
            r.goal() == lower_code(cc)@ + encode_utf8(prefix@),
            !r.is_exact(),
    {
        CountryPrefixAutomaton { cc: normalise_code(&cc), tail: prefix.as_bytes(), exact: false }
    }

    /// The one key that is a country code, in any case, and a name.
    pub fn equals(cc: [u8; 2], key: &'a str) -> (r: Self)
        ensures
            r.goal() == lower_code(cc)@ + encode_utf8(key@),
            r.is_exact(),
    {
        CountryPrefixAutomaton { cc: normalise_code(&cc), tail: key.as_bytes(), exact: true }
    }

    /// The state before the first byte.
    pub fn start(&self) -> (r: CpaState)
        ensures
            r == CpaState::NeedCc0,
            self.seen(Seq::empty(), r),
    {
        CpaState::NeedCc0
    }

    /// Whether a key that ends in this state matches.
    pub fn is_match(&self, state: &CpaState) -> (r: bool)
        ensures
            r == self.matching(*state),
    {
        match state {
            CpaState::MatchingPrefix(i) => *i == self.tail.len(),
            CpaState::PastPrefix => !self.exact,
            _ => false,
        }
    }

    /// Whether a key that ends in this state matches.
    pub closed spec fn matching(&self, state: CpaState) -> bool {
        match state {
            CpaState::MatchingPrefix(i) => i == self.tail@.len(),
            CpaState::PastPrefix => !self.exact,
            _ => false,
        }
    }

    /// Whether a key can go on from this state and match.
    pub fn can_match(&self, state: &CpaState) -> (r: bool)
        ensures
            r == (*state != CpaState::Dead),
    {
        match state {
            CpaState::Dead => false,
            _ => true,
        }
    }

    /// Whether every key that goes on from this state matches.
    pub fn will_always_match(&self, state: &CpaState) -> (r: bool)
        ensures
            r == (!self.is_exact() && self.matching(*state)),
    {
        if self.exact {
            return false;
        }
        match state {
            CpaState::PastPrefix => true,
            CpaState::MatchingPrefix(i) => *i == self.tail.len(),
            _ => false,
        }
    }

    /// The state behind one more byte.
    pub closed spec fn next(&self, state: CpaState, byte: u8) -> CpaState {
        match state {
            CpaState::NeedCc0 => if byte == self.cc[0] {
                CpaState::NeedCc1
            } else {
                CpaState::Dead
            },
            CpaState::NeedCc1 => if byte == self.cc[1] {
                CpaState::MatchingPrefix(0)
            } else {
                CpaState::Dead
            },
            CpaState::MatchingPrefix(i) => if i < self.tail@.len() {
                if byte == self.tail@[i as int] {
                    CpaState::MatchingPrefix((i + 1) as usize)
                } else {
                    CpaState::Dead
                }
            } else if self.exact {
                CpaState::Dead
            } else {
                CpaState::PastPrefix
            },
            CpaState::PastPrefix => if self.exact {
                CpaState::Dead
            } else {
                CpaState::PastPrefix
            },
            CpaState::Dead => CpaState::Dead,
        }
    }

    /// Takes one more byte of a key.
    pub fn accept(&self, state: &CpaState, byte: u8) -> (r: CpaState)
        ensures
            r == self.next(*state, byte),
    {
        match state {
            CpaState::NeedCc0 => {
                if byte == self.cc[0] {
                    CpaState::NeedCc1
                } else {
                    CpaState::Dead
                }
            },
            CpaState::NeedCc1 => {
                if byte == self.cc[1] {
                    CpaState::MatchingPrefix(0)
                } else {
                    CpaState::Dead
                }
            },
            CpaState::MatchingPrefix(i) => {
                let n: usize = self.tail.len();
                if *i < n {
                    if byte == self.tail[*i] {
                        CpaState::MatchingPrefix(*i + 1)
                    } else {
                        CpaState::Dead
                    }
                } else if self.exact {
                    CpaState::Dead
                } else {
                    CpaState::PastPrefix
                }
            },
            CpaState::PastPrefix => {
                if self.exact {
                    CpaState::Dead
                } else {
                    CpaState::PastPrefix
                }
            },
            CpaState::Dead => CpaState::Dead,
        }
    }

    /// The state behind the bytes of a key.
    pub open spec fn run(&self, key: Seq<u8>) -> CpaState
        decreases key.len(),
    {
        if key.len() == 0 {
            CpaState::NeedCc0
        } else {
            self.next(self.run(key.drop_last()), key.last())
        }
    }

    proof fn lemma_step(&self, key: Seq<u8>, state: CpaState, byte: u8)
        requires
            self.seen(key, state),
            self.tail@.len() <= usize::MAX,
        ensures
            self.seen(key.push(byte), self.next(state, byte)),
    {
        let goal = self.goal();
        let longer = key.push(byte);
        let n = key.len() as int;
        assert(longer.drop_last() =~= key);
        assert(longer[n] == byte);
        assert(goal[0] == self.cc@[0] && goal[1] == self.cc@[1]);
        assert(forall|i: int| 0 <= i < self.tail@.len() ==> goal[i + 2] == #[trigger] self.tail@[i]);
        if let CpaState::MatchingPrefix(i) = state {
            if i < self.tail@.len() {
                assert(goal[n] == self.tail@[i as int]);
            }
        }
        if n == 0 {
            assert(goal.take(0) =~= key);
        }
        // A key that the goal begins with stays one if its next byte is the
        // goal's.
        if n < goal.len() {
            assert(goal.take(n + 1) =~= goal.take(n).push(goal[n]));
            if begins(goal, key) && byte == goal[n] {
                assert(goal.take(n + 1) =~= longer);
            }
            if begins(goal, longer) {
                assert(goal.take(n + 1)[n] == byte);
                assert(goal.take(n) =~= longer.take(n));
                assert(longer.take(n) =~= key);
            }
        }
        if begins(longer, goal) && n >= goal.len() {
            assert(longer.take(goal.len() as int) =~= key.take(goal.len() as int));
        }
        if begins(key, goal) {
            assert(longer.take(goal.len() as int) =~= key.take(goal.len() as int));
        }
        if n == goal.len() && begins(goal, key) {
            assert(goal.take(n) =~= goal);
            assert(key.take(n) =~= key);
        }
        if begins(longer, goal) && n + 1 == goal.len() {
            assert(longer.take(n + 1) =~= longer);
            assert(goal.take(n + 1) =~= goal);
        }
    }

    proof fn lemma_run(&self, key: Seq<u8>)
        ensures
            self.seen(key, self.run(key)),
        decreases key.len(),
    {
        if key.len() > 0 {
            self.lemma_run(key.drop_last());
            assert(self.tail.len() <= usize::MAX);
            self.lemma_step(key.drop_last(), self.run(key.drop_last()), key.last());
            assert(key.drop_last().push(key.last()) =~= key);
        }
    }

    /// The automaton matches exactly the keys that it should.
    pub proof fn law_matches_goal(&self, key: Seq<u8>)
        ensures
            self.matching(self.run(key)) == self.accepts(key),
    {
        self.lemma_run(key);
        let goal = self.goal();
        if begins(goal, key) && key.len() == goal.len() {
            assert(goal.take(key.len() as int) =~= goal);
        }
        if begins(key, goal) && key.len() == goal.len() {
            assert(key.take(goal.len() as int) =~= key);
            assert(goal.take(key.len() as int) =~= goal);
        }
        if key == goal {
            assert(key.take(goal.len() as int) =~= key);
        }
        if begins(key, goal) && begins(goal, key) {
            assert(key.len() == goal.len());
        }
    }

    /// Whether a state counts no more bytes of the tail than there are.
    pub open spec fn within(&self, state: CpaState) -> bool {
        match state {
            CpaState::MatchingPrefix(i) => i + 2 <= self.goal().len(),
            _ => true,
        }
    }

    /// A byte revives no dead state.
    pub proof fn law_step_keeps_dead(&self, byte: u8)
        ensures
            self.next(CpaState::Dead, byte) == CpaState::Dead,
    {
    }

    /// A byte takes the count of matched bytes up by one, and never beyond the
    /// tail.
    pub proof fn law_step_stays_within(&self, state: CpaState, byte: u8)
        requires
            self.within(state),
        ensures
            self.within(self.next(state, byte)),
            match (state, self.next(state, byte)) {
                (CpaState::MatchingPrefix(i), CpaState::MatchingPrefix(j)) => j == i + 1,
                (CpaState::NeedCc1, CpaState::MatchingPrefix(j)) => j == 0,
                (_, CpaState::MatchingPrefix(_)) => false,
                _ => true,
            },
    {
        assert(self.tail.len() <= usize::MAX);
    }

    /// An automaton for one key is never past its goal.
    pub proof fn law_exact_is_never_past(&self, state: CpaState, byte: u8)
        requires
            self.is_exact(),
        ensures
            self.next(state, byte) != CpaState::PastPrefix,
    {
    }

    /// An automaton for a prefix that has matched is past its goal from then on.
    pub proof fn law_prefix_stays_past(&self, state: CpaState, byte: u8)
        requires
            !self.is_exact(),
            self.matching(state),
        ensures
            self.next(state, byte) == CpaState::PastPrefix,
            self.matching(CpaState::PastPrefix),
    {
    }

    /// Whatever key was read, no more of the tail was counted than there is, and
    /// an automaton for one key is not past its goal.
    pub proof fn law_run_stays_within(&self, key: Seq<u8>)
        ensures
            self.within(self.run(key)),
            self.is_exact() ==> self.run(key) != CpaState::PastPrefix,
        decreases key.len(),
    {
        if key.len() > 0 {
            self.law_run_stays_within(key.drop_last());
            self.law_step_stays_within(self.run(key.drop_last()), key.last());
        }
    }

    /// A dead state stays dead: no longer key matches, so a walk may stop.
    pub proof fn law_dead_is_final(&self, key: Seq<u8>, more: Seq<u8>)
        requires
            self.run(key) == CpaState::Dead,
        ensures
            self.run(key + more) == CpaState::Dead,
            !self.accepts(key + more),
        decreases more.len(),
    {
        if more.len() > 0 {
            self.law_dead_is_final(key, more.drop_last());
            assert((key + more).drop_last() =~= key + more.drop_last());
        } else {
            assert(key + more =~= key);
        }
        self.law_matches_goal(key + more);
    }

    /// A state that will always match does: every longer key matches, so a walk
    /// may take them all.
    pub proof fn law_always_match_holds(&self, key: Seq<u8>, more: Seq<u8>)
        requires
            !self.is_exact(),
            self.matching(self.run(key)),
        ensures
            self.accepts(key + more),
    {
        self.law_matches_goal(key);
        let goal = self.goal();
        assert((key + more).take(goal.len() as int) =~= key.take(goal.len() as int));
    }
}

} // verus!
