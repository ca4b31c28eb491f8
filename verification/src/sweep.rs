//! The collision sweep of one tick, as a state machine.
//!
//! The sweep walks the pairs `(i, j)`, `i < j`, in ascending order and stops
//! at each pair whose two bodies are live: the candidate. The caller measures
//! the candidate and answers with `pass` (the bodies are apart) or `merge`
//! (they overlap); either answer moves the sweep on to the next candidate.
//! A pair with a dead body is never offered.

use vstd::prelude::*;
use crate::merge::{
    admissible, after, lawful, lemma_dead_stay_dead, lemma_headcount, replay, resolve, resolved,
    Collision, MassOrder,
};
use crate::roster::{lemma_count_set_bounded, count_set, Roster};

verus! {

/// `pair` names two different bodies of `flags`, lower index first, both live.
pub open spec fn both_live(flags: Seq<bool>, pair: (int, int)) -> bool {
    &&& 0 <= pair.0 < pair.1 < flags.len()
    &&& flags[pair.0]
    &&& flags[pair.1]
}

/// The order in which the sweep walks the pairs.
pub open spec fn precedes(a: (int, int), b: (int, int)) -> bool {
    a.0 < b.0 || (a.0 == b.0 && a.1 < b.1)
}

/// `found` is the first pair at or after `from` whose bodies are both live,
/// or `None` where there is no such pair.
pub open spec fn first_live_pair(
    flags: Seq<bool>,
    from: (int, int),
    found: Option<(int, int)>,
) -> bool {
    match found {
        Some(pair) => {
            &&& both_live(flags, pair)
            &&& !precedes(pair, from)
            &&& forall|q: (int, int)|
                !precedes(q, from) && precedes(q, pair) ==> !#[trigger] both_live(flags, q)
        },
        None => forall|q: (int, int)| !precedes(q, from) ==> !#[trigger] both_live(flags, q),
    }
}

/// There is one first pair and no other: what `first_live_pair` says of a
/// result, it says of one result only.
pub proof fn lemma_first_live_pair_unique(
    flags: Seq<bool>,
    from: (int, int),
    a: Option<(int, int)>,
    b: Option<(int, int)>,
)
    requires
        first_live_pair(flags, from, a),
        first_live_pair(flags, from, b),
    ensures
        a == b,
{
    match (a, b) {
        (Some(p), Some(q)) => {
            assert(both_live(flags, p) && both_live(flags, q));
            if precedes(p, q) || precedes(q, p) {
                assert(false);
            }
        },
        (Some(p), None) => {
            assert(both_live(flags, p));
        },
        (None, Some(q)) => {
            assert(both_live(flags, q));
        },
        (None, None) => {},
    }
}

/// The pair that a merge was made of, lower index first.
pub open spec fn pair_of(collision: Collision) -> (int, int) {
    if collision.survivor < collision.loser {
        (collision.survivor as int, collision.loser as int)
    } else {
        (collision.loser as int, collision.survivor as int)
    }
}

/// The merges were made of pairs in the order of the sweep, no pair twice.
pub open spec fn in_sweep_order(history: Seq<Collision>) -> bool {
    forall|a: int, b: int|
        0 <= a < b < history.len() ==> precedes(
            pair_of(#[trigger] history[a]),
            pair_of(#[trigger] history[b]),
        )
}

/// A sweep in progress. It holds the roster until `finish` hands it back.
pub struct Sweep {
    roster: Roster,
    first: usize,
    second: usize,
    collisions: usize,
    origin: Ghost<Seq<bool>>,
    history: Ghost<Seq<Collision>>,
}

impl Sweep {
    /// The liveness of the bodies as the sweep has left it so far.
    pub closed spec fn flags(&self) -> Seq<bool> {
        self.roster@
    }

    /// The liveness of the bodies when the sweep began.
    pub closed spec fn origin(&self) -> Seq<bool> {
        self.origin@
    }

    /// The merges of this sweep so far, in order.
    pub closed spec fn history(&self) -> Seq<Collision> {
        self.history@
    }

    /// The pair that awaits the caller's answer, if the sweep is not over.
    pub closed spec fn pending(&self) -> Option<(int, int)> {
        if self.first < self.roster@.len() {
            Some((self.first as int, self.second as int))
        } else {
            None
        }
    }

    /// What holds of every sweep between `begin` and `finish`.
    pub closed spec fn wf(&self) -> bool {
        &&& self.first <= self.roster@.len()
        &&& self.first < self.roster@.len() ==> both_live(
            self.roster@,
            (self.first as int, self.second as int),
        )
        &&& lawful(self.origin@, self.history@)
        &&& replay(self.origin@, self.history@) == self.roster@
        &&& self.collisions == self.history@.len()
        &&& in_sweep_order(self.history@)
        &&& forall|k: int|
            0 <= k < self.history@.len() ==> {
                let pair = pair_of(#[trigger] self.history@[k]);
                pair.0 < self.first || (pair.0 == self.first && pair.1 < self.second)
            }
    }

    /// The merges of a sweep follow the order of the pairs: each was made of
    /// a pair behind the pairs of all the merges before it.
    pub proof fn lemma_history_in_order(&self)
        requires
            self.wf(),
        ensures
            in_sweep_order(self.history()),
    {
    }

    /// Moves the cursor from `(first, second)` to the first pair at or after
    /// it whose bodies are both live, or to the end.
    fn seek(&mut self)
        requires
            old(self).first < old(self).second <= old(self).roster@.len(),
        ensures
            final(self).roster == old(self).roster,
            final(self).collisions == old(self).collisions,
            final(self).origin == old(self).origin,
            final(self).history == old(self).history,
            final(self).first <= final(self).roster@.len(),
            !precedes(
                (final(self).first as int, final(self).second as int),
                (old(self).first as int, old(self).second as int),
            ),
            first_live_pair(
                old(self).roster@,
                (old(self).first as int, old(self).second as int),
                final(self).pending(),
            ),
    {
        let n = self.roster.len();
        let ghost flags = self.roster@;
        let ghost from = (self.first as int, self.second as int);
        while self.first < n
            invariant
                n == flags.len(),
                self.roster@ == flags,
                from == (old(self).first as int, old(self).second as int),
                self.roster == old(self).roster,
                self.collisions == old(self).collisions,
                self.origin == old(self).origin,
                self.history == old(self).history,
                self.first <= n,
                self.first < n ==> self.first < self.second <= n,
                !precedes((self.first as int, self.second as int), from),
                forall|q: (int, int)|
                    !precedes(q, from) && (self.first >= n || precedes(
                        q,
                        (self.first as int, self.second as int),
                    )) ==> !#[trigger] both_live(flags, q),
            decreases n - self.first, n - self.second,
        {
            if !self.roster.is_live(self.first) || self.second >= n {
                self.first = self.first + 1;
                if self.first < n {
                    self.second = self.first + 1;
                }
            } else if !self.roster.is_live(self.second) {
                self.second = self.second + 1;
            } else {
                return ;
            }
        }
    }

    /// Starts a sweep over `roster` and stops at its first candidate.
    pub fn begin(roster: Roster) -> (sweep: Sweep)
        ensures
            sweep.wf(),
            sweep.flags() == roster@,
            sweep.origin() == roster@,
            sweep.history() == Seq::<Collision>::empty(),
            first_live_pair(roster@, (0, 1), sweep.pending()),
    {
        let ghost flags = roster@;
        let n = roster.len();
        let mut sweep = Sweep {
            roster,
            first: 0,
            second: 1,
            collisions: 0,
            origin: Ghost(flags),
            history: Ghost(Seq::empty()),
        };
        if n == 0 {
            return sweep;
        }
        sweep.seek();
        sweep
    }

    /// The pair that awaits an answer, lower index first; `None` when every
    /// pair has been dealt with.
    pub fn candidate(&self) -> (pair: Option<(usize, usize)>)
        requires
            self.wf(),
        ensures
            match pair {
                Some(p) => self.pending() == Some((p.0 as int, p.1 as int)),
                None => self.pending().is_none(),
            },
            self.pending() matches Some(p) ==> both_live(self.flags(), p),
    {
        if self.first < self.roster.len() {
            Some((self.first, self.second))
        } else {
            None
        }
    }

    /// The answer "apart": nothing changes but the candidate, which becomes
    /// the next pair of live bodies. After the last candidate, nothing
    /// changes at all.
    pub fn pass(&mut self)
        requires
            old(self).wf(),
        ensures
            final(self).wf(),
            final(self).flags() == old(self).flags(),
            final(self).origin() == old(self).origin(),
            final(self).history() == old(self).history(),
            match old(self).pending() {
                Some(p) => first_live_pair(old(self).flags(), (p.0, p.1 + 1), final(self).pending()),
                None => final(self).pending().is_none(),
            },
    {
        if self.first < self.roster.len() {
            self.second = self.second + 1;
            self.seek();
        }
    }

    /// The answer "overlapping": the two bodies of the candidate merge. The
    /// heavier one survives, on a tie the one with the lower index; the
    /// other dies and keeps its slot. The sweep moves on to the next pair of
    /// bodies that are live after the merge. After the last candidate there
    /// is nothing to merge: the result is `None` and nothing changes.
    pub fn merge(&mut self, order: MassOrder) -> (outcome: Option<Collision>)
        requires
            old(self).wf(),
        ensures
            final(self).wf(),
            final(self).origin() == old(self).origin(),
            match old(self).pending() {
                Some(p) => {
                    let collision = resolved(p.0 as usize, p.1 as usize, order);
                    &&& outcome == Some(collision)
                    &&& admissible(old(self).flags(), collision)
                    &&& final(self).flags() == after(old(self).flags(), collision)
                    &&& final(self).history() == old(self).history().push(collision)
                    &&& first_live_pair(final(self).flags(), (p.0, p.1 + 1), final(self).pending())
                },
                None => {
                    &&& outcome.is_none()
                    &&& final(self).flags() == old(self).flags()
                    &&& final(self).history() == old(self).history()
                    &&& final(self).pending().is_none()
                },
            },
    {
        if self.first >= self.roster.len() {
            return None;
        }
        let collision = resolve(self.first, self.second, order);
        proof {
            let grown = self.history@.push(collision);
            assert(grown.drop_last() =~= self.history@);
            assert(lawful(self.origin@, grown));
            lemma_headcount(self.origin@, grown);
            lemma_count_set_bounded(self.origin@);
            lemma_dead_stay_dead(self.origin@, self.history@);
        }
        self.roster.retire(collision.loser);
        self.collisions = self.collisions + 1;
        self.history = Ghost(self.history@.push(collision));
        self.second = self.second + 1;
        self.seek();
        Some(collision)
    }

    /// The number of merges so far.
    pub fn collisions(&self) -> (count: usize)
        requires
            self.wf(),
        ensures
            count == self.history().len(),
    {
        self.collisions
    }

    /// Ends the sweep: hands back the roster and the number of merges.
    pub fn finish(self) -> (done: (Roster, usize))
        requires
            self.wf(),
        ensures
            done.0@ == self.flags(),
            done.1 == self.history().len(),
            lawful(self.origin(), self.history()),
            replay(self.origin(), self.history()) == self.flags(),
            in_sweep_order(self.history()),
            count_set(self.flags()) + self.history().len() == count_set(self.origin()),
    {
        proof {
            lemma_headcount(self.origin@, self.history@);
        }
        (self.roster, self.collisions)
    }
}

} // verus!
