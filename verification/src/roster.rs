//! The index-stable record of which bodies are live.
//!
//! A body is live while its mass exceeds the minimum mass; a merged-away body
//! is dead. Bodies are referred to by index for as long as the simulation
//! runs, so an entry is never removed: a body that dies keeps its slot and
//! every other body keeps its index.

use vstd::prelude::*;

verus! {

/// How many of the flags are set.
pub open spec fn count_set(flags: Seq<bool>) -> nat
    decreases flags.len(),
{
    if flags.len() == 0 {
        0
    } else {
        count_set(flags.drop_last()) + if flags.last() {
            1nat
        } else {
            0nat
        }
    }
}

/// Whether `index` names a body of `flags` that is live.
pub open spec fn live_at(flags: Seq<bool>, index: int) -> bool {
    0 <= index < flags.len() && flags[index]
}

/// `after` has every body of `before` under its old index, and none of the
/// dead ones has come back to life.
pub open spec fn succeeds(before: Seq<bool>, after: Seq<bool>) -> bool {
    &&& before.len() <= after.len()
    &&& forall|k: int| 0 <= k < before.len() && !before[k] ==> !#[trigger] after[k]
}

/// No more flags are set than there are flags.
pub proof fn lemma_count_set_bounded(flags: Seq<bool>)
    ensures
        count_set(flags) <= flags.len(),
    decreases flags.len(),
{
    if flags.len() > 0 {
        lemma_count_set_bounded(flags.drop_last());
    }
}

/// Clearing a set flag lowers the count by exactly one; clearing a flag that
/// was already clear changes nothing.
pub proof fn lemma_count_set_retire(flags: Seq<bool>, index: int)
    requires
        0 <= index < flags.len(),
    ensures
        count_set(flags.update(index, false)) + (if flags[index] {
            1nat
        } else {
            0nat
        }) == count_set(flags),
    decreases flags.len(),
{
    let cleared = flags.update(index, false);
    if index == flags.len() - 1 {
        assert(cleared.drop_last() =~= flags.drop_last());
    } else {
        assert(cleared.drop_last() =~= flags.drop_last().update(index, false));
        lemma_count_set_retire(flags.drop_last(), index);
    }
}

/// Appending a flag raises the count by one exactly when the flag is set.
pub proof fn lemma_count_set_push(flags: Seq<bool>, live: bool)
    ensures
        count_set(flags.push(live)) == count_set(flags) + (if live {
            1nat
        } else {
            0nat
        }),
{
    assert(flags.push(live).drop_last() =~= flags);
}

/// The liveness of every body, by index.
pub struct Roster {
    alive: Vec<bool>,
}

impl View for Roster {
    type V = Seq<bool>;

    closed spec fn view(&self) -> Seq<bool> {
        self.alive@
    }
}

impl Roster {
    /// A roster without bodies.
    pub fn new() -> (roster: Roster)
        ensures
            roster@ == Seq::<bool>::empty(),
    {
        Roster { alive: Vec::new() }
    }

    /// A roster never holds more bodies than can be counted.
    pub proof fn lemma_len_fits(&self)
        ensures
            self@.len() <= usize::MAX,
    {
        let n = self.alive.len();
        assert(n == self.alive@.len());
    }

    /// The number of bodies, dead ones included.
    pub fn len(&self) -> (n: usize)
        ensures
            n == self@.len(),
    {
        self.alive.len()
    }

    /// Adds a body behind all the others and returns its index. No other
    /// body changes its index or its liveness.
    pub fn enroll(&mut self, live: bool) -> (index: usize)
        ensures
            final(self)@ == old(self)@.push(live),
            index == old(self)@.len(),
            succeeds(old(self)@, final(self)@),
            count_set(final(self)@) == count_set(old(self)@) + (if live {
                1nat
            } else {
                0nat
            }),
    {
        proof {
            lemma_count_set_push(self.alive@, live);
        }
        let index = self.alive.len();
        self.alive.push(live);
        index
    }

    /// Whether `index` names a live body. An index past the end names none.
    pub fn is_live(&self, index: usize) -> (live: bool)
        ensures
            live == live_at(self@, index as int),
    {
        index < self.alive.len() && self.alive[index]
    }

    /// Marks the body at `index` dead. It keeps its slot, and so does every
    /// other body.
    pub fn retire(&mut self, index: usize)
        requires
            index < old(self)@.len(),
        ensures
            final(self)@ == old(self)@.update(index as int, false),
            succeeds(old(self)@, final(self)@),
            count_set(final(self)@) + (if old(self)@[index as int] {
                1nat
            } else {
                0nat
            }) == count_set(old(self)@),
    {
        proof {
            lemma_count_set_retire(self.alive@, index as int);
        }
        self.alive.set(index, false);
    }

    /// The number of live bodies.
    pub fn count_live(&self) -> (count: usize)
        ensures
            count == count_set(self@),
    {
        count_flags(&self.alive)
    }
}

/// Counts the flags that are set.
pub fn count_flags(flags: &Vec<bool>) -> (count: usize)
    ensures
        count == count_set(flags@),
{
    let mut count: usize = 0;
    let mut k: usize = 0;
    while k < flags.len()
        invariant
            k <= flags.len(),
            count == count_set(flags@.take(k as int)),
            count <= k,
        decreases flags.len() - k,
    {
        proof {
            let next = flags@.take(k as int + 1);
            assert(next.drop_last() =~= flags@.take(k as int));
        }
        if flags[k] {
            count = count + 1;
        }
        k = k + 1;
    }
    proof {
        assert(flags@.take(k as int) =~= flags@);
    }
    count
}

} // verus!
