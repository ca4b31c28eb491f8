//! What a merge does to the roster, and what follows for every sequence of
//! merges: the dead stay dead, a loser never takes part again, and each
//! merge removes exactly one body.

use vstd::prelude::*;
use crate::roster::{live_at, count_set, lemma_count_set_retire, succeeds};

verus! {

/// How the masses of the two bodies of a pair compare.
#[derive(Clone, Copy, Debug, PartialEq, Eq, Structural)]
pub enum MassOrder {
    /// The body with the lower index is strictly heavier.
    FirstHeavier,
    /// Both masses are exactly equal.
    Equal,
    /// The body with the higher index is strictly heavier.
    SecondHeavier,
}

/// One merge: `survivor` takes over the combined mass, `loser` dies.
#[derive(Clone, Copy, Debug, PartialEq, Eq, Structural)]
pub struct Collision {
    pub survivor: usize,
    pub loser: usize,
}

/// The merge of the pair `(first, second)`: the heavier body survives, and
/// on an exact tie the one named first.
pub open spec fn resolved(first: usize, second: usize, order: MassOrder) -> Collision {
    if order == MassOrder::SecondHeavier {
        Collision { survivor: second, loser: first }
    } else {
        Collision { survivor: first, loser: second }
    }
}

/// Decides who survives the merge of the pair `(first, second)`.
pub fn resolve(first: usize, second: usize, order: MassOrder) -> (collision: Collision)
    ensures
        collision == resolved(first, second, order),
{
    match order {
        MassOrder::SecondHeavier => Collision { survivor: second, loser: first },
        _ => Collision { survivor: first, loser: second },
    }
}

/// A merge may happen only between two different live bodies.
pub open spec fn admissible(flags: Seq<bool>, collision: Collision) -> bool {
    &&& collision.survivor != collision.loser
    &&& live_at(flags, collision.survivor as int)
    &&& live_at(flags, collision.loser as int)
}

/// The roster after a merge: the loser is dead, nothing else has changed.
pub open spec fn after(flags: Seq<bool>, collision: Collision) -> Seq<bool> {
    flags.update(collision.loser as int, false)
}

/// The roster after the merges of `history`, applied in order.
pub open spec fn replay(flags: Seq<bool>, history: Seq<Collision>) -> Seq<bool>
    decreases history.len(),
{
    if history.len() == 0 {
        flags
    } else {
        after(replay(flags, history.drop_last()), history.last())
    }
}

/// Every merge of `history` was admissible at the moment it happened.
pub open spec fn lawful(flags: Seq<bool>, history: Seq<Collision>) -> bool
    decreases history.len(),
{
    history.len() == 0 || {
        &&& lawful(flags, history.drop_last())
        &&& admissible(replay(flags, history.drop_last()), history.last())
    }
}

/// A lawful history that is cut short is still lawful.
pub proof fn lemma_lawful_prefix(flags: Seq<bool>, history: Seq<Collision>, n: int)
    requires
        lawful(flags, history),
        0 <= n <= history.len(),
    ensures
        lawful(flags, history.take(n)),
    decreases history.len(),
{
    if n == history.len() {
        assert(history.take(n) =~= history);
    } else {
        lemma_lawful_prefix(flags, history.drop_last(), n);
        assert(history.drop_last().take(n) =~= history.take(n));
    }
}

/// Merges never bring a body back: the roster keeps its length, and a body
/// that was dead before a history of merges is dead after it.
pub proof fn lemma_dead_stay_dead(flags: Seq<bool>, history: Seq<Collision>)
    requires
        lawful(flags, history),
    ensures
        replay(flags, history).len() == flags.len(),
        succeeds(flags, replay(flags, history)),
    decreases history.len(),
{
    if history.len() > 0 {
        lemma_dead_stay_dead(flags, history.drop_last());
    }
}

/// A dead body takes part in no merge, neither as survivor nor as loser:
/// whatever is dead when a history begins is in none of its merges.
pub proof fn lemma_dead_never_collide(
    flags: Seq<bool>,
    history: Seq<Collision>,
    dead: usize,
    at: int,
)
    requires
        lawful(flags, history),
        !live_at(flags, dead as int),
        0 <= at < history.len(),
    ensures
        history[at].survivor != dead,
        history[at].loser != dead,
{
    let before = history.take(at);
    lemma_lawful_prefix(flags, history, at);
    lemma_dead_stay_dead(flags, before);
    lemma_lawful_prefix(flags, history, at + 1);
    let through = history.take(at + 1);
    assert(through.drop_last() =~= before);
    assert(through.last() == history[at]);
    assert(admissible(replay(flags, before), history[at]));
}

/// Once a body has lost a merge, it takes part in no later one, neither as
/// survivor nor as loser.
pub proof fn lemma_loser_never_returns(
    flags: Seq<bool>,
    history: Seq<Collision>,
    earlier: int,
    later: int,
)
    requires
        lawful(flags, history),
        0 <= earlier < later < history.len(),
    ensures
        history[later].survivor != history[earlier].loser,
        history[later].loser != history[earlier].loser,
{
    // Right after the earlier merge its loser is dead, and the rest of the
    // history begins there.
    let upto = history.take(earlier + 1);
    lemma_lawful_prefix(flags, history, earlier + 1);
    assert(upto.last() == history[earlier]);
    lemma_dead_stay_dead(flags, upto.drop_last());
    lemma_replay_split(flags, history, earlier + 1);
    let rest = history.skip(earlier + 1);
    assert(rest[later - earlier - 1] == history[later]);
    lemma_dead_never_collide(
        replay(flags, upto),
        rest,
        history[earlier].loser,
        later - earlier - 1,
    );
}

/// Replaying a history is replaying its head and then its tail, and the
/// tail of a lawful history is lawful from where the head has led.
pub proof fn lemma_replay_split(flags: Seq<bool>, history: Seq<Collision>, n: int)
    requires
        lawful(flags, history),
        0 <= n <= history.len(),
    ensures
        replay(flags, history) == replay(replay(flags, history.take(n)), history.skip(n)),
        lawful(replay(flags, history.take(n)), history.skip(n)),
    decreases history.len(),
{
    if n == history.len() {
        assert(history.take(n) =~= history);
        assert(history.skip(n) =~= Seq::<Collision>::empty());
    } else {
        let shorter = history.drop_last();
        lemma_replay_split(flags, shorter, n);
        assert(shorter.take(n) =~= history.take(n));
        assert(history.skip(n).drop_last() =~= shorter.skip(n));
        assert(history.skip(n).last() == history.last());
    }
}

/// Two histories that follow one another make one history: if the second
/// is lawful from where the first has led, the two in a row are lawful from
/// the start and lead to the same roster.
pub proof fn lemma_histories_chain(
    flags: Seq<bool>,
    first: Seq<Collision>,
    second: Seq<Collision>,
)
    requires
        lawful(flags, first),
        lawful(replay(flags, first), second),
    ensures
        lawful(flags, first + second),
        replay(flags, first + second) == replay(replay(flags, first), second),
    decreases second.len(),
{
    if second.len() == 0 {
        assert(first + second =~= first);
    } else {
        lemma_histories_chain(flags, first, second.drop_last());
        assert((first + second).drop_last() =~= first + second.drop_last());
        assert((first + second).last() == second.last());
    }
}

/// Each merge removes exactly one body: the live bodies that are left and
/// the merges that happened add up to the live bodies there were.
pub proof fn lemma_headcount(flags: Seq<bool>, history: Seq<Collision>)
    requires
        lawful(flags, history),
    ensures
        count_set(replay(flags, history)) + history.len() == count_set(flags),
    decreases history.len(),
{
    if history.len() > 0 {
        lemma_headcount(flags, history.drop_last());
        lemma_dead_stay_dead(flags, history.drop_last());
        lemma_count_set_retire(
            replay(flags, history.drop_last()),
            history.last().loser as int,
        );
    }
}

/// The survivor of a merge is still live after it.
pub proof fn lemma_survivor_lives(flags: Seq<bool>, collision: Collision)
    requires
        admissible(flags, collision),
    ensures
        live_at(after(flags, collision), collision.survivor as int),
        !live_at(after(flags, collision), collision.loser as int),
{
}

} // verus!
