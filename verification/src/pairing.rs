//! Which bodies act on which.
//!
//! Gravity acts between two different live bodies and between no others: a
//! dead body neither pulls nor is pulled. The force on a body is summed over
//! its sources; the potential energy of the system is summed over the pairs,
//! each counted once, at its lower index.

use vstd::prelude::*;
use crate::roster::{live_at, Roster};

verus! {

/// Whether the body `source` pulls at the body `target`.
pub open spec fn attracts(flags: Seq<bool>, target: int, source: int) -> bool {
    &&& target != source
    &&& live_at(flags, target)
    &&& live_at(flags, source)
}

/// The bodies with an index in `from..upto` that pull at `target`, in
/// ascending order.
pub open spec fn sources_within(flags: Seq<bool>, target: int, from: int, upto: int) -> Seq<usize>
    decreases upto - from,
{
    if upto <= from {
        Seq::empty()
    } else {
        let below = sources_within(flags, target, from, upto - 1);
        if attracts(flags, target, upto - 1) {
            below.push((upto - 1) as usize)
        } else {
            below
        }
    }
}

/// All the bodies that pull at `target`, in ascending order.
pub open spec fn sources(flags: Seq<bool>, target: int) -> Seq<usize> {
    sources_within(flags, target, 0, flags.len() as int)
}

/// The bodies behind `target` that pull at it, in ascending order: the
/// partners with which `target` forms a pair that is counted at `target`.
pub open spec fn later_sources(flags: Seq<bool>, target: int) -> Seq<usize> {
    sources_within(flags, target, target + 1, flags.len() as int)
}

/// The list holds exactly the bodies of the range that pull at the target,
/// each once, lowest index first.
pub proof fn lemma_sources_within(flags: Seq<bool>, target: int, from: int, upto: int)
    requires
        0 <= from,
        upto <= flags.len() <= usize::MAX,
    ensures
        forall|a: int, b: int|
            0 <= a < b < sources_within(flags, target, from, upto).len() ==> sources_within(
                flags,
                target,
                from,
                upto,
            )[a] < sources_within(flags, target, from, upto)[b],
        forall|j: usize| #[trigger]
            sources_within(flags, target, from, upto).contains(j) <==> from <= j < upto
                && attracts(flags, target, j as int),
    decreases upto - from,
{
    let list = sources_within(flags, target, from, upto);
    if upto > from {
        let below = sources_within(flags, target, from, upto - 1);
        lemma_sources_within(flags, target, from, upto - 1);
        assert forall|a: int| 0 <= a < below.len() implies below[a] < upto - 1 by {
            assert(below.contains(below[a]));
        }
        assert forall|j: usize| #[trigger]
            list.contains(j) <==> from <= j < upto && attracts(flags, target, j as int) by {
            if list.contains(j) {
                let at = choose|at: int| 0 <= at < list.len() && list[at] == j;
                if at < below.len() {
                    assert(below.contains(j));
                }
            }
            if from <= j < upto && attracts(flags, target, j as int) {
                if j < upto - 1 {
                    assert(below.contains(j));
                    let at = choose|at: int| 0 <= at < below.len() && below[at] == j;
                    assert(list[at] == j);
                } else {
                    assert(list[list.len() - 1] == j);
                }
            }
        }
    } else {
        assert forall|j: usize| !#[trigger] list.contains(j) by {}
    }
}

/// Attraction is mutual: whenever one body is among the sources of
/// another, the other is among its own.
pub proof fn lemma_attraction_mutual(flags: Seq<bool>, a: usize, b: usize)
    requires
        flags.len() <= usize::MAX,
    ensures
        attracts(flags, a as int, b as int) == attracts(flags, b as int, a as int),
        sources(flags, a as int).contains(b) == sources(flags, b as int).contains(a),
{
    lemma_sources_within(flags, a as int, 0, flags.len() as int);
    lemma_sources_within(flags, b as int, 0, flags.len() as int);
}

/// A dead body has no sources, and no body has a dead source.
pub proof fn lemma_dead_excluded(flags: Seq<bool>, target: int, dead: usize)
    requires
        flags.len() <= usize::MAX,
        !live_at(flags, dead as int),
    ensures
        sources(flags, dead as int) == Seq::<usize>::empty(),
        !sources(flags, target).contains(dead),
{
    lemma_sources_within(flags, dead as int, 0, flags.len() as int);
    lemma_sources_within(flags, target, 0, flags.len() as int);
    let mine = sources(flags, dead as int);
    if mine.len() > 0 {
        assert(mine.contains(mine[0]));
    }
    assert(mine =~= Seq::<usize>::empty());
}

/// Every pair of live bodies is counted exactly once, at its lower index:
/// the later body is among the later sources of the earlier one, and the
/// earlier body is not among those of the later one.
pub proof fn lemma_pair_counted_once(flags: Seq<bool>, a: usize, b: usize)
    requires
        a < b < flags.len() <= usize::MAX,
    ensures
        later_sources(flags, a as int).contains(b) == (flags[a as int] && flags[b as int]),
        !later_sources(flags, b as int).contains(a),
{
    lemma_sources_within(flags, a as int, a + 1, flags.len() as int);
    lemma_sources_within(flags, b as int, b + 1, flags.len() as int);
}

/// The sum of what the bodies of `list` contribute to `target`, where
/// `pull(target, source)` is what one source contributes.
pub open spec fn sum_pulls(pull: spec_fn(int, int) -> int, target: int, list: Seq<usize>) -> int
    decreases list.len(),
{
    if list.len() == 0 {
        0
    } else {
        sum_pulls(pull, target, list.drop_last()) + pull(target, list.last() as int)
    }
}

/// What all the sources of `target` contribute to it.
pub open spec fn net_pull(flags: Seq<bool>, pull: spec_fn(int, int) -> int, target: int) -> int {
    sum_pulls(pull, target, sources(flags, target))
}

/// The sum of the net pulls on the bodies below `upto`.
pub open spec fn total_pull(flags: Seq<bool>, pull: spec_fn(int, int) -> int, upto: int) -> int
    decreases upto,
{
    if upto <= 0 {
        0
    } else {
        total_pull(flags, pull, upto - 1) + net_pull(flags, pull, upto - 1)
    }
}

/// `pull` is equal and opposite: what one body contributes to another is the
/// negation of what the other contributes to it.
pub open spec fn equal_and_opposite(pull: spec_fn(int, int) -> int) -> bool {
    forall|a: int, b: int| #[trigger] pull(a, b) == -pull(b, a)
}

/// The sum over the bodies below `rows` of what their sources below `cols`
/// contribute to them.
spec fn block(flags: Seq<bool>, pull: spec_fn(int, int) -> int, rows: int, cols: int) -> int
    decreases rows,
{
    if rows <= 0 {
        0
    } else {
        block(flags, pull, rows - 1, cols) + sum_pulls(
            pull,
            rows - 1,
            sources_within(flags, rows - 1, 0, cols),
        )
    }
}

/// The sum of what the body `source` contributes to the bodies below `rows`.
spec fn column(flags: Seq<bool>, pull: spec_fn(int, int) -> int, rows: int, source: int) -> int
    decreases rows,
{
    if rows <= 0 {
        0
    } else {
        column(flags, pull, rows - 1, source) + if attracts(flags, rows - 1, source) {
            pull(rows - 1, source)
        } else {
            0
        }
    }
}

/// One more column adds to a block what that column's body contributes.
proof fn lemma_block_widens(flags: Seq<bool>, pull: spec_fn(int, int) -> int, rows: int, cols: int)
    requires
        0 <= rows,
        0 <= cols < flags.len() <= usize::MAX,
    ensures
        block(flags, pull, rows, cols + 1) == block(flags, pull, rows, cols) + column(
            flags,
            pull,
            rows,
            cols,
        ),
    decreases rows,
{
    if rows > 0 {
        lemma_block_widens(flags, pull, rows - 1, cols);
        let wider = sources_within(flags, rows - 1, 0, cols + 1);
        let narrow = sources_within(flags, rows - 1, 0, cols);
        if attracts(flags, rows - 1, cols) {
            assert(wider.drop_last() =~= narrow);
        }
    }
}

/// What the bodies below `cols` contribute to `body`, and what `body`
/// contributes to them, cancel.
proof fn lemma_row_cancels_column(
    flags: Seq<bool>,
    pull: spec_fn(int, int) -> int,
    body: int,
    cols: int,
)
    requires
        equal_and_opposite(pull),
        0 <= cols <= flags.len() <= usize::MAX,
    ensures
        sum_pulls(pull, body, sources_within(flags, body, 0, cols)) + column(
            flags,
            pull,
            cols,
            body,
        ) == 0,
    decreases cols,
{
    if cols > 0 {
        lemma_row_cancels_column(flags, pull, body, cols - 1);
        let wider = sources_within(flags, body, 0, cols);
        let narrow = sources_within(flags, body, 0, cols - 1);
        if attracts(flags, body, cols - 1) {
            assert(wider.drop_last() =~= narrow);
            assert(pull(body, cols - 1) == -pull(cols - 1, body));
        }
    }
}

/// Among the bodies below `upto`, all contributions cancel.
proof fn lemma_block_cancels(flags: Seq<bool>, pull: spec_fn(int, int) -> int, upto: int)
    requires
        equal_and_opposite(pull),
        0 <= upto <= flags.len() <= usize::MAX,
    ensures
        block(flags, pull, upto, upto) == 0,
    decreases upto,
{
    if upto > 0 {
        let last = upto - 1;
        lemma_block_cancels(flags, pull, last);
        lemma_block_widens(flags, pull, last, last);
        lemma_row_cancels_column(flags, pull, last, last);
        assert(!attracts(flags, last, last));
    }
}

/// The total pull on the bodies below `upto` is the block of these bodies
/// and all columns.
proof fn lemma_total_is_block(flags: Seq<bool>, pull: spec_fn(int, int) -> int, upto: int)
    ensures
        total_pull(flags, pull, upto) == block(flags, pull, upto, flags.len() as int),
    decreases upto,
{
    if upto > 0 {
        lemma_total_is_block(flags, pull, upto - 1);
    }
}

/// Where every single pull is equal and opposite to the pull back, the net
/// pulls on all the bodies add up to nothing: dead bodies are left out on
/// both sides of every pair, so no pull is counted without the pull back.
pub proof fn lemma_pulls_cancel(flags: Seq<bool>, pull: spec_fn(int, int) -> int)
    requires
        flags.len() <= usize::MAX,
        equal_and_opposite(pull),
    ensures
        total_pull(flags, pull, flags.len() as int) == 0,
{
    lemma_total_is_block(flags, pull, flags.len() as int);
    lemma_block_cancels(flags, pull, flags.len() as int);
}

/// The bodies of the range `from..` that pull at `target`.
fn collect_sources(roster: &Roster, target: usize, from: usize) -> (list: Vec<usize>)
    ensures
        list@ == sources_within(roster@, target as int, from as int, roster@.len() as int),
{
    let n = roster.len();
    let mut list: Vec<usize> = Vec::new();
    if from >= n {
        return list;
    }
    let target_live = roster.is_live(target);
    let mut k: usize = from;
    while k < n
        invariant
            from <= k <= n,
            n == roster@.len(),
            target_live == live_at(roster@, target as int),
            list@ == sources_within(roster@, target as int, from as int, k as int),
        decreases n - k,
    {
        if target_live && k != target && roster.is_live(k) {
            list.push(k);
        }
        k = k + 1;
    }
    list
}

/// The bodies whose pull makes up the force on `target`, in ascending
/// order: every other live body if `target` is live, none if it is dead or
/// names no body.
pub fn force_sources(roster: &Roster, target: usize) -> (list: Vec<usize>)
    ensures
        list@ == sources(roster@, target as int),
{
    collect_sources(roster, target, 0)
}

/// The partners of `target` in the sum of the potential energy, in
/// ascending order: the live bodies behind it if `target` is live, none if it
/// is dead or names no body.
pub fn energy_partners(roster: &Roster, target: usize) -> (list: Vec<usize>)
    ensures
        list@ == later_sources(roster@, target as int),
{
    if target >= roster.len() {
        proof {
            lemma_no_sources_past_end(roster@, target as int);
        }
        return Vec::new();
    }
    collect_sources(roster, target, target + 1)
}

/// A target at or past the end has no later sources.
proof fn lemma_no_sources_past_end(flags: Seq<bool>, target: int)
    requires
        target >= flags.len(),
    ensures
        later_sources(flags, target) == Seq::<usize>::empty(),
{
}

} // verus!
