//! The order of one tick.
//!
//! A tick is a leapfrog step followed by the collision sweep: forces, half
//! kick, drift, forces again at the new positions, second half kick, refresh
//! of the cached kinetic energies, collisions. The order is what makes the
//! step time-reversible, so it is fixed here and the driver only follows it.

use vstd::prelude::*;

verus! {

/// One kind of work within a tick.
#[derive(Clone, Copy, Debug, PartialEq, Eq, Structural)]
pub enum Work {
    /// Compute the force on every body from the positions as they are now.
    EvaluateForces,
    /// Add to every velocity half a time step of the acceleration that the
    /// forces last computed give.
    HalfKick,
    /// Move every body by one time step of its velocity.
    Drift,
    /// Recompute every body's cached kinetic energy.
    RefreshKinetic,
    /// Merge the bodies that overlap.
    SweepCollisions,
}

/// The stages of a tick, in the order in which they run.
#[derive(Clone, Copy, Debug, PartialEq, Eq, Structural)]
pub enum Stage {
    FirstForces,
    FirstKick,
    Drift,
    SecondForces,
    SecondKick,
    KineticRefresh,
    Collisions,
}

/// The number of stages in a tick.
pub const STAGES: usize = 7;

/// The place of a stage within the tick, counted from zero.
pub open spec fn position(stage: Stage) -> int {
    match stage {
        Stage::FirstForces => 0,
        Stage::FirstKick => 1,
        Stage::Drift => 2,
        Stage::SecondForces => 3,
        Stage::SecondKick => 4,
        Stage::KineticRefresh => 5,
        Stage::Collisions => 6,
    }
}

/// The work that a stage does.
pub open spec fn work_of(stage: Stage) -> Work {
    match stage {
        Stage::FirstForces => Work::EvaluateForces,
        Stage::FirstKick => Work::HalfKick,
        Stage::Drift => Work::Drift,
        Stage::SecondForces => Work::EvaluateForces,
        Stage::SecondKick => Work::HalfKick,
        Stage::KineticRefresh => Work::RefreshKinetic,
        Stage::Collisions => Work::SweepCollisions,
    }
}

/// The work of a tick, in order.
pub open spec fn plan() -> Seq<Work> {
    seq![
        Work::EvaluateForces,
        Work::HalfKick,
        Work::Drift,
        Work::EvaluateForces,
        Work::HalfKick,
        Work::RefreshKinetic,
        Work::SweepCollisions,
    ]
}

impl Stage {
    /// The stage with which every tick begins.
    pub fn first() -> (stage: Stage)
        ensures
            position(stage) == 0,
    {
        Stage::FirstForces
    }

    /// The stage that follows this one, or `None` behind the last stage.
    pub fn next(self) -> (following: Option<Stage>)
        ensures
            following.is_some() == (position(self) + 1 < STAGES),
            following matches Some(stage) ==> position(stage) == position(self) + 1,
    {
        match self {
            Stage::FirstForces => Some(Stage::FirstKick),
            Stage::FirstKick => Some(Stage::Drift),
            Stage::Drift => Some(Stage::SecondForces),
            Stage::SecondForces => Some(Stage::SecondKick),
            Stage::SecondKick => Some(Stage::KineticRefresh),
            Stage::KineticRefresh => Some(Stage::Collisions),
            Stage::Collisions => None,
        }
    }

    /// The work to do at this stage.
    pub fn work(self) -> (work: Work)
        ensures
            work == work_of(self),
            work == plan()[position(self)],
    {
        match self {
            Stage::FirstForces | Stage::SecondForces => Work::EvaluateForces,
            Stage::FirstKick | Stage::SecondKick => Work::HalfKick,
            Stage::Drift => Work::Drift,
            Stage::KineticRefresh => Work::RefreshKinetic,
            Stage::Collisions => Work::SweepCollisions,
        }
    }
}

/// The work of one tick, in the order in which it has to be done.
pub fn tick_plan() -> (works: Vec<Work>)
    ensures
        works@ == plan(),
{
    let mut works: Vec<Work> = Vec::new();
    let mut stage = Stage::first();
    works.push(stage.work());
    loop
        invariant
            works@ == plan().take(position(stage) + 1),
        ensures
            works@ == plan(),
        decreases STAGES - position(stage),
    {
        match stage.next() {
            Some(following) => {
                stage = following;
                works.push(stage.work());
            },
            None => {
                break ;
            },
        }
    }
    works
}

/// A stage is fixed by its place: no two stages share one.
pub proof fn lemma_position_names_stage(a: Stage, b: Stage)
    ensures
        0 <= position(a) < STAGES,
        position(a) == position(b) ==> a == b,
{
}

/// Every half kick uses forces that were computed in the stage right before
/// it, so from the positions that the bodies have during the kick.
pub proof fn lemma_kick_follows_forces(stage: Stage)
    requires
        work_of(stage) == Work::HalfKick,
    ensures
        position(stage) > 0,
        plan()[position(stage) - 1] == Work::EvaluateForces,
{
}

/// The positions change at exactly one stage of the leapfrog step, and
/// that stage lies between the two half kicks; the collision sweep comes
/// last.
pub proof fn lemma_drift_between_kicks(stage: Stage)
    ensures
        work_of(stage) == Work::Drift <==> position(stage) == 2,
        work_of(stage) == Work::HalfKick <==> position(stage) == 1 || position(stage) == 4,
        work_of(stage) == Work::SweepCollisions <==> position(stage) == STAGES - 1,
{
}

} // verus!
