//! The choice of a scenario and the bookkeeping of the bodies it adds.
//!
//! A scenario is chosen by a numeric key from a list that pairs keys with
//! names. A key that the list does not hold, or a name that no scenario
//! bears, is an error: no scenario is ever taken in place of another.

use vstd::prelude::*;
use vstd::string::*;
use crate::roster::{count_flags, count_set, lemma_count_set_bounded};

verus! {

/// A name of a scenario and the key under which it can be chosen.
#[derive(Debug)]
pub struct ScenarioKey(pub String, pub usize);

/// The scenarios that can be set up.
#[derive(Clone, Copy, Debug, PartialEq, Eq, Structural)]
pub enum Scenario {
    /// A star with a ring of equal planets on one orbit.
    Spirograph,
    /// Three equal bodies that chase each other along a figure of eight.
    FigureEight,
    /// A star with small bodies scattered around it at random.
    RandomField,
}

/// Why no scenario could be chosen.
#[derive(Clone, Copy, Debug, PartialEq, Eq, Structural)]
pub enum ScenarioError {
    /// The list holds no entry with the key.
    UnknownKey,
    /// The list gives the key a name that no scenario bears.
    UnknownName,
}

/// The name under which a scenario is listed.
pub open spec fn name_of(scenario: Scenario) -> Seq<char> {
    match scenario {
        Scenario::Spirograph => "Spirograph"@,
        Scenario::FigureEight => "Figure 8"@,
        Scenario::RandomField => "Random Field"@,
    }
}

/// The scenario that bears `name`, if there is one.
pub open spec fn named(name: Seq<char>) -> Option<Scenario> {
    if name == name_of(Scenario::Spirograph) {
        Some(Scenario::Spirograph)
    } else if name == name_of(Scenario::FigureEight) {
        Some(Scenario::FigureEight)
    } else if name == name_of(Scenario::RandomField) {
        Some(Scenario::RandomField)
    } else {
        None
    }
}

/// The place of the first entry of `list` with the key `key`, or the length
/// of the list if no entry has it.
pub open spec fn first_with_key(list: Seq<ScenarioKey>, key: usize) -> int
    decreases list.len(),
{
    if list.len() == 0 {
        0
    } else if list[0].1 == key {
        0
    } else {
        1 + first_with_key(list.drop_first(), key)
    }
}

/// What choosing by `key` from `list` gives.
pub open spec fn chosen(list: Seq<ScenarioKey>, key: usize) -> Result<Scenario, ScenarioError> {
    let at = first_with_key(list, key);
    if at >= list.len() {
        Err(ScenarioError::UnknownKey)
    } else {
        match named(list[at].0@) {
            Some(scenario) => Ok(scenario),
            None => Err(ScenarioError::UnknownName),
        }
    }
}

/// Every scenario is found under its own name, and under no other name: the
/// names tell the scenarios apart.
pub proof fn lemma_names_tell_scenarios_apart(scenario: Scenario, name: Seq<char>)
    ensures
        named(name_of(scenario)) == Some(scenario),
        named(name) == Some(scenario) ==> name == name_of(scenario),
{
    reveal_strlit("Spirograph");
    reveal_strlit("Figure 8");
    reveal_strlit("Random Field");
    assert("Spirograph"@.len() == 10);
    assert("Figure 8"@.len() == 8);
    assert("Random Field"@.len() == 12);
}

/// The first entry with the key lies within the list exactly if some entry
/// has the key; it has the key, and no entry in front of it has.
pub proof fn lemma_first_with_key(list: Seq<ScenarioKey>, key: usize)
    ensures
        0 <= first_with_key(list, key) <= list.len(),
        first_with_key(list, key) < list.len() ==> list[first_with_key(list, key)].1 == key,
        forall|k: int| 0 <= k < first_with_key(list, key) ==> (#[trigger] list[k]).1 != key,
    decreases list.len(),
{
    if list.len() > 0 && list[0].1 != key {
        let rest = list.drop_first();
        lemma_first_with_key(rest, key);
        assert forall|k: int| 0 <= k < first_with_key(list, key) implies (#[trigger] list[k]).1
            != key by {
            if k > 0 {
                assert(list[k] == rest[k - 1]);
            }
        }
    }
}

/// The name under which `scenario` is listed.
pub fn scenario_name(scenario: Scenario) -> (name: String)
    ensures
        name@ == name_of(scenario),
{
    match scenario {
        Scenario::Spirograph => String::from_str("Spirograph"),
        Scenario::FigureEight => String::from_str("Figure 8"),
        Scenario::RandomField => String::from_str("Random Field"),
    }
}

/// The scenario that bears `name`; `None` if none does.
pub fn scenario_named(name: &String) -> (scenario: Option<Scenario>)
    ensures
        scenario == named(name@),
{
    let spirograph = scenario_name(Scenario::Spirograph);
    let figure_eight = scenario_name(Scenario::FigureEight);
    let random_field = scenario_name(Scenario::RandomField);
    if *name == spirograph {
        Some(Scenario::Spirograph)
    } else if *name == figure_eight {
        Some(Scenario::FigureEight)
    } else if *name == random_field {
        Some(Scenario::RandomField)
    } else {
        None
    }
}

/// The place of the first entry with the key `key`; `None` if no entry has
/// it.
pub fn find_key(list: &Vec<ScenarioKey>, key: usize) -> (place: Option<usize>)
    ensures
        match place {
            Some(at) => at < list.len() && at == first_with_key(list@, key),
            None => first_with_key(list@, key) >= list.len(),
        },
{
    let mut at: usize = 0;
    assert(list@.skip(0) =~= list@);
    while at < list.len()
        invariant
            at <= list.len(),
            first_with_key(list@, key) == at + first_with_key(list@.skip(at as int), key),
        decreases list.len() - at,
    {
        let ghost rest = list@.skip(at as int);
        assert(rest[0] == list@[at as int]);
        if list[at].1 == key {
            return Some(at);
        }
        assert(rest.drop_first() =~= list@.skip(at as int + 1));
        at = at + 1;
    }
    assert(list@.skip(at as int).len() == 0);
    None
}

/// Chooses the scenario that `list` names under `key`: that of the first
/// entry with the key.
pub fn select_scenario(key: usize, list: &Vec<ScenarioKey>) -> (choice: Result<
    Scenario,
    ScenarioError,
>)
    ensures
        choice == chosen(list@, key),
{
    match find_key(list, key) {
        None => Err(ScenarioError::UnknownKey),
        Some(at) => match scenario_named(&list[at].0) {
            Some(scenario) => Ok(scenario),
            None => Err(ScenarioError::UnknownName),
        },
    }
}

/// The number that the bodies asked for at the console have to stay below.
pub const EARTH_NUMBER_MAX: usize = 360;

/// Whether a scenario may be asked to add `count` bodies of one category.
pub fn body_count_accepted(count: usize) -> (accepted: bool)
    ensures
        accepted == (count < EARTH_NUMBER_MAX),
{
    count < EARTH_NUMBER_MAX
}

/// The number of ticks between two frames.
pub const TICKS_PER_FRAME: usize = 30;

/// The number of points that a trail keeps.
pub const OLD_FRAME_LIMIT: usize = 512;

/// What a driver has to know of the scenario that was set up.
#[derive(Debug)]
pub struct ConfigValues {
    pub scenario_name: String,
    pub total_bodies_added: usize,
    pub important_bodies_added: usize,
    pub ticks_per_frame: usize,
    pub trail_length: usize,
}

/// The number of bodies that were added and the number of significant ones
/// among them. `significant` says of each added body, in order, whether its
/// mass reaches the threshold of importance.
pub fn tally(significant: &Vec<bool>) -> (counts: (usize, usize))
    ensures
        counts.0 == significant@.len(),
        counts.1 == count_set(significant@),
        counts.1 <= counts.0,
{
    proof {
        lemma_count_set_bounded(significant@);
    }
    (significant.len(), count_flags(significant))
}

/// The configuration of a scenario that has added the bodies of which
/// `significant` speaks, one flag for each body.
pub fn configure(scenario: Scenario, significant: &Vec<bool>) -> (config: ConfigValues)
    ensures
        config.scenario_name@ == name_of(scenario),
        config.total_bodies_added == significant@.len(),
        config.important_bodies_added == count_set(significant@),
        config.important_bodies_added <= config.total_bodies_added,
        config.ticks_per_frame == TICKS_PER_FRAME,
        config.trail_length == OLD_FRAME_LIMIT,
{
    let counts = tally(significant);
    ConfigValues {
        scenario_name: scenario_name(scenario),
        total_bodies_added: counts.0,
        important_bodies_added: counts.1,
        ticks_per_frame: TICKS_PER_FRAME,
        trail_length: OLD_FRAME_LIMIT,
    }
}

} // verus!
