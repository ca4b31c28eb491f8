use gravity_sim::merge::{resolve, Collision, MassOrder};
use gravity_sim::roster::Roster;
use gravity_sim::sweep::Sweep;

fn roster_of(flags: &[bool]) -> Roster {
    let mut roster = Roster::new();
    for &live in flags {
        roster.enroll(live);
    }
    roster
}

fn flags_of(roster: &Roster) -> Vec<bool> {
    (0..roster.len()).map(|i| roster.is_live(i)).collect()
}

#[test]
fn sweep_offers_pairs_in_ascending_order() {
    let mut sweep = Sweep::begin(roster_of(&[true, true, true]));
    let mut seen = Vec::new();
    while let Some(pair) = sweep.candidate() {
        seen.push(pair);
        sweep.pass();
    }
    assert_eq!(seen, vec![(0, 1), (0, 2), (1, 2)]);
    let (roster, collisions) = sweep.finish();
    assert_eq!(collisions, 0);
    assert_eq!(roster.count_live(), 3);
}

#[test]
fn sweep_of_four_offers_all_six_pairs() {
    let mut sweep = Sweep::begin(roster_of(&[true, true, true, true]));
    let mut seen = Vec::new();
    while let Some(pair) = sweep.candidate() {
        seen.push(pair);
        sweep.pass();
    }
    assert_eq!(seen, vec![(0, 1), (0, 2), (0, 3), (1, 2), (1, 3), (2, 3)]);
}

#[test]
fn sweep_skips_pairs_with_a_dead_body() {
    let mut sweep = Sweep::begin(roster_of(&[false, true, false, true, true]));
    let mut seen = Vec::new();
    while let Some(pair) = sweep.candidate() {
        seen.push(pair);
        sweep.pass();
    }
    assert_eq!(seen, vec![(1, 3), (1, 4), (3, 4)]);
}

#[test]
fn sweep_over_no_bodies_is_over_at_once() {
    let mut sweep = Sweep::begin(Roster::new());
    assert_eq!(sweep.candidate(), None);
    sweep.pass();
    assert_eq!(sweep.merge(MassOrder::Equal), None);
    assert_eq!(sweep.collisions(), 0);
    let (roster, collisions) = sweep.finish();
    assert_eq!(roster.len(), 0);
    assert_eq!(collisions, 0);
}

#[test]
fn sweep_over_one_body_has_no_candidate() {
    let sweep = Sweep::begin(roster_of(&[true]));
    assert_eq!(sweep.candidate(), None);
}

#[test]
fn sweep_over_dead_bodies_has_no_candidate() {
    let sweep = Sweep::begin(roster_of(&[false, true, false]));
    assert_eq!(sweep.candidate(), None);
    let (roster, collisions) = sweep.finish();
    assert_eq!(flags_of(&roster), vec![false, true, false]);
    assert_eq!(collisions, 0);
}

#[test]
fn merge_retires_the_lighter_body() {
    let mut sweep = Sweep::begin(roster_of(&[true, true, true]));
    assert_eq!(sweep.candidate(), Some((0, 1)));
    let outcome = sweep.merge(MassOrder::SecondHeavier);
    assert_eq!(outcome, Some(Collision { survivor: 1, loser: 0 }));
    assert_eq!(sweep.candidate(), Some((1, 2)));
    assert_eq!(sweep.collisions(), 1);
}

#[test]
fn merge_on_a_tie_keeps_the_lower_index() {
    let mut sweep = Sweep::begin(roster_of(&[true, true]));
    let outcome = sweep.merge(MassOrder::Equal);
    assert_eq!(outcome, Some(Collision { survivor: 0, loser: 1 }));
    let (roster, collisions) = sweep.finish();
    assert_eq!(flags_of(&roster), vec![true, false]);
    assert_eq!(collisions, 1);
}

#[test]
fn merge_of_the_heavier_first_keeps_the_first() {
    let mut sweep = Sweep::begin(roster_of(&[true, true]));
    let outcome = sweep.merge(MassOrder::FirstHeavier);
    assert_eq!(outcome, Some(Collision { survivor: 0, loser: 1 }));
}

#[test]
fn survivor_goes_on_colliding_in_the_same_sweep() {
    let mut sweep = Sweep::begin(roster_of(&[true, true, true]));
    assert_eq!(sweep.candidate(), Some((0, 1)));
    sweep.merge(MassOrder::FirstHeavier);
    assert_eq!(sweep.candidate(), Some((0, 2)));
    sweep.merge(MassOrder::FirstHeavier);
    assert_eq!(sweep.candidate(), None);
    let (roster, collisions) = sweep.finish();
    assert_eq!(flags_of(&roster), vec![true, false, false]);
    assert_eq!(collisions, 2);
}

#[test]
fn loser_is_not_offered_again_in_the_same_sweep() {
    let mut sweep = Sweep::begin(roster_of(&[true, true, true, true]));
    assert_eq!(sweep.candidate(), Some((0, 1)));
    // body 0 loses: the pairs (0, 2) and (0, 3) must not come up
    sweep.merge(MassOrder::SecondHeavier);
    let mut seen = Vec::new();
    while let Some(pair) = sweep.candidate() {
        seen.push(pair);
        sweep.pass();
    }
    assert_eq!(seen, vec![(1, 2), (1, 3), (2, 3)]);
}

#[test]
fn loser_is_not_offered_in_the_next_sweep() {
    let mut sweep = Sweep::begin(roster_of(&[true, true, true]));
    sweep.pass();
    assert_eq!(sweep.candidate(), Some((0, 2)));
    sweep.merge(MassOrder::FirstHeavier);
    let (roster, _) = sweep.finish();
    let mut next = Sweep::begin(roster);
    let mut seen = Vec::new();
    while let Some(pair) = next.candidate() {
        seen.push(pair);
        next.pass();
    }
    assert_eq!(seen, vec![(0, 1)]);
}

#[test]
fn each_merge_removes_one_live_body() {
    let mut sweep = Sweep::begin(roster_of(&[true, true, true, true, true]));
    let mut turn = 0;
    while sweep.candidate().is_some() {
        if turn % 2 == 0 {
            sweep.merge(MassOrder::Equal);
        } else {
            sweep.pass();
        }
        turn += 1;
    }
    let (roster, collisions) = sweep.finish();
    assert_eq!(roster.len(), 5);
    assert_eq!(roster.count_live() + collisions, 5);
}

#[test]
fn pass_after_the_end_changes_nothing() {
    let mut sweep = Sweep::begin(roster_of(&[true, true]));
    sweep.pass();
    assert_eq!(sweep.candidate(), None);
    sweep.pass();
    assert_eq!(sweep.candidate(), None);
    assert_eq!(sweep.merge(MassOrder::FirstHeavier), None);
    let (roster, collisions) = sweep.finish();
    assert_eq!(flags_of(&roster), vec![true, true]);
    assert_eq!(collisions, 0);
}

#[test]
fn resolve_names_survivor_and_loser() {
    assert_eq!(resolve(3, 7, MassOrder::FirstHeavier), Collision { survivor: 3, loser: 7 });
    assert_eq!(resolve(3, 7, MassOrder::Equal), Collision { survivor: 3, loser: 7 });
    assert_eq!(resolve(3, 7, MassOrder::SecondHeavier), Collision { survivor: 7, loser: 3 });
}
