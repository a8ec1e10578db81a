//! The challenge catalogue and the end conditions.

use saga::challenges::{all, EndCondition};
use saga::sim::world::{run_outcome, trip_from_draws};
use saga::sim::{Outcome, Seconds, Stats};

fn secs(whole: u32, has_fraction: bool) -> Seconds {
    Seconds::new(whole, has_fraction)
}

fn stats(transported: u32, moves: u32, elapsed: Seconds, max_wait: Seconds) -> Stats {
    Stats {
        transported_count: transported,
        move_count: moves,
        elapsed_time: elapsed,
        max_wait_time: max_wait,
    }
}

#[test]
fn there_are_sixteen_challenges() {
    let list = all();
    assert_eq!(list.len(), 16);
    let first = &list[0];
    assert_eq!(first.floor_count, 3);
    assert_eq!(first.elevator_count, 1);
    assert_eq!(first.spawn_rate_per_minute, 18);
    assert_eq!(first.elevator_capacities, vec![4]);
    assert!(matches!(
        first.end_condition,
        EndCondition::PassengersWithinTime { passengers: 15, time_limit: 60 }
    ));
    let seventh = &list[6];
    assert_eq!(seventh.floor_count, 13);
    assert_eq!(seventh.elevator_capacities, vec![8, 10]);
    assert!(matches!(
        list[14].end_condition,
        EndCondition::PassengersWithinTimeMaxWait { passengers: 2675, time_limit: 1800, max_wait: 45 }
    ));
    assert!(matches!(list[15].end_condition, EndCondition::Demo));
    assert!(list.iter().all(|c| c.floor_count >= 2 && !c.elevator_capacities.is_empty()));
}

#[test]
fn seconds_compare_with_whole_limits() {
    assert!(secs(60, false).at_least(60));
    assert!(secs(60, false).at_most(60));
    assert!(secs(60, true).at_least(60));
    assert!(!secs(60, true).at_most(60));
    assert!(!secs(59, true).at_least(60));
    assert!(secs(59, true).at_most(60));
    assert!(secs(61, false).at_least(60));
    assert!(!secs(61, false).at_most(60));
}

#[test]
fn demo_never_ends() {
    let s = stats(u32::MAX, u32::MAX, secs(100_000, true), secs(100_000, true));
    assert_eq!(EndCondition::Demo.evaluate(&s), None);
}

#[test]
fn within_time_runs_then_wins_or_loses() {
    let c = EndCondition::PassengersWithinTime { passengers: 15, time_limit: 60 };
    assert_eq!(c.evaluate(&stats(14, 3, secs(59, true), secs(5, false))), None);
    assert_eq!(c.evaluate(&stats(15, 3, secs(59, true), secs(5, false))), Some(true));
    assert_eq!(c.evaluate(&stats(15, 3, secs(60, false), secs(5, false))), Some(true));
    assert_eq!(c.evaluate(&stats(14, 3, secs(60, false), secs(5, false))), Some(false));
    assert_eq!(c.evaluate(&stats(15, 3, secs(60, true), secs(5, false))), Some(false));
}

#[test]
fn max_wait_ends_when_someone_waited_too_long() {
    let c = EndCondition::PassengersWithMaxWait { passengers: 50, max_wait: 21 };
    assert_eq!(c.evaluate(&stats(10, 0, secs(300, true), secs(20, true))), None);
    assert_eq!(c.evaluate(&stats(10, 0, secs(300, true), secs(21, false))), Some(false));
    assert_eq!(c.evaluate(&stats(50, 0, secs(300, true), secs(21, false))), Some(true));
    assert_eq!(c.evaluate(&stats(50, 0, secs(300, true), secs(21, true))), Some(false));
}

#[test]
fn time_and_wait_together() {
    let c = EndCondition::PassengersWithinTimeMaxWait { passengers: 100, time_limit: 1800, max_wait: 45 };
    assert_eq!(c.evaluate(&stats(99, 0, secs(1799, true), secs(44, true))), None);
    assert_eq!(c.evaluate(&stats(100, 0, secs(1799, true), secs(44, true))), Some(true));
    assert_eq!(c.evaluate(&stats(99, 0, secs(1800, true), secs(44, true))), Some(false));
    assert_eq!(c.evaluate(&stats(99, 0, secs(10, false), secs(45, true))), Some(false));
    assert_eq!(c.evaluate(&stats(100, 0, secs(1800, false), secs(45, false))), Some(true));
}

#[test]
fn moves_limit() {
    let c = EndCondition::PassengersWithinMoves { passengers: 10, move_limit: 20 };
    assert_eq!(c.evaluate(&stats(9, 19, secs(0, false), secs(0, false))), None);
    assert_eq!(c.evaluate(&stats(9, 20, secs(0, false), secs(0, false))), Some(false));
    assert_eq!(c.evaluate(&stats(10, 20, secs(0, false), secs(0, false))), Some(true));
    assert_eq!(c.evaluate(&stats(10, 21, secs(0, false), secs(0, false))), Some(false));
}

#[test]
fn trips_from_draws() {
    // Coin 0: from the ground floor up to the drawn upper floor.
    assert_eq!(trip_from_draws(5, 0, 0, 3, 0, 1), (0, 3));
    // Coin 1 on floor 0 still starts on the ground floor.
    assert_eq!(trip_from_draws(5, 1, 0, 4, 7, 2), (0, 4));
    // Upper floor, odds 0: offset by k around the building.
    assert_eq!(trip_from_draws(5, 1, 3, 1, 0, 1), (3, 4));
    assert_eq!(trip_from_draws(5, 1, 3, 1, 0, 3), (3, 1));
    assert_eq!(trip_from_draws(5, 1, 3, 1, 0, 2), (3, 0));
    // Upper floor, other odds: down to the ground floor.
    assert_eq!(trip_from_draws(5, 1, 4, 1, 10, 2), (4, 0));
}

#[test]
fn run_outcomes() {
    assert_eq!(run_outcome(Some(true), false), Some(Outcome::Won));
    assert_eq!(run_outcome(Some(false), true), Some(Outcome::Lost));
    assert_eq!(run_outcome(None, true), Some(Outcome::MaxTimeReached));
    assert_eq!(run_outcome(None, false), None);
}
