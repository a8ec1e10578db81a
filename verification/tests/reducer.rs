//! The reducer on hand-built elevator and floor fixtures.

use saga::game::{Elevator, Floor};
use saga::reducer::{tick, State};

fn floor(level: i32, up: bool, down: bool) -> Floor {
    Floor::new(level, up, down)
}

/// `load` out of `max_load` is how full the car is.
fn elevator(id: u32, current: i32, dest: Option<i32>, load: u64, max_load: u64, pressed: &[i32]) -> Elevator {
    Elevator::new(id, current, dest, load, max_load, pressed.to_vec())
}

#[test]
fn idle_elevator_moves_to_next_floor() {
    let mut state = State::default();
    let mut elevators = vec![elevator(0, 0, None, 0, 100, &[])];
    let floors = vec![floor(0, false, false), floor(1, false, false), floor(2, false, false)];

    tick(&mut state, &mut elevators, &floors);

    let cmds = elevators[0].take_commands();
    assert_eq!(cmds, vec![(0, 2)], "baseline rotator should send elevator 0 to floor 2 first");
}

#[test]
fn moving_elevator_is_not_commanded_again() {
    let mut state = State::default();
    let mut elevators = vec![elevator(0, 1, Some(3), 25, 100, &[3])];
    let floors = vec![
        floor(0, false, false),
        floor(1, true, false),
        floor(2, false, false),
        floor(3, false, false),
    ];

    tick(&mut state, &mut elevators, &floors);

    assert!(
        elevators[0].take_commands().is_empty(),
        "reducer should not re-command an elevator that already has a destination"
    );
}

#[test]
fn multiple_idle_elevators_are_dispatched_independently() {
    let mut state = State::default();
    let mut elevators = vec![elevator(0, 0, None, 0, 100, &[]), elevator(1, 0, None, 0, 100, &[])];
    let floors = vec![floor(0, true, false), floor(1, false, false), floor(2, false, false)];

    tick(&mut state, &mut elevators, &floors);

    let cmds0 = elevators[0].take_commands();
    let cmds1 = elevators[1].take_commands();
    assert_eq!(cmds0.len(), 1);
    assert_eq!(cmds1.len(), 1);
}

#[test]
fn empty_building_is_a_noop() {
    let mut state = State::default();
    let mut elevators: Vec<Elevator> = vec![];
    let floors: Vec<Floor> = vec![];

    // Must not panic.
    tick(&mut state, &mut elevators, &floors);
}

#[test]
fn default_state_starts_at_first_floor() {
    match State::default() {
        State::Rotating { next_floor } => assert_eq!(next_floor, 1),
    }
}

#[test]
fn rotation_cycles_through_every_floor_and_one_past_the_top() {
    let floors = vec![floor(0, false, false), floor(1, false, false), floor(2, false, false)];
    let mut state = State::default();
    let mut seen = Vec::new();
    for _ in 0..8 {
        let mut elevators = vec![elevator(4, 0, None, 0, 100, &[])];
        tick(&mut state, &mut elevators, &floors);
        let cmds = elevators[0].take_commands();
        assert_eq!(cmds.len(), 1);
        assert_eq!(cmds[0].0, 4);
        seen.push(cmds[0].1);
    }
    // From 1: 2, 3 (= floor count), 0, 1, 2, 3, 0, 1.
    assert_eq!(seen, vec![2, 3, 0, 1, 2, 3, 0, 1]);
    match state {
        State::Rotating { next_floor } => assert_eq!(next_floor, 1),
    }
}

#[test]
fn rotation_advances_once_per_idle_elevator_only() {
    let floors = vec![floor(0, false, false), floor(1, false, false), floor(2, false, false), floor(3, false, false)];
    let mut state = State::Rotating { next_floor: 0 };
    let mut elevators = vec![
        elevator(0, 0, None, 0, 100, &[]),
        elevator(1, 2, Some(3), 0, 100, &[3]),
        elevator(2, 1, None, 0, 100, &[]),
        elevator(3, 3, Some(0), 0, 100, &[]),
    ];
    tick(&mut state, &mut elevators, &floors);
    assert_eq!(elevators[0].take_commands(), vec![(0, 1)]);
    assert!(elevators[1].take_commands().is_empty());
    assert_eq!(elevators[2].take_commands(), vec![(2, 2)]);
    assert!(elevators[3].take_commands().is_empty());
    match state {
        State::Rotating { next_floor } => assert_eq!(next_floor, 2),
    }
}

#[test]
fn rotation_past_the_top_wraps_to_ground() {
    let floors = vec![floor(0, false, false), floor(1, false, false)];
    let mut state = State::Rotating { next_floor: 7 };
    let mut elevators = vec![elevator(9, 1, None, 0, 100, &[])];
    tick(&mut state, &mut elevators, &floors);
    assert_eq!(elevators[0].take_commands(), vec![(9, 0)]);
}

#[test]
fn empty_building_keeps_state_and_commands() {
    let mut state = State::Rotating { next_floor: 5 };
    let mut elevators = vec![elevator(0, 0, None, 0, 100, &[])];
    tick(&mut state, &mut elevators, &[]);
    assert!(elevators[0].take_commands().is_empty());
    match state {
        State::Rotating { next_floor } => assert_eq!(next_floor, 5),
    }
}

#[test]
fn every_floor_is_commanded_within_floor_count_plus_one_ticks() {
    let floors: Vec<Floor> = (0..4).map(|l| floor(l, false, false)).collect();
    for start in 0..=4 {
        let mut state = State::Rotating { next_floor: start };
        let mut seen = [false; 5];
        for _ in 0..5 {
            let mut elevators = vec![elevator(0, 0, None, 0, 100, &[])];
            tick(&mut state, &mut elevators, &floors);
            for (_, f) in elevators[0].take_commands() {
                seen[f as usize] = true;
            }
        }
        assert!(seen.iter().all(|s| *s), "start {start}: {seen:?}");
    }
}
