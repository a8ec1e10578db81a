//! The discrete building simulation: passengers arriving, getting on and
//! off, calls, commands and cars.

use saga::challenges::{all, Challenge, EndCondition};
use saga::game::Elevator;
use saga::sim::physics::SimElevator;
use saga::sim::world::{CarPosition, MAX_PASSENGER_WEIGHT, MIN_PASSENGER_WEIGHT};
use saga::sim::{PassengerState, SimPassenger, Seconds, Stats, World};

fn first_challenge() -> Challenge {
    all().swap_remove(0)
}

fn spawned(seed: u64, n: usize) -> World {
    let c = first_challenge();
    let mut w = World::new(&c, seed);
    for _ in 0..n {
        w.spawn_passenger();
    }
    w
}

fn trips(w: &World) -> Vec<(u64, i32, i32, i32)> {
    w.passengers
        .iter()
        .map(|p| (p.id, p.starting_floor, p.destination_floor, p.weight))
        .collect()
}

#[test]
fn new_world_is_empty() {
    let c = first_challenge();
    let w = World::new(&c, 1);
    assert_eq!(w.floor_count, 3);
    assert_eq!(w.elevators.len(), 1);
    assert_eq!(w.elevators[0].capacity(), 4);
    assert_eq!(w.elevators[0].destination, 0);
    assert_eq!(w.elevators[0].moves, 0);
    assert!(w.passengers.is_empty());
    assert_eq!(w.floor_buttons.len(), 3);
    assert!(w.floor_buttons.iter().all(|b| !b.up && !b.down));
    assert_eq!(w.transported_count, 0);
    assert_eq!(w.next_passenger_id, 0);
}

#[test]
fn capacities_are_taken_in_turn() {
    let c = Challenge {
        floor_count: 4,
        elevator_count: 5,
        spawn_rate_per_minute: 60,
        elevator_capacities: vec![6, 8],
        end_condition: EndCondition::Demo,
    };
    let w = World::new(&c, 0);
    let caps: Vec<usize> = w.elevators.iter().map(|e| e.capacity()).collect();
    assert_eq!(caps, vec![6, 8, 6, 8, 6]);
    let idx: Vec<usize> = w.elevators.iter().map(|e| e.index).collect();
    assert_eq!(idx, vec![0, 1, 2, 3, 4]);
}

#[test]
fn same_seed_same_passengers() {
    let a = spawned(42, 40);
    let b = spawned(42, 40);
    assert_eq!(trips(&a), trips(&b));
}

#[test]
fn different_seeds_different_passengers() {
    let a = spawned(1, 40);
    let b = spawned(99, 40);
    assert_ne!(trips(&a), trips(&b));
}

#[test]
fn spawned_passengers_are_well_formed_and_light_their_call() {
    let w = spawned(7, 200);
    assert_eq!(w.passengers.len(), 200);
    assert_eq!(w.next_passenger_id, 200);
    for (k, p) in w.passengers.iter().enumerate() {
        assert_eq!(p.id, k as u64);
        assert_eq!(p.state, PassengerState::Waiting);
        assert!(p.starting_floor >= 0 && p.starting_floor < 3);
        assert!(p.destination_floor >= 0 && p.destination_floor < 3);
        assert_ne!(p.starting_floor, p.destination_floor);
        assert!(p.weight >= MIN_PASSENGER_WEIGHT && p.weight <= MAX_PASSENGER_WEIGHT);
        let b = w.floor_buttons[p.starting_floor as usize];
        if p.destination_floor > p.starting_floor {
            assert!(b.up);
        } else {
            assert!(b.down);
        }
    }
    // Both kinds of trip occur.
    assert!(w.passengers.iter().any(|p| p.starting_floor == 0));
    assert!(w.passengers.iter().any(|p| p.starting_floor != 0 && p.destination_floor == 0));
}

#[test]
fn boarding_then_alighting() {
    let mut w = spawned(3, 30);
    let eligible: Vec<u64> = w
        .passengers
        .iter()
        .filter(|p| p.starting_floor == 0)
        .map(|p| p.id)
        .collect();
    assert!(eligible.len() > 4, "seed gives a crowd on the ground floor");

    // At the ground floor: nobody rides yet, so nobody gets off; the first
    // four waiting there (all going up) get on.
    let exited = w.handle_arrival(0, 0);
    assert!(exited.is_empty());
    let riders: Vec<u64> = w
        .passengers
        .iter()
        .filter(|p| p.state == PassengerState::Riding)
        .map(|p| p.id)
        .collect();
    assert_eq!(riders, eligible[..4].to_vec());
    assert!(w.elevators[0].is_full());
    for p in w.passengers.iter().filter(|p| p.state == PassengerState::Riding) {
        assert_eq!(p.elevator_index, Some(0));
        let slot = p.slot.unwrap();
        assert_eq!(w.elevators[0].slots[slot], Some(p.id));
        assert!(w.elevators[0].buttons[p.destination_floor as usize]);
    }
    // Others still wait on the ground floor, so its up call stays lit.
    assert!(w.floor_buttons[0].up);

    // At floor 2: those bound there get off, in slot order.
    let bound: Vec<u64> = w.elevators[0]
        .slots
        .iter()
        .flatten()
        .copied()
        .filter(|id| w.passengers.iter().any(|p| p.id == *id && p.destination_floor == 2))
        .collect();
    let exited = w.handle_arrival(0, 2);
    assert_eq!(exited, bound);
    assert_eq!(w.transported_count as usize, bound.len());
    assert!(w
        .passengers
        .iter()
        .filter(|p| p.state == PassengerState::Riding)
        .all(|p| p.destination_floor != 2));

    let before = w.passengers.len();
    w.drop_exited_passengers();
    assert_eq!(w.passengers.len(), before - bound.len());
    assert!(w.passengers.iter().all(|p| p.state != PassengerState::Exited));
}

#[test]
fn served_call_goes_out_when_nobody_is_left() {
    let mut w = spawned(5, 3);
    // Keep only the passengers of one floor waiting; board them all.
    let f = w.passengers[0].starting_floor;
    let going_up = w.passengers[0].destination_floor > f;
    let exited = w.handle_arrival(0, f);
    assert!(exited.is_empty());
    let still_waiting_same_way = w.passengers.iter().any(|p| {
        p.state == PassengerState::Waiting
            && p.starting_floor == f
            && (p.destination_floor > f) == going_up
    });
    assert!(!still_waiting_same_way);
    let b = w.floor_buttons[f as usize];
    if going_up {
        assert!(!b.up);
    } else {
        assert!(!b.down);
    }
}

#[test]
fn snapshots_show_each_car() {
    let mut w = spawned(3, 30);
    w.handle_arrival(0, 0);
    let (es, fs) = w.snapshots(&vec![CarPosition { current_floor: 0, moving: false }]);
    assert_eq!(es.len(), 1);
    assert_eq!(es[0].id(), 0);
    assert_eq!(es[0].current_floor(), 0);
    assert_eq!(es[0].destination_floor(), None);
    assert_eq!(es[0].max_load(), 400);
    let load: i64 = w
        .passengers
        .iter()
        .filter(|p| p.state == PassengerState::Riding)
        .map(|p| p.weight as i64)
        .sum();
    assert_eq!(es[0].load() as i64, load);
    let lit: Vec<i32> = (0..3).filter(|f| w.elevators[0].buttons[*f as usize]).collect();
    assert_eq!(es[0].pressed_buttons(), &lit);
    assert_eq!(fs.len(), 3);
    for (k, f) in fs.iter().enumerate() {
        assert_eq!(f.level(), k as i32);
        assert_eq!(f.up_pressed(), w.floor_buttons[k].up);
        assert_eq!(f.down_pressed(), w.floor_buttons[k].down);
    }

    let (es, _) = w.snapshots(&vec![CarPosition { current_floor: 1, moving: true }]);
    assert_eq!(es[0].destination_floor(), Some(w.elevators[0].destination));
}

#[test]
fn commands_reach_their_car_and_are_held_to_the_building() {
    let c = Challenge {
        floor_count: 5,
        elevator_count: 2,
        spawn_rate_per_minute: 60,
        elevator_capacities: vec![4],
        end_condition: EndCondition::Demo,
    };
    let mut w = World::new(&c, 0);
    let mut a = Elevator::new(0, 0, None, 0, 400, vec![]);
    let mut b = Elevator::new(1, 0, None, 0, 400, vec![]);
    let mut stray = Elevator::new(9, 0, None, 0, 400, vec![]);
    a.go_to_floor(3);
    a.go_to_floor(3);
    a.go_to_floor(12);
    b.go_to_floor(-4);
    stray.go_to_floor(2);
    w.apply_commands(vec![a, b, stray]);
    assert_eq!(w.elevators[0].destination, 4);
    assert_eq!(w.elevators[0].moves, 2);
    assert_eq!(w.elevators[1].destination, 0);
    assert_eq!(w.elevators[1].moves, 0);
    assert_eq!(w.move_count(), Some(2));
}

fn course_changes_twice() -> Vec<Elevator> {
    let mut a = Elevator::new(0, 0, None, 0, 400, vec![]);
    a.go_to_floor(3);
    a.go_to_floor(3);
    a.go_to_floor(9);
    a.go_to_floor(4);
    let mut stray = Elevator::new(7, 0, None, 0, 400, vec![]);
    stray.go_to_floor(1);
    stray.go_to_floor(2);
    vec![a, stray]
}

#[test]
fn commands_fit_counts_only_moves_that_change_the_course() {
    let c = Challenge {
        floor_count: 5,
        elevator_count: 2,
        spawn_rate_per_minute: 60,
        elevator_capacities: vec![4],
        end_condition: EndCondition::Demo,
    };
    let mut w = World::new(&c, 0);
    w.elevators[0].moves = u32::MAX - 2;
    w.elevators[1].moves = u32::MAX;
    assert!(w.commands_fit(&course_changes_twice()));
    w.apply_commands(course_changes_twice());
    assert_eq!(w.elevators[0].moves, u32::MAX);
    assert_eq!(w.elevators[0].destination, 4);
    assert_eq!(w.elevators[1].moves, u32::MAX);

    let mut w2 = World::new(&c, 0);
    w2.elevators[0].moves = u32::MAX - 1;
    assert!(!w2.commands_fit(&course_changes_twice()));
}

#[test]
fn move_count_overflow_is_reported() {
    let c = Challenge {
        floor_count: 3,
        elevator_count: 2,
        spawn_rate_per_minute: 60,
        elevator_capacities: vec![4],
        end_condition: EndCondition::Demo,
    };
    let mut w = World::new(&c, 0);
    w.elevators[0].moves = u32::MAX;
    assert_eq!(w.move_count(), Some(u32::MAX));
    w.elevators[1].moves = 1;
    assert_eq!(w.move_count(), None);
}

#[test]
fn arrival_turns_off_the_destination_button() {
    let mut w = spawned(3, 30);
    w.handle_arrival(0, 0);
    let mut e = Elevator::new(0, 0, None, 0, 400, vec![]);
    e.go_to_floor(2);
    w.apply_commands(vec![e]);
    let lit_before = w.elevators[0].buttons[2];
    w.elevator_arrived(0);
    assert!(!w.elevators[0].buttons[2]);
    let _ = lit_before;
}

#[test]
fn check_end_uses_the_challenge_condition() {
    let w = World::new(&first_challenge(), 0);
    let s = Stats {
        transported_count: 15,
        move_count: 0,
        elapsed_time: Seconds::new(30, true),
        max_wait_time: Seconds::new(3, false),
    };
    assert_eq!(w.check_end(&s), Some(true));
    let s = Stats { transported_count: 3, ..s };
    assert_eq!(w.check_end(&s), None);
}

#[test]
fn car_seats_and_frees_passengers() {
    let mut car = SimElevator::new(0, 4, 2);
    assert!(!car.is_full());
    let mut rng_world = World::new(&first_challenge(), 11);
    let s1 = car.add_passenger(10, 3, &mut rng_world.rng).unwrap();
    let s2 = car.add_passenger(11, 1, &mut rng_world.rng).unwrap();
    assert_ne!(s1, s2);
    assert!(car.is_full());
    assert!(car.buttons[3] && car.buttons[1] && !car.buttons[0]);
    assert_eq!(car.add_passenger(12, 2, &mut rng_world.rng), None);
    assert!(!car.buttons[2]);
    assert!(car.remove_passenger(10));
    assert_eq!(car.slots[s1], None);
    assert!(!car.remove_passenger(10));
    assert_eq!(car.capacity(), 2);
}

#[test]
fn car_go_to_floor_clamps_and_counts_moves() {
    let mut car = SimElevator::new(0, 5, 4);
    car.go_to_floor(0);
    assert_eq!(car.moves, 0);
    car.go_to_floor(9);
    assert_eq!((car.destination, car.moves), (4, 1));
    car.go_to_floor(4);
    assert_eq!((car.destination, car.moves), (4, 1));
    car.go_to_floor(-1);
    assert_eq!((car.destination, car.moves), (0, 2));
    car.arrive();
    assert!(!car.buttons[0]);
}

#[test]
fn passenger_exits_only_at_destination() {
    let p = SimPassenger {
        id: 1,
        weight: 70,
        starting_floor: 0,
        destination_floor: 2,
        state: PassengerState::Riding,
        elevator_index: Some(0),
        slot: Some(0),
    };
    assert!(p.should_exit_at(2));
    assert!(!p.should_exit_at(0));
}

#[test]
fn seating_draws_a_free_slot() {
    let mut slots_taken = Vec::new();
    for seed in 0..20u64 {
        let mut w = World::new(&first_challenge(), seed);
        let mut car = SimElevator::new(0, 3, 4);
        let s = car.add_passenger(1, 2, &mut w.rng).unwrap();
        assert!(s < 4);
        slots_taken.push(s);
    }
    assert!(slots_taken.iter().any(|s| *s != slots_taken[0]), "the slot is drawn, not fixed");
}

fn one_car(floors: usize, capacity: usize) -> World {
    let c = Challenge {
        floor_count: floors,
        elevator_count: 1,
        spawn_rate_per_minute: 60,
        elevator_capacities: vec![capacity],
        end_condition: EndCondition::Demo,
    };
    World::new(&c, 0)
}

#[test]
fn waiting_passenger_boards_a_one_seat_car() {
    let mut w = one_car(3, 1);
    w.passengers = vec![SimPassenger {
        id: 0,
        weight: 70,
        starting_floor: 0,
        destination_floor: 2,
        state: PassengerState::Waiting,
        elevator_index: None,
        slot: None,
    }];
    w.next_passenger_id = 1;
    w.floor_buttons[0].up = true;
    let exited = w.handle_arrival(0, 0);
    assert!(exited.is_empty());
    assert_eq!(w.passengers[0].state, PassengerState::Riding);
    assert_eq!(w.passengers[0].elevator_index, Some(0));
    assert_eq!(w.passengers[0].slot, Some(0));
    assert_eq!(w.elevators[0].slots, vec![Some(0)]);
    assert_eq!(w.elevators[0].buttons, vec![false, false, true]);
    assert!(!w.floor_buttons[0].up && !w.floor_buttons[0].down);
    assert_eq!(w.transported_count, 0);
}

#[test]
fn rider_gets_off_at_destination() {
    let mut w = one_car(3, 2);
    w.elevators[0].destination = 2;
    w.elevators[0].slots = vec![Some(5), None];
    w.passengers = vec![SimPassenger {
        id: 5,
        weight: 60,
        starting_floor: 0,
        destination_floor: 2,
        state: PassengerState::Riding,
        elevator_index: Some(0),
        slot: Some(0),
    }];
    w.next_passenger_id = 6;
    let exited = w.handle_arrival(0, 2);
    assert_eq!(exited, vec![5]);
    assert_eq!(w.elevators[0].slots, vec![None, None]);
    assert_eq!(w.passengers.len(), 1);
    assert_eq!(w.passengers[0].state, PassengerState::Exited);
    assert_eq!(w.passengers[0].elevator_index, None);
    assert_eq!(w.passengers[0].slot, None);
    assert_eq!(w.transported_count, 1);
}

#[test]
fn the_first_waiting_board_while_there_is_room() {
    let mut w = one_car(4, 2);
    let waiting = |id: u64, start: i32, dest: i32| SimPassenger {
        id,
        weight: 80,
        starting_floor: start,
        destination_floor: dest,
        state: PassengerState::Waiting,
        elevator_index: None,
        slot: None,
    };
    w.passengers = vec![
        waiting(0, 1, 0),
        waiting(1, 1, 3),
        waiting(2, 2, 3),
        waiting(3, 1, 2),
        waiting(4, 1, 3),
    ];
    w.next_passenger_id = 5;
    w.floor_buttons[1].up = true;
    w.floor_buttons[1].down = true;
    w.floor_buttons[2].up = true;
    let exited = w.handle_arrival(0, 1);
    assert!(exited.is_empty());
    let states: Vec<PassengerState> = w.passengers.iter().map(|p| p.state).collect();
    // Car of two seats at floor 1, serving both ways: passengers 0 and 1
    // board; 3 and 4 are left behind; 2 waits on another floor.
    assert_eq!(
        states,
        vec![
            PassengerState::Riding,
            PassengerState::Riding,
            PassengerState::Waiting,
            PassengerState::Waiting,
            PassengerState::Waiting
        ]
    );
    assert!(w.elevators[0].is_full());
    assert!(w.elevators[0].buttons[0] && w.elevators[0].buttons[3] && !w.elevators[0].buttons[2]);
    // Someone still waits up on floor 1, nobody down.
    assert!(w.floor_buttons[1].up);
    assert!(!w.floor_buttons[1].down);
    assert!(w.floor_buttons[2].up);
}

#[test]
fn a_world_without_floors_can_be_built() {
    let w = one_car(0, 4);
    assert_eq!(w.floor_count, 0);
    assert!(w.floor_buttons.is_empty());
    assert!(w.elevators[0].buttons.is_empty());
    assert_eq!(w.elevators[0].destination, 0);
    // Commands to nonexistent cars are dropped.
    let mut stray = Elevator::new(3, 0, None, 0, 400, vec![]);
    stray.go_to_floor(1);
    let mut w = w;
    w.apply_commands(vec![stray]);
    assert_eq!(w.move_count(), Some(0));
}
