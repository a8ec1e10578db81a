//! The elevator and floor records that an algorithm sees.

use saga::game::{Elevator, Floor};

#[test]
fn elevator_reports_what_it_was_built_with() {
    let e = Elevator::new(3, 2, Some(5), 180, 400, vec![5, 7]);
    assert_eq!(e.id(), 3);
    assert_eq!(e.current_floor(), 2);
    assert_eq!(e.destination_floor(), Some(5));
    assert_eq!(e.load(), 180);
    assert_eq!(e.max_load(), 400);
    assert_eq!(e.pressed_buttons(), &vec![5, 7]);
    assert!(e.commands().is_empty());
}

#[test]
fn commands_are_queued_in_order_and_taken_once() {
    let mut e = Elevator::new(2, 0, None, 0, 100, vec![]);
    e.go_to_floor(4);
    e.go_to_floor(1);
    assert_eq!(e.commands(), &vec![(2, 4), (2, 1)]);
    assert_eq!(e.take_commands(), vec![(2, 4), (2, 1)]);
    assert!(e.take_commands().is_empty());
    assert_eq!(e.destination_floor(), None);
}

#[test]
fn floor_reports_its_buttons() {
    let f = Floor::new(6, true, false);
    assert_eq!(f.level(), 6);
    assert!(f.up_pressed());
    assert!(!f.down_pressed());
}
