//! Properties that span several operations of the simulation.
use vstd::prelude::*;
use crate::game::ElevatorView;
use crate::reducer::{dispatched, idle_count, rotated};
use crate::sim::passenger::PassengerState;
use crate::sim::consistency::{
    seated,
    command_floors,
    commanded_floors,
    snapshot_of,
    exits,
    rider_in,
    lemma_exits_has,
    lemma_exits_from,
    lemma_first_unique,
    lemma_first_passenger_with,
    ids_unique,
    lit_floors,
    answered,
    car_load,
    can_board,
    alights,
    alighted,
    boarded,
    total_moves,
    final_destination,
    moves_made,
};
use crate::sim::physics::{clamp_floor, free_slots, SimElevator};
use crate::sim::world::FloorButtons;
use crate::sim::passenger::SimPassenger;
use crate::sim::world::{CarPosition, World};

verus! {

/// No two riders sit in the same slot of the same car, so a car never
/// carries more riders than it has slots.
pub proof fn riders_never_share_a_slot(w: World, a: int, b: int)
    requires
        w.wf(),
        0 <= a < w.passengers@.len(),
        0 <= b < w.passengers@.len(),
        a != b,
        w.passengers@[a].state == PassengerState::Riding,
        w.passengers@[b].state == PassengerState::Riding,
        w.passengers@[a].elevator_index == w.passengers@[b].elevator_index,
    ensures
        w.passengers@[a].slot != w.passengers@[b].slot,
{
    let ps = w.passengers@;
    assert(seated(ps[a], w.elevators@));
    assert(seated(ps[b], w.elevators@));
    assert(ps[a].id != ps[b].id);
}

/// The snapshot of car `k` of a well-formed world carries `k` as its id.
pub proof fn snapshot_ids_are_car_numbers(w: World, k: int, pos: CarPosition)
    requires
        w.wf(),
        0 <= k < w.elevators@.len(),
        w.elevators@.len() <= u32::MAX + 1,
    ensures
        snapshot_of(w.elevators@[k], pos, w.passengers@).id as int == k,
{
    assert(w.elevators@[k].index == k);
}

/// When the snapshots carry their positions as ids, the commands that
/// reach car `e` are exactly the ones given to snapshot `e`, in order.
pub proof fn commands_reach_their_car(snaps: Seq<ElevatorView>, e: int)
    requires
        0 <= e < snaps.len(),
        forall|k: int| 0 <= k < snaps.len() ==> (#[trigger] snaps[k]).id as int == k,
    ensures
        commanded_floors(snaps, e) == command_floors(snaps[e].commands),
    decreases snaps.len(),
{
    if e < snaps.len() - 1 {
        let t = snaps.drop_last();
        assert forall|k: int| 0 <= k < t.len() implies (#[trigger] t[k]).id as int == k by {
            assert(t[k] == snaps[k]);
        }
        commands_reach_their_car(t, e);
        assert(snaps.last().id as int == snaps.len() - 1);
        assert(commanded_floors(snaps, e) =~= commanded_floors(t, e));
    } else {
        lemma_no_commands_elsewhere(snaps.drop_last(), e);
        assert(commanded_floors(snaps, e) =~= command_floors(snaps[e].commands));
    }
}

proof fn lemma_no_commands_elsewhere(snaps: Seq<ElevatorView>, e: int)
    requires
        snaps.len() <= e,
        forall|k: int| 0 <= k < snaps.len() ==> (#[trigger] snaps[k]).id as int == k,
    ensures
        commanded_floors(snaps, e) == Seq::<i32>::empty(),
    decreases snaps.len(),
{
    if snaps.len() > 0 {
        let t = snaps.drop_last();
        assert forall|k: int| 0 <= k < t.len() implies (#[trigger] t[k]).id as int == k by {
            assert(t[k] == snaps[k]);
        }
        lemma_no_commands_elsewhere(t, e);
        assert(snaps.last().id as int == snaps.len() - 1);
    }
}

} // verus!

verus! {

/// One round of play: when the algorithm is handed snapshots that carry
/// their positions as ids and no command yet, and runs one `tick` from
/// rotation point `next`, then each car is commanded exactly once if it was
/// idle (to the next floor of the rotation) and not at all if it was
/// travelling.
pub proof fn one_round_commands_each_idle_car_once(es: Seq<ElevatorView>, next: int, floor_count: int, e: int)
    requires
        0 <= e < es.len(),
        forall|k: int| 0 <= k < es.len() ==> (#[trigger] es[k]).id as int == k && es[k].commands.len() == 0,
    ensures
        commanded_floors(Seq::new(es.len(), |i: int| dispatched(es, i, next, floor_count)), e) == if es[e].destination_floor
            is None {
            seq![rotated(next, floor_count, idle_count(es, e) + 1) as i32]
        } else {
            Seq::<i32>::empty()
        },
{
    let after = Seq::new(es.len(), |i: int| dispatched(es, i, next, floor_count));
    assert forall|k: int| 0 <= k < after.len() implies (#[trigger] after[k]).id as int == k by {
        assert(after[k] == dispatched(es, k, next, floor_count));
    }
    commands_reach_their_car(after, e);
    assert(after[e] == dispatched(es, e, next, floor_count));
    assert(command_floors(after[e].commands) =~= if es[e].destination_floor is None {
        seq![rotated(next, floor_count, idle_count(es, e) + 1) as i32]
    } else {
        Seq::<i32>::empty()
    });
}

/// A car that stops at `floor` lets off every one of its riders bound
/// there, whatever the floor: each is among the passengers that
/// `handle_arrival` returns (the `exits` of the car's slots), and so is
/// counted as transported.
pub proof fn riders_bound_for_the_floor_get_off(w: World, e: int, floor: i32, i: int)
    requires
        w.wf(),
        0 <= e < w.elevators@.len(),
        0 <= i < w.passengers@.len(),
        w.passengers@[i].state == PassengerState::Riding,
        w.passengers@[i].elevator_index == Some(e as usize),
        w.passengers@[i].destination_floor == floor,
    ensures
        exits(w.passengers@, w.elevators@[e].slots@, floor).contains(w.passengers@[i].id),
{
    let ps = w.passengers@;
    assert(seated(ps[i], w.elevators@));
    lemma_first_unique(ps, i);
    lemma_exits_has(ps, w.elevators@[e].slots@, floor, ps[i].slot->0 as int, ps[i].id);
}

/// Everyone a car lets off at `floor` is one of its riders bound there.
pub proof fn only_riders_bound_for_the_floor_get_off(w: World, e: int, floor: i32, id: u64)
    requires
        w.wf(),
        0 <= e < w.elevators@.len(),
        exits(w.passengers@, w.elevators@[e].slots@, floor).contains(id),
    ensures
        exists|i: int|
            0 <= i < w.passengers@.len() && #[trigger] w.passengers@[i].id == id && w.passengers@[i].state
                == PassengerState::Riding && w.passengers@[i].elevator_index == Some(e as usize)
                && w.passengers@[i].destination_floor == floor,
{
    let ps = w.passengers@;
    let slots = w.elevators@[e].slots@;
    lemma_exits_from(ps, slots, floor, id);
    let s = choose|s: int| 0 <= s < slots.len() && slots[s] == Some(id);
    assert(w.elevators@[e].slots@[s] is Some);
    assert(rider_in(ps, e, s, id));
    let i = choose|i: int|
        0 <= i < ps.len() && #[trigger] ps[i].id == id && ps[i].state == PassengerState::Riding
            && ps[i].elevator_index is Some && ps[i].elevator_index->0 == e && ps[i].slot is Some
            && ps[i].slot->0 == s;
    lemma_first_unique(ps, i);
    assert(ps[i].elevator_index == Some(e as usize));
    assert(ps[i].destination_floor == floor);
}

proof fn lemma_lit_floors(buttons: Seq<bool>)
    requires
        buttons.len() <= i32::MAX,
    ensures
        forall|f: int| 0 <= f < buttons.len() ==> (lit_floors(buttons).contains(f as i32) <==> #[trigger] buttons[f]),
        forall|j: int| 0 <= j < lit_floors(buttons).len() ==> 0 <= #[trigger] lit_floors(buttons)[j] < buttons.len(),
    decreases buttons.len(),
{
    if buttons.len() > 0 {
        let t = buttons.drop_last();
        lemma_lit_floors(t);
        let l = lit_floors(t);
        let n = buttons.len() - 1;
        assert forall|f: int| 0 <= f < buttons.len() implies (lit_floors(buttons).contains(f as i32)
            <==> #[trigger] buttons[f]) by {
            if buttons.last() {
                assert(lit_floors(buttons) == l.push(n as i32));
                if f < n {
                    assert(t[f] == buttons[f]);
                    if l.contains(f as i32) {
                        let j = choose|j: int| 0 <= j < l.len() && l[j] == f as i32;
                        assert(l.push(n as i32)[j] == f as i32);
                    }
                    if l.push(n as i32).contains(f as i32) {
                        let j = choose|j: int| 0 <= j < l.len() + 1 && #[trigger] l.push(n as i32)[j] == f as i32;
                        if j < l.len() {
                            assert(l[j] == f as i32);
                        }
                    }
                } else {
                    assert(l.push(n as i32)[l.len() as int] == f as i32);
                }
            } else {
                if f < n {
                    assert(t[f] == buttons[f]);
                } else {
                    if l.contains(f as i32) {
                        let j = choose|j: int| 0 <= j < l.len() && l[j] == f as i32;
                        assert(0 <= l[j] < t.len());
                    }
                }
            }
        }
    }
}

/// The algorithm sees each car as it is: its snapshot carries the car's
/// number, the floor its position gives (moving or not), where it is headed
/// while it moves and no destination while it stands, no commands yet, and
/// exactly the floors whose buttons are lit in the car.
pub proof fn snapshots_show_the_cars_as_they_are(w: World, k: int, pos: CarPosition)
    requires
        w.wf(),
        0 <= k < w.elevators@.len(),
        w.elevators@.len() <= u32::MAX + 1,
    ensures
        ({
            let car = w.elevators@[k];
            let v = snapshot_of(car, pos, w.passengers@);
            &&& v.id as int == k
            &&& v.current_floor == pos.current_floor
            &&& pos.moving ==> v.destination_floor == Some(car.destination)
            &&& !pos.moving ==> v.destination_floor is None
            &&& v.commands.len() == 0
            &&& forall|f: int|
                0 <= f < car.buttons@.len() ==> (v.pressed_buttons.contains(f as i32) <==> #[trigger] car.buttons@[f])
        }),
{
    let car = w.elevators@[k];
    assert(car.index == k);
    assert(car.buttons@.len() == w.floor_count);
    lemma_lit_floors(car.buttons@);
}

/// When a car that serves a direction leaves a floor, the floor's call for
/// that direction stays lit only while someone waiting on that same floor
/// still wants to go that way; a call for a direction the car does not serve
/// is left as it was, and no call is ever lit by it.
pub proof fn served_calls_go_out(b: FloorButtons, going_up: bool, going_down: bool, ps: Seq<SimPassenger>, floor: i32)
    ensures
        ({
            let a = answered(b, going_up, going_down, ps, floor);
            let someone_up = exists|i: int|
                0 <= i < ps.len() && (#[trigger] ps[i]).state == PassengerState::Waiting && ps[i].starting_floor
                    == floor && ps[i].destination_floor > floor;
            let someone_down = exists|i: int|
                0 <= i < ps.len() && (#[trigger] ps[i]).state == PassengerState::Waiting && ps[i].starting_floor
                    == floor && ps[i].destination_floor < floor;
            &&& a.up ==> b.up
            &&& a.down ==> b.down
            &&& going_up && !someone_up ==> !a.up
            &&& going_down && !someone_down ==> !a.down
            &&& someone_up || !going_up ==> a.up == b.up
            &&& someone_down || !going_down ==> a.down == b.down
        }),
{
}

proof fn lemma_car_load_bound(ps: Seq<SimPassenger>, slots: Seq<Option<u64>>)
    requires
        forall|i: int| 0 <= i < ps.len() ==> 0 <= (#[trigger] ps[i]).weight <= 100,
    ensures
        0 <= car_load(ps, slots) <= 100 * slots.len(),
    decreases slots.len(),
{
    if slots.len() > 0 {
        lemma_car_load_bound(ps, slots.drop_last());
        match slots.last() {
            Some(id) => {
                lemma_first_passenger_with(ps, id);
            },
            None => {},
        }
    }
}

proof fn lemma_car_load_remove(ps: Seq<SimPassenger>, slots: Seq<Option<u64>>, s: int, i: int)
    requires
        ids_unique(ps),
        0 <= i < ps.len(),
        0 <= s < slots.len(),
        slots[s] == Some(ps[i].id),
    ensures
        car_load(ps, slots) == car_load(ps, slots.update(s, None)) + ps[i].weight,
    decreases slots.len(),
{
    lemma_first_unique(ps, i);
    let t = slots.update(s, None);
    if s == slots.len() - 1 {
        assert(t.drop_last() =~= slots.drop_last());
    } else {
        assert(t.drop_last() =~= slots.drop_last().update(s, None));
        lemma_car_load_remove(ps, slots.drop_last(), s, i);
    }
}

/// The load a car shows is the weight of the passengers in its slots: an
/// empty car weighs nothing, and taking a passenger out of its slot takes
/// off exactly that passenger's weight. A snapshot shows that load.
pub proof fn load_is_the_riders_weight(w: World, k: int, pos: CarPosition, s: int, i: int)
    requires
        w.wf(),
        0 <= k < w.elevators@.len(),
        w.elevators@[k].slots@.len() * 100 <= u64::MAX,
        0 <= s < w.elevators@[k].slots@.len(),
        0 <= i < w.passengers@.len(),
    ensures
        snapshot_of(w.elevators@[k], pos, w.passengers@).load == car_load(w.passengers@, w.elevators@[k].slots@),
        (forall|j: int| 0 <= j < w.elevators@[k].slots@.len() ==> (#[trigger] w.elevators@[k].slots@[j]) is None)
            ==> car_load(w.passengers@, w.elevators@[k].slots@) == 0,
        w.elevators@[k].slots@[s] == Some(w.passengers@[i].id) ==> car_load(w.passengers@, w.elevators@[k].slots@)
            == car_load(w.passengers@, w.elevators@[k].slots@.update(s, None)) + w.passengers@[i].weight,
{
    let ps = w.passengers@;
    let slots = w.elevators@[k].slots@;
    assert forall|j: int| 0 <= j < ps.len() implies 0 <= (#[trigger] ps[j]).weight <= 100 by {}
    lemma_car_load_bound(ps, slots);
    if forall|j: int| 0 <= j < slots.len() ==> (#[trigger] slots[j]) is None {
        lemma_car_load_empty(ps, slots);
    }
    if slots[s] == Some(ps[i].id) {
        lemma_car_load_remove(ps, slots, s, i);
    }
}

proof fn lemma_car_load_empty(ps: Seq<SimPassenger>, slots: Seq<Option<u64>>)
    requires
        forall|j: int| 0 <= j < slots.len() ==> (#[trigger] slots[j]) is None,
    ensures
        car_load(ps, slots) == 0,
    decreases slots.len(),
{
    if slots.len() > 0 {
        assert(slots[slots.len() - 1] is None);
        lemma_car_load_empty(ps, slots.drop_last());
    }
}

/// Who gets on at a stop: exactly the passengers waiting on that floor who
/// want to go a way the car serves.
pub proof fn who_may_board(p: SimPassenger, floor: i32, going_up: bool, going_down: bool)
    ensures
        can_board(p, floor, going_up, going_down) <==> (p.state == PassengerState::Waiting && p.starting_floor == floor
            && ((going_up && p.destination_floor > floor) || (going_down && p.destination_floor < floor))),
{
}

/// Who gets off at a stop: exactly the riders of that car bound for that
/// floor. Getting off leaves a passenger gone from every car; getting on
/// seats it, riding, in the slot it took; nothing else about it changes.
pub proof fn getting_on_and_off(p: SimPassenger, e: usize, floor: i32, s: usize)
    ensures
        alights(p, e as int, floor) <==> (p.state == PassengerState::Riding && p.elevator_index == Some(e)
            && p.destination_floor == floor),
        alighted(p).state == PassengerState::Exited,
        alighted(p).elevator_index is None && alighted(p).slot is None,
        alighted(p).id == p.id && alighted(p).starting_floor == p.starting_floor
            && alighted(p).destination_floor == p.destination_floor && alighted(p).weight == p.weight,
        boarded(p, e, s).state == PassengerState::Riding,
        boarded(p, e, s).elevator_index == Some(e) && boarded(p, e, s).slot == Some(s),
        boarded(p, e, s).id == p.id && boarded(p, e, s).starting_floor == p.starting_floor
            && boarded(p, e, s).destination_floor == p.destination_floor && boarded(p, e, s).weight == p.weight,
{
}

/// The move count is the sum of the cars' moves: no cars, no moves; and
/// changing one car's count changes the total by the same amount.
pub proof fn move_count_adds_up_the_cars(es: Seq<SimElevator>, k: int, c: SimElevator)
    requires
        0 <= k < es.len(),
    ensures
        total_moves(Seq::<SimElevator>::empty()) == 0,
        total_moves(es.update(k, c)) == total_moves(es) - es[k].moves + c.moves,
    decreases es.len(),
{
    let t = es.update(k, c);
    if k == es.len() - 1 {
        assert(t.drop_last() =~= es.drop_last());
    } else {
        assert(t.drop_last() =~= es.drop_last().update(k, c));
        move_count_adds_up_the_cars(es.drop_last(), k, c);
    }
}

/// The free slots a boarding passenger picks from are exactly the empty
/// slots, in increasing order.
pub proof fn free_slots_are_the_empty_slots_in_order(slots: Seq<Option<u64>>)
    ensures
        forall|j: int| 0 <= j < slots.len() ==> (free_slots(slots).contains(j) <==> (#[trigger] slots[j]) is None),
        forall|a: int, b: int|
            0 <= a < b < free_slots(slots).len() ==> #[trigger] free_slots(slots)[a] < #[trigger] free_slots(slots)[b],
        forall|a: int| 0 <= a < free_slots(slots).len() ==> 0 <= #[trigger] free_slots(slots)[a] < slots.len(),
    decreases slots.len(),
{
    if slots.len() > 0 {
        let t = slots.drop_last();
        free_slots_are_the_empty_slots_in_order(t);
        let f = free_slots(t);
        let n = slots.len() - 1;
        assert forall|j: int| 0 <= j < slots.len() implies (free_slots(slots).contains(j) <==> (
        #[trigger] slots[j]) is None) by {
            if slots.last() is None {
                assert(free_slots(slots) == f.push(n));
                if j < n {
                    assert(t[j] == slots[j]);
                    if f.contains(j) {
                        let x = choose|x: int| 0 <= x < f.len() && f[x] == j;
                        assert(f.push(n)[x] == j);
                    }
                    if f.push(n).contains(j) {
                        let x = choose|x: int| 0 <= x < f.len() + 1 && #[trigger] f.push(n)[x] == j;
                        if x < f.len() {
                            assert(f[x] == j);
                        }
                    }
                } else {
                    assert(f.push(n)[f.len() as int] == j);
                }
            } else {
                if j < n {
                    assert(t[j] == slots[j]);
                } else if f.contains(j) {
                    let x = choose|x: int| 0 <= x < f.len() && f[x] == j;
                    assert(f[x] < t.len());
                }
            }
        }
    }
}

/// A command is held to the building: the floor a car is sent to is the
/// nearest floor of the building to the one asked for.
pub proof fn commands_are_held_to_the_building(floor: int, max_floor: int)
    requires
        max_floor >= 1,
    ensures
        0 <= clamp_floor(floor, max_floor) < max_floor,
        0 <= floor < max_floor ==> clamp_floor(floor, max_floor) == floor,
        floor < 0 ==> clamp_floor(floor, max_floor) == 0,
        floor >= max_floor ==> clamp_floor(floor, max_floor) == max_floor - 1,
{
}

/// After a run of commands a car is headed where the last one sent it (or
/// where it was headed, with none); sending it where it is already headed
/// is no move, so repeating a command adds nothing, and a run of commands
/// never counts more moves than it has commands.
pub proof fn repeated_commands_are_no_moves(dest: int, floors: Seq<i32>, f: i32, max_floor: int)
    ensures
        final_destination(dest, floors.push(f), max_floor) == clamp_floor(f as int, max_floor),
        final_destination(dest, Seq::<i32>::empty(), max_floor) == dest,
        moves_made(dest, floors.push(f).push(f), max_floor) == moves_made(dest, floors.push(f), max_floor),
        moves_made(dest, floors.push(f), max_floor) == moves_made(dest, floors, max_floor) + if clamp_floor(
            f as int,
            max_floor,
        ) == final_destination(dest, floors, max_floor) {
            0int
        } else {
            1int
        },
        0 <= moves_made(dest, floors, max_floor) <= floors.len(),
    decreases floors.len(),
{
    assert(floors.push(f).drop_last() =~= floors);
    assert(floors.push(f).push(f).drop_last() =~= floors.push(f));
    if floors.len() > 0 {
        repeated_commands_are_no_moves(dest, floors.drop_last(), floors.last(), max_floor);
        assert(floors.drop_last().push(floors.last()) =~= floors);
    }
}

} // verus!
