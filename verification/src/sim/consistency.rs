//! What every world keeps true of itself, piece by piece, and the facts the
//! operations of `world` are proved with.
use vstd::prelude::*;
use crate::game::ElevatorView;
use crate::sim::passenger::{PassengerState, SimPassenger};
use crate::sim::physics::{clamp_floor, free_slots, SimElevator};
use crate::sim::world::{CarPosition, FloorButtons, MAX_PASSENGER_WEIGHT, MIN_PASSENGER_WEIGHT};

verus! {

/// No two passengers share an id.
pub open spec fn ids_unique(ps: Seq<SimPassenger>) -> bool {
    forall|i: int, j: int|
        0 <= i < ps.len() && 0 <= j < ps.len() && i != j ==> #[trigger] ps[i].id != #[trigger] ps[j].id
}

/// Passenger `p` sits where it says it sits.
pub open spec fn seated(p: SimPassenger, es: Seq<SimElevator>) -> bool {
    &&& p.elevator_index is Some
    &&& p.slot is Some
    &&& p.elevator_index->0 < es.len()
    &&& p.slot->0 < es[p.elevator_index->0 as int].slots@.len()
    &&& es[p.elevator_index->0 as int].slots@[p.slot->0 as int] == Some(p.id)
}

/// Every rider sits in the slot it names; no one else names a slot.
pub open spec fn riders_seated(ps: Seq<SimPassenger>, es: Seq<SimElevator>) -> bool {
    forall|i: int|
        0 <= i < ps.len() ==> if #[trigger] ps[i].state == PassengerState::Riding {
            seated(ps[i], es)
        } else {
            ps[i].elevator_index is None && ps[i].slot is None
        }
}

/// Some rider sits in slot `s` of car `e` and has id `id`.
pub open spec fn rider_in(ps: Seq<SimPassenger>, e: int, s: int, id: u64) -> bool {
    exists|i: int|
        0 <= i < ps.len() && #[trigger] ps[i].id == id && ps[i].state == PassengerState::Riding
            && ps[i].elevator_index is Some && ps[i].elevator_index->0 == e && ps[i].slot is Some
            && ps[i].slot->0 == s
}

/// Every taken slot holds a rider who sits there.
pub open spec fn slots_owned(ps: Seq<SimPassenger>, es: Seq<SimElevator>) -> bool {
    forall|e: int, s: int|
        0 <= e < es.len() && 0 <= s < es[e].slots@.len() && (#[trigger] es[e].slots@[s]) is Some
            ==> rider_in(ps, e, s, es[e].slots@[s]->0)
}

/// Every passenger travels between two different floors of the building and
/// weighs what a passenger may weigh.
pub open spec fn trips_valid(ps: Seq<SimPassenger>, floor_count: int) -> bool {
    forall|i: int|
        0 <= i < ps.len() ==> {
            &&& 0 <= (#[trigger] ps[i]).starting_floor < floor_count
            &&& 0 <= ps[i].destination_floor < floor_count
            &&& ps[i].starting_floor != ps[i].destination_floor
            &&& MIN_PASSENGER_WEIGHT <= ps[i].weight <= MAX_PASSENGER_WEIGHT
        }
}

/// Every waiting passenger's call is lit on its floor.
pub open spec fn calls_lit(ps: Seq<SimPassenger>, fb: Seq<FloorButtons>) -> bool {
    forall|i: int|
        0 <= i < ps.len() && #[trigger] ps[i].state == PassengerState::Waiting ==> {
            &&& ps[i].destination_floor > ps[i].starting_floor ==> fb[ps[i].starting_floor as int].up
            &&& ps[i].destination_floor < ps[i].starting_floor ==> fb[ps[i].starting_floor as int].down
        }
}

/// The building's shape: one set of call buttons per floor, and every car
/// knows its number, the floor count, has one button per floor and is
/// headed for a floor of the building (the ground floor when there is none).
pub open spec fn shape(floor_count: int, es: Seq<SimElevator>, fb: Seq<FloorButtons>) -> bool {
    &&& 0 <= floor_count <= i32::MAX
    &&& fb.len() == floor_count
    &&& forall|e: int|
        0 <= e < es.len() ==> {
            &&& (#[trigger] es[e]).index == e
            &&& es[e].max_floor == floor_count
            &&& es[e].buttons@.len() == floor_count
            &&& 0 <= es[e].destination && (es[e].destination < floor_count || es[e].destination == 0)
        }
}

/// Every passenger's id is below `next_id`.
pub open spec fn ids_below(ps: Seq<SimPassenger>, next_id: u64) -> bool {
    forall|i: int| 0 <= i < ps.len() ==> #[trigger] ps[i].id < next_id
}

/// The invariant of a world, over its parts.
pub open spec fn world_inv(
    floor_count: int,
    es: Seq<SimElevator>,
    ps: Seq<SimPassenger>,
    fb: Seq<FloorButtons>,
    next_id: u64,
) -> bool {
    &&& shape(floor_count, es, fb)
    &&& ids_unique(ps)
    &&& ids_below(ps, next_id)
    &&& riders_seated(ps, es)
    &&& slots_owned(ps, es)
    &&& trips_valid(ps, floor_count)
    &&& calls_lit(ps, fb)
}

/// A passenger as it is spawned: waiting, unseated, between two different
/// floors, of a passenger's weight.
pub open spec fn fresh_passenger(p: SimPassenger, id: u64, floor_count: int) -> bool {
    &&& p.id == id
    &&& p.state == PassengerState::Waiting
    &&& p.elevator_index is None
    &&& p.slot is None
    &&& 0 <= p.starting_floor < floor_count
    &&& 0 <= p.destination_floor < floor_count
    &&& p.starting_floor != p.destination_floor
    &&& MIN_PASSENGER_WEIGHT <= p.weight <= MAX_PASSENGER_WEIGHT
}

pub(crate) proof fn lemma_total_moves_monotone(es: Seq<SimElevator>, i: int)
    requires
        0 <= i <= es.len(),
    ensures
        total_moves(es.take(i)) <= total_moves(es),
    decreases es.len(),
{
    if i < es.len() {
        assert(es.drop_last().take(i) =~= es.take(i));
        lemma_total_moves_monotone(es.drop_last(), i);
    } else {
        assert(es.take(i) =~= es);
    }
}

/// The floors of a list of commands, in order.
pub open spec fn command_floors(cmds: Seq<(u32, i32)>) -> Seq<i32> {
    cmds.map_values(|c: (u32, i32)| c.1)
}

/// The floors that the snapshots, in order, command car `e` to.
pub open spec fn commanded_floors(snaps: Seq<ElevatorView>, e: int) -> Seq<i32>
    decreases snaps.len(),
{
    if snaps.len() == 0 {
        Seq::empty()
    } else {
        commanded_floors(snaps.drop_last(), e) + if snaps.last().id as int == e {
            command_floors(snaps.last().commands)
        } else {
            Seq::empty()
        }
    }
}

/// Where a car headed for `dest` is headed after being sent to `floors` in
/// turn: the last of them, held to the building, if there is one.
pub open spec fn final_destination(dest: int, floors: Seq<i32>, max_floor: int) -> int {
    if floors.len() == 0 {
        dest
    } else {
        clamp_floor(floors.last() as int, max_floor)
    }
}

/// How many of those commands change where the car is headed.
pub open spec fn moves_made(dest: int, floors: Seq<i32>, max_floor: int) -> int
    decreases floors.len(),
{
    if floors.len() == 0 {
        0
    } else {
        moves_made(dest, floors.drop_last(), max_floor) + if final_destination(
            dest,
            floors.drop_last(),
            max_floor,
        ) == clamp_floor(floors.last() as int, max_floor) {
            0int
        } else {
            1int
        }
    }
}

/// Commands given in a prefix of a list never change the car's course more
/// often than those of the whole list.
pub(crate) proof fn lemma_moves_made_prefix(dest: int, floors: Seq<i32>, j: int, max_floor: int)
    requires
        0 <= j <= floors.len(),
    ensures
        moves_made(dest, floors.take(j), max_floor) <= moves_made(dest, floors, max_floor),
    decreases floors.len(),
{
    if j == floors.len() {
        assert(floors.take(j) =~= floors);
    } else {
        assert(floors.drop_last().take(j) =~= floors.take(j));
        lemma_moves_made_prefix(dest, floors.drop_last(), j, max_floor);
    }
}

/// The floors that the first `k` snapshots command a car to come first
/// among those that all of them command it to.
pub(crate) proof fn lemma_commanded_floors_prefix(snaps: Seq<ElevatorView>, k: int, e: int)
    requires
        0 <= k <= snaps.len(),
    ensures
        commanded_floors(snaps.take(k), e).len() <= commanded_floors(snaps, e).len(),
        commanded_floors(snaps, e).take(commanded_floors(snaps.take(k), e).len() as int)
            =~= commanded_floors(snaps.take(k), e),
    decreases snaps.len(),
{
    let all = commanded_floors(snaps, e);
    if k == snaps.len() {
        assert(snaps.take(k) =~= snaps);
    } else {
        let rest = snaps.drop_last();
        assert(rest.take(k) =~= snaps.take(k));
        lemma_commanded_floors_prefix(rest, k, e);
        let mid = commanded_floors(rest, e);
        let pre = commanded_floors(snaps.take(k), e);
        assert(all.take(mid.len() as int) =~= mid);
        assert(all.take(pre.len() as int) =~= mid.take(pre.len() as int));
    }
}

/// Changing what the cars are headed for and how often they moved, and
/// nothing else of them, keeps the invariant's parts that speak of the
/// cars.
pub(crate) proof fn lemma_same_seats(
    floor_count: int,
    ps: Seq<SimPassenger>,
    es: Seq<SimElevator>,
    es2: Seq<SimElevator>,
    fb: Seq<FloorButtons>,
)
    requires
        shape(floor_count, es, fb),
        riders_seated(ps, es),
        slots_owned(ps, es),
        es2.len() == es.len(),
        forall|e: int|
            0 <= e < es.len() ==> {
                &&& (#[trigger] es2[e]).slots@ == es[e].slots@
                &&& es2[e].index == es[e].index
                &&& es2[e].max_floor == es[e].max_floor
                &&& es2[e].buttons@.len() == es[e].buttons@.len()
                &&& 0 <= es2[e].destination && (es2[e].destination < floor_count || es2[e].destination == 0)
            },
    ensures
        shape(floor_count, es2, fb),
        riders_seated(ps, es2),
        slots_owned(ps, es2),
{
    assert forall|e: int| 0 <= e < es2.len() implies {
        &&& (#[trigger] es2[e]).index == e
        &&& es2[e].max_floor == floor_count
        &&& es2[e].buttons@.len() == floor_count
        &&& 0 <= es2[e].destination && (es2[e].destination < floor_count || es2[e].destination == 0)
    } by {
        assert(es2[e] == es2[e]);
        assert(es[e] == es[e]);
    }
    assert forall|i: int| 0 <= i < ps.len() implies if #[trigger] ps[i].state == PassengerState::Riding {
        seated(ps[i], es2)
    } else {
        ps[i].elevator_index is None && ps[i].slot is None
    } by {
        if ps[i].state == PassengerState::Riding {
            let e = ps[i].elevator_index->0 as int;
            assert(es2[e].slots@ == es[e].slots@);
        }
    }
    assert forall|e: int, s: int|
        0 <= e < es2.len() && 0 <= s < es2[e].slots@.len() && (#[trigger] es2[e].slots@[s]) is Some
        implies rider_in(ps, e, s, es2[e].slots@[s]->0) by {
        assert(es2[e].slots@ == es[e].slots@);
        assert(es[e].slots@[s] is Some);
    }
}

/// The destination of the first passenger with id `id`, if any.
pub open spec fn destination_of(ps: Seq<SimPassenger>, id: u64) -> Option<i32> {
    match first_passenger_with(ps, id) {
        Some(i) => Some(ps[i].destination_floor),
        None => None,
    }
}

/// The ids held in `slots`, in slot order, of the passengers bound for
/// `floor`.
pub open spec fn exits(ps: Seq<SimPassenger>, slots: Seq<Option<u64>>, floor: i32) -> Seq<u64>
    decreases slots.len(),
{
    if slots.len() == 0 {
        Seq::empty()
    } else {
        let rest = exits(ps, slots.drop_last(), floor);
        match slots.last() {
            Some(id) => if destination_of(ps, id) == Some(floor) {
                rest.push(id)
            } else {
                rest
            },
            None => rest,
        }
    }
}

/// A slot holding a passenger bound for `floor` puts its id among the exits.
pub(crate) proof fn lemma_exits_has(ps: Seq<SimPassenger>, slots: Seq<Option<u64>>, floor: i32, s: int, id: u64)
    requires
        0 <= s < slots.len(),
        slots[s] == Some(id),
        destination_of(ps, id) == Some(floor),
    ensures
        exits(ps, slots, floor).contains(id),
    decreases slots.len(),
{
    let rest = exits(ps, slots.drop_last(), floor);
    if s == slots.len() - 1 {
        assert(exits(ps, slots, floor) == rest.push(id));
        assert(exits(ps, slots, floor)[rest.len() as int] == id);
    } else {
        assert(slots.drop_last()[s] == slots[s]);
        lemma_exits_has(ps, slots.drop_last(), floor, s, id);
        let j = choose|j: int| 0 <= j < rest.len() && rest[j] == id;
        assert(exits(ps, slots, floor)[j] == id);
    }
}

/// Every id among the exits sits in a slot and belongs to a passenger bound
/// for `floor`.
pub(crate) proof fn lemma_exits_from(ps: Seq<SimPassenger>, slots: Seq<Option<u64>>, floor: i32, id: u64)
    requires
        exits(ps, slots, floor).contains(id),
    ensures
        exists|s: int| 0 <= s < slots.len() && slots[s] == Some(id),
        destination_of(ps, id) == Some(floor),
    decreases slots.len(),
{
    let rest = exits(ps, slots.drop_last(), floor);
    let j = choose|j: int| 0 <= j < exits(ps, slots, floor).len() && exits(ps, slots, floor)[j] == id;
    if j < rest.len() {
        match slots.last() {
            Some(x) => {
                if destination_of(ps, x) == Some(floor) {
                    assert(exits(ps, slots, floor)[j] == rest[j]);
                }
            },
            None => {},
        }
        assert(rest[j] == id);
        lemma_exits_from(ps, slots.drop_last(), floor, id);
        let s = choose|s: int| 0 <= s < slots.drop_last().len() && slots.drop_last()[s] == Some(id);
        assert(slots[s] == Some(id));
    } else {
        assert(slots[slots.len() - 1] == Some(id));
    }
}

pub(crate) proof fn lemma_exits_prefix(ps: Seq<SimPassenger>, slots: Seq<Option<u64>>, floor: i32, j: int)
    requires
        0 <= j <= slots.len(),
    ensures
        exits(ps, slots.take(j), floor).len() <= exits(ps, slots, floor).len(),
    decreases slots.len(),
{
    if j < slots.len() {
        assert(slots.drop_last().take(j) =~= slots.take(j));
        lemma_exits_prefix(ps, slots.drop_last(), floor, j);
    } else {
        assert(slots.take(j) =~= slots);
    }
}

/// `p` rides car `e` and is bound for `floor`: it gets off there.
pub open spec fn alights(p: SimPassenger, e: int, floor: i32) -> bool {
    &&& p.state == PassengerState::Riding
    &&& p.elevator_index is Some
    &&& p.elevator_index->0 == e
    &&& p.destination_floor == floor
}

/// `p` once it has left its car.
pub open spec fn alighted(p: SimPassenger) -> SimPassenger {
    SimPassenger { state: PassengerState::Exited, elevator_index: None, slot: None, ..p }
}

/// `p` once seated in slot `s` of car `e`.
pub open spec fn boarded(p: SimPassenger, e: usize, s: usize) -> SimPassenger {
    SimPassenger {
        state: PassengerState::Riding,
        elevator_index: Some(e),
        slot: Some(s),
        ..p
    }
}

/// With unique ids, the first passenger with `ps[r]`'s id is `ps[r]`.
pub(crate) proof fn lemma_first_unique(ps: Seq<SimPassenger>, r: int)
    requires
        ids_unique(ps),
        0 <= r < ps.len(),
    ensures
        first_passenger_with(ps, ps[r].id) == Some(r),
{
    lemma_first_passenger_with(ps, ps[r].id);
    match first_passenger_with(ps, ps[r].id) {
        Some(i) => {
            if i != r {
                assert(ps[i].id != ps[r].id);
            }
        },
        None => {
            assert(ps[r].id != ps[r].id);
        },
    }
}

/// Under the invariant, the passenger in a taken slot is the rider who
/// sits there, and no other slot of any car holds it.
pub(crate) proof fn lemma_occupant(
    floor_count: int,
    es: Seq<SimElevator>,
    ps: Seq<SimPassenger>,
    fb: Seq<FloorButtons>,
    next_id: u64,
    e: int,
    j: int,
) -> (r: int)
    requires
        world_inv(floor_count, es, ps, fb, next_id),
        0 <= e < es.len(),
        0 <= j < es[e].slots@.len(),
        es[e].slots@[j] is Some,
    ensures
        0 <= r < ps.len(),
        ps[r].id == es[e].slots@[j]->0,
        ps[r].state == PassengerState::Riding,
        ps[r].elevator_index is Some,
        ps[r].elevator_index->0 == e,
        ps[r].slot is Some,
        ps[r].slot->0 == j,
        first_passenger_with(ps, ps[r].id) == Some(r),
        forall|s: int| 0 <= s < es[e].slots@.len() && s != j ==> es[e].slots@[s] != Some(ps[r].id),
{
    let id = es[e].slots@[j]->0;
    assert(rider_in(ps, e, j, id));
    let r = choose|i: int|
        0 <= i < ps.len() && #[trigger] ps[i].id == id && ps[i].state == PassengerState::Riding
            && ps[i].elevator_index is Some && ps[i].elevator_index->0 == e && ps[i].slot is Some
            && ps[i].slot->0 == j;
    lemma_first_unique(ps, r);
    assert forall|s: int| 0 <= s < es[e].slots@.len() && s != j implies es[e].slots@[s] != Some(ps[r].id) by {
        if es[e].slots@[s] == Some(ps[r].id) {
            assert(rider_in(ps, e, s, id));
            let r2 = choose|i: int|
                0 <= i < ps.len() && #[trigger] ps[i].id == id && ps[i].state == PassengerState::Riding
                    && ps[i].elevator_index is Some && ps[i].elevator_index->0 == e && ps[i].slot is Some
                    && ps[i].slot->0 == s;
            if r2 != r {
                assert(ps[r2].id != ps[r].id);
            }
        }
    }
    r
}

/// Taking a rider out of its slot, and marking it as gone, keeps the
/// invariant.
pub(crate) proof fn lemma_unseat(
    floor_count: int,
    es: Seq<SimElevator>,
    ps: Seq<SimPassenger>,
    fb: Seq<FloorButtons>,
    next_id: u64,
    es2: Seq<SimElevator>,
    r: int,
    e: int,
    j: int,
)
    requires
        world_inv(floor_count, es, ps, fb, next_id),
        0 <= r < ps.len(),
        ps[r].state == PassengerState::Riding,
        ps[r].elevator_index is Some,
        ps[r].elevator_index->0 == e,
        ps[r].slot is Some,
        ps[r].slot->0 == j,
        0 <= e < es.len(),
        es2.len() == es.len(),
        forall|k: int| 0 <= k < es.len() && k != e ==> es2[k] == es[k],
        es2[e].slots@ == es[e].slots@.update(j, None),
        es2[e].index == es[e].index,
        es2[e].max_floor == es[e].max_floor,
        es2[e].destination == es[e].destination,
        es2[e].buttons@.len() == es[e].buttons@.len(),
    ensures
        world_inv(floor_count, es2, ps.update(r, alighted(ps[r])), fb, next_id),
{
    let ps2 = ps.update(r, alighted(ps[r]));
    assert forall|k: int| 0 <= k < es2.len() implies {
        &&& (#[trigger] es2[k]).index == k
        &&& es2[k].max_floor == floor_count
        &&& es2[k].buttons@.len() == floor_count
        &&& 0 <= es2[k].destination && (es2[k].destination < floor_count || es2[k].destination == 0)
    } by {
        assert(es[k] == es[k]);
    }
    assert forall|a: int, b: int|
        0 <= a < ps2.len() && 0 <= b < ps2.len() && a != b implies #[trigger] ps2[a].id != #[trigger] ps2[b].id by {
        assert(ps[a].id != ps[b].id);
    }
    assert forall|i: int| 0 <= i < ps2.len() implies #[trigger] ps2[i].id < next_id by {
        assert(ps[i].id < next_id);
    }
    assert forall|i: int| 0 <= i < ps2.len() implies if #[trigger] ps2[i].state == PassengerState::Riding {
        seated(ps2[i], es2)
    } else {
        ps2[i].elevator_index is None && ps2[i].slot is None
    } by {
        if i != r {
            assert(ps2[i] == ps[i]);
            if ps[i].state == PassengerState::Riding {
                assert(seated(ps[i], es));
                let e2 = ps[i].elevator_index->0 as int;
                let s2 = ps[i].slot->0 as int;
                if e2 == e {
                    if s2 == j {
                        assert(ps[i].id != ps[r].id);
                    }
                    assert(es2[e2].slots@[s2] == es[e2].slots@[s2]);
                } else {
                    assert(es2[e2] == es[e2]);
                }
            }
        }
    }
    assert forall|e2: int, s2: int|
        0 <= e2 < es2.len() && 0 <= s2 < es2[e2].slots@.len() && (#[trigger] es2[e2].slots@[s2]) is Some
        implies rider_in(ps2, e2, s2, es2[e2].slots@[s2]->0) by {
        let id = es2[e2].slots@[s2]->0;
        if e2 == e {
            assert(s2 != j);
            assert(es[e2].slots@[s2] == es2[e2].slots@[s2]);
        } else {
            assert(es2[e2] == es[e2]);
        }
        assert(es[e2].slots@[s2] is Some);
        assert(rider_in(ps, e2, s2, id));
        let k = choose|i: int|
            0 <= i < ps.len() && #[trigger] ps[i].id == id && ps[i].state == PassengerState::Riding
                && ps[i].elevator_index is Some && ps[i].elevator_index->0 == e2 && ps[i].slot is Some
                && ps[i].slot->0 == s2;
        assert(k != r);
        assert(ps2[k] == ps[k]);
    }
    assert forall|i: int| 0 <= i < ps2.len() implies {
        &&& 0 <= (#[trigger] ps2[i]).starting_floor < floor_count
        &&& 0 <= ps2[i].destination_floor < floor_count
        &&& ps2[i].starting_floor != ps2[i].destination_floor
        &&& MIN_PASSENGER_WEIGHT <= ps2[i].weight <= MAX_PASSENGER_WEIGHT
    } by {
        assert(ps[i] == ps[i]);
    }
    assert forall|i: int|
        0 <= i < ps2.len() && #[trigger] ps2[i].state == PassengerState::Waiting implies {
        &&& ps2[i].destination_floor > ps2[i].starting_floor ==> fb[ps2[i].starting_floor as int].up
        &&& ps2[i].destination_floor < ps2[i].starting_floor ==> fb[ps2[i].starting_floor as int].down
    } by {
        assert(ps2[i] == ps[i]);
    }
}

/// Seating a waiting passenger in a free slot keeps the invariant.
pub(crate) proof fn lemma_seat(
    floor_count: int,
    es: Seq<SimElevator>,
    ps: Seq<SimPassenger>,
    fb: Seq<FloorButtons>,
    next_id: u64,
    es2: Seq<SimElevator>,
    r: int,
    e: usize,
    j: usize,
)
    requires
        world_inv(floor_count, es, ps, fb, next_id),
        0 <= r < ps.len(),
        ps[r].state == PassengerState::Waiting,
        0 <= e < es.len(),
        0 <= j < es[e as int].slots@.len(),
        es[e as int].slots@[j as int] is None,
        es2.len() == es.len(),
        forall|k: int| 0 <= k < es.len() && k != e ==> es2[k] == es[k],
        es2[e as int].slots@ == es[e as int].slots@.update(j as int, Some(ps[r].id)),
        es2[e as int].index == es[e as int].index,
        es2[e as int].max_floor == es[e as int].max_floor,
        es2[e as int].destination == es[e as int].destination,
        es2[e as int].buttons@.len() == es[e as int].buttons@.len(),
    ensures
        world_inv(floor_count, es2, ps.update(r, boarded(ps[r], e, j)), fb, next_id),
{
    let ps2 = ps.update(r, boarded(ps[r], e, j));
    assert forall|k: int| 0 <= k < es2.len() implies {
        &&& (#[trigger] es2[k]).index == k
        &&& es2[k].max_floor == floor_count
        &&& es2[k].buttons@.len() == floor_count
        &&& 0 <= es2[k].destination && (es2[k].destination < floor_count || es2[k].destination == 0)
    } by {
        assert(es[k] == es[k]);
    }
    assert forall|a: int, b: int|
        0 <= a < ps2.len() && 0 <= b < ps2.len() && a != b implies #[trigger] ps2[a].id != #[trigger] ps2[b].id by {
        assert(ps[a].id != ps[b].id);
    }
    assert forall|i: int| 0 <= i < ps2.len() implies #[trigger] ps2[i].id < next_id by {
        assert(ps[i].id < next_id);
    }
    assert forall|i: int| 0 <= i < ps2.len() implies if #[trigger] ps2[i].state == PassengerState::Riding {
        seated(ps2[i], es2)
    } else {
        ps2[i].elevator_index is None && ps2[i].slot is None
    } by {
        if i != r {
            assert(ps2[i] == ps[i]);
            if ps[i].state == PassengerState::Riding {
                assert(seated(ps[i], es));
                let e2 = ps[i].elevator_index->0 as int;
                let s2 = ps[i].slot->0 as int;
                if e2 == e {
                    assert(s2 != j);
                    assert(es2[e2].slots@[s2] == es[e2].slots@[s2]);
                } else {
                    assert(es2[e2] == es[e2]);
                }
            }
        } else {
            assert(es2[e as int].slots@[j as int] == Some(ps[r].id));
        }
    }
    assert forall|e2: int, s2: int|
        0 <= e2 < es2.len() && 0 <= s2 < es2[e2].slots@.len() && (#[trigger] es2[e2].slots@[s2]) is Some
        implies rider_in(ps2, e2, s2, es2[e2].slots@[s2]->0) by {
        let id = es2[e2].slots@[s2]->0;
        if e2 == e && s2 == j {
            assert(ps2[r].id == id);
        } else {
            if e2 == e {
                assert(es[e2].slots@[s2] == es2[e2].slots@[s2]);
            } else {
                assert(es2[e2] == es[e2]);
            }
            assert(es[e2].slots@[s2] is Some);
            assert(rider_in(ps, e2, s2, id));
            let k = choose|i: int|
                0 <= i < ps.len() && #[trigger] ps[i].id == id && ps[i].state == PassengerState::Riding
                    && ps[i].elevator_index is Some && ps[i].elevator_index->0 == e2 && ps[i].slot is Some
                    && ps[i].slot->0 == s2;
            assert(k != r);
            assert(ps2[k] == ps[k]);
        }
    }
    assert forall|i: int| 0 <= i < ps2.len() implies {
        &&& 0 <= (#[trigger] ps2[i]).starting_floor < floor_count
        &&& 0 <= ps2[i].destination_floor < floor_count
        &&& ps2[i].starting_floor != ps2[i].destination_floor
        &&& MIN_PASSENGER_WEIGHT <= ps2[i].weight <= MAX_PASSENGER_WEIGHT
    } by {
        assert(ps[i] == ps[i]);
    }
    assert forall|i: int|
        0 <= i < ps2.len() && #[trigger] ps2[i].state == PassengerState::Waiting implies {
        &&& ps2[i].destination_floor > ps2[i].starting_floor ==> fb[ps2[i].starting_floor as int].up
        &&& ps2[i].destination_floor < ps2[i].starting_floor ==> fb[ps2[i].starting_floor as int].down
    } by {
        assert(ps2[i] == ps[i]);
    }
}

/// `p` waits on `floor` and the direction the car serves takes it where it
/// is going.
pub open spec fn can_board(p: SimPassenger, floor: i32, going_up: bool, going_down: bool) -> bool {
    &&& p.state == PassengerState::Waiting
    &&& p.starting_floor == floor
    &&& ((p.destination_floor > floor && going_up) || (p.destination_floor < floor && going_down))
}

/// Whether passenger `k`, waiting in `before`, is changed in `after`: it got
/// on a car in between.
pub open spec fn got_on(before: Seq<SimPassenger>, after: Seq<SimPassenger>, k: int) -> bool {
    before[k].state == PassengerState::Waiting && after[k] != before[k]
}

/// How many of the first `n` passengers got on a car between `before` and
/// `after`.
pub open spec fn boarding_count(before: Seq<SimPassenger>, after: Seq<SimPassenger>, n: int) -> nat
    decreases n,
{
    if n <= 0 {
        0
    } else {
        boarding_count(before, after, n - 1) + if got_on(before, after, n - 1) {
            1nat
        } else {
            0nat
        }
    }
}

/// The ranges drawn from to seat `boarders` passengers one after the other
/// in a car that has `left` free slots once they are seated: one seat index
/// each, below the number of slots still free when that passenger gets on.
pub open spec fn seat_requests(left: int, boarders: nat) -> Seq<(int, int)> {
    Seq::new(boarders, |t: int| (0int, left + boarders - 1 - t))
}

/// A car's slots with the seats of the passengers `from..to` who got on
/// emptied again: the slots as they were before those passengers sat down.
pub open spec fn unseated(
    slots: Seq<Option<u64>>,
    before: Seq<SimPassenger>,
    after: Seq<SimPassenger>,
    from: int,
    to: int,
) -> Seq<Option<u64>>
    decreases to - from,
{
    if to <= from {
        slots
    } else {
        let u = unseated(slots, before, after, from, to - 1);
        let j = after[to - 1].slot->0 as int;
        if got_on(before, after, to - 1) && 0 <= j < u.len() {
            u.update(j, None)
        } else {
            u
        }
    }
}

/// Each of the first `n` passengers who got on a car whose slots are now
/// `slots` took, among the slots free when it got on (in increasing order),
/// the one at the index drawn for it: the `t`-th of them to get on used
/// `drawn[t]`.
pub open spec fn seats_follow_draws(
    slots: Seq<Option<u64>>,
    before: Seq<SimPassenger>,
    after: Seq<SimPassenger>,
    n: int,
    drawn: Seq<int>,
) -> bool {
    forall|i: int|
        0 <= i < n && #[trigger] got_on(before, after, i) ==> {
            let t = boarding_count(before, after, i) as int;
            let free = free_slots(unseated(slots, before, after, i, n));
            &&& 0 <= t < drawn.len()
            &&& 0 <= drawn[t] < free.len()
            &&& after[i].slot == Some(free[drawn[t]] as usize)
        }
}

/// Two pairs of passenger lists in which the same positions count as
/// boardings have the same boarding count.
pub(crate) proof fn lemma_boarding_count_same(
    b1: Seq<SimPassenger>,
    a1: Seq<SimPassenger>,
    b2: Seq<SimPassenger>,
    a2: Seq<SimPassenger>,
    n: int,
)
    requires
        forall|k: int| 0 <= k < n ==> #[trigger] got_on(b1, a1, k) == got_on(b2, a2, k),
    ensures
        boarding_count(b1, a1, n) == boarding_count(b2, a2, n),
    decreases n,
{
    if n > 0 {
        lemma_boarding_count_same(b1, a1, b2, a2, n - 1);
        assert(got_on(b1, a1, n - 1) == got_on(b2, a2, n - 1));
    }
}

/// Passengers from `i` on that did not change add nothing to the count.
pub(crate) proof fn lemma_boarding_count_tail(before: Seq<SimPassenger>, after: Seq<SimPassenger>, i: int, n: int)
    requires
        0 <= i <= n,
        forall|k: int| i <= k < n ==> #[trigger] after[k] == before[k],
    ensures
        boarding_count(before, after, n) == boarding_count(before, after, i),
    decreases n - i,
{
    if n > i {
        lemma_boarding_count_tail(before, after, i, n - 1);
        assert(after[n - 1] == before[n - 1]);
    }
}

/// Emptying the seats depends only on who got on and where they sat.
pub(crate) proof fn lemma_unseated_same(
    slots: Seq<Option<u64>>,
    b1: Seq<SimPassenger>,
    a1: Seq<SimPassenger>,
    b2: Seq<SimPassenger>,
    a2: Seq<SimPassenger>,
    from: int,
    to: int,
)
    requires
        forall|k: int|
            from <= k < to ==> #[trigger] got_on(b1, a1, k) == got_on(b2, a2, k) && (got_on(b1, a1, k)
                ==> a1[k].slot == a2[k].slot),
    ensures
        unseated(slots, b1, a1, from, to) == unseated(slots, b2, a2, from, to),
    decreases to - from,
{
    if to > from {
        lemma_unseated_same(slots, b1, a1, b2, a2, from, to - 1);
        assert(got_on(b1, a1, to - 1) == got_on(b2, a2, to - 1));
    }
}

/// Passengers from `i` on that did not change empty no seat.
pub(crate) proof fn lemma_unseated_tail(
    slots: Seq<Option<u64>>,
    before: Seq<SimPassenger>,
    after: Seq<SimPassenger>,
    from: int,
    i: int,
    n: int,
)
    requires
        from <= i <= n,
        forall|k: int| i <= k < n ==> #[trigger] after[k] == before[k],
    ensures
        unseated(slots, before, after, from, n) == unseated(slots, before, after, from, i),
    decreases n - i,
{
    if n > i {
        lemma_unseated_tail(slots, before, after, from, i, n - 1);
        assert(after[n - 1] == before[n - 1]);
    }
}

/// Emptying seats and filling slot `s` commute when none of the seats is
/// `s`.
pub(crate) proof fn lemma_unseated_update(
    slots: Seq<Option<u64>>,
    before: Seq<SimPassenger>,
    after: Seq<SimPassenger>,
    from: int,
    to: int,
    s: int,
    x: Option<u64>,
)
    requires
        0 <= s < slots.len(),
        forall|k: int| from <= k < to && #[trigger] got_on(before, after, k) ==> after[k].slot->0 != s,
    ensures
        unseated(slots.update(s, x), before, after, from, to) == unseated(slots, before, after, from, to).update(s, x),
    decreases to - from,
{
    lemma_unseated_keeps_empty(slots, before, after, from, to);
    if to > from {
        lemma_unseated_update(slots, before, after, from, to - 1, s, x);
        lemma_unseated_keeps_empty(slots, before, after, from, to - 1);
        let u = unseated(slots, before, after, from, to - 1);
        let j = after[to - 1].slot->0 as int;
        if got_on(before, after, to - 1) && 0 <= j < u.len() {
            assert(u.update(s, x).update(j, None) =~= u.update(j, None).update(s, x));
        }
    }
}

/// A passenger who did not change adds nothing to what `seats_follow_draws`
/// says.
pub(crate) proof fn lemma_seats_follow_step(
    slots: Seq<Option<u64>>,
    before: Seq<SimPassenger>,
    after: Seq<SimPassenger>,
    i: int,
    drawn: Seq<int>,
)
    requires
        0 <= i,
        seats_follow_draws(slots, before, after, i, drawn),
        after[i] == before[i],
    ensures
        seats_follow_draws(slots, before, after, i + 1, drawn),
{
    assert forall|k: int| 0 <= k < i + 1 && #[trigger] got_on(before, after, k) implies {
        let t = boarding_count(before, after, k) as int;
        let free = free_slots(unseated(slots, before, after, k, i + 1));
        &&& 0 <= t < drawn.len()
        &&& 0 <= drawn[t] < free.len()
        &&& after[k].slot == Some(free[drawn[t]] as usize)
    } by {
        lemma_unseated_tail(slots, before, after, k, i, i + 1);
    }
}

/// Emptying seats never fills a slot, and keeps the number of slots.
pub(crate) proof fn lemma_unseated_keeps_empty(
    slots: Seq<Option<u64>>,
    before: Seq<SimPassenger>,
    after: Seq<SimPassenger>,
    from: int,
    to: int,
)
    ensures
        unseated(slots, before, after, from, to).len() == slots.len(),
        forall|j: int| 0 <= j < slots.len() && slots[j] is None ==> (#[trigger] unseated(
            slots,
            before,
            after,
            from,
            to,
        )[j]) is None,
    decreases to - from,
{
    if to > from {
        lemma_unseated_keeps_empty(slots, before, after, from, to - 1);
    }
}

/// Someone waits on `floor` to go up.
pub open spec fn waits_up(ps: Seq<SimPassenger>, floor: i32) -> bool {
    exists|i: int|
        0 <= i < ps.len() && (#[trigger] ps[i]).state == PassengerState::Waiting && ps[i].starting_floor == floor
            && ps[i].destination_floor > floor
}

/// Someone waits on `floor` to go down.
pub open spec fn waits_down(ps: Seq<SimPassenger>, floor: i32) -> bool {
    exists|i: int|
        0 <= i < ps.len() && (#[trigger] ps[i]).state == PassengerState::Waiting && ps[i].starting_floor == floor
            && ps[i].destination_floor < floor
}

/// The call buttons of a floor after a car that serves `going_up` /
/// `going_down` has left it: a served direction goes out unless someone
/// still waits to go that way.
pub open spec fn answered(b: FloorButtons, going_up: bool, going_down: bool, ps: Seq<SimPassenger>, floor: i32) -> FloorButtons {
    FloorButtons {
        up: b.up && !(going_up && !waits_up(ps, floor)),
        down: b.down && !(going_down && !waits_down(ps, floor)),
    }
}

/// A rider found in `ps` is still found in any sequence that keeps `ps` as
/// its prefix.
pub(crate) proof fn lemma_rider_in_extends(ps: Seq<SimPassenger>, qs: Seq<SimPassenger>, e: int, s: int, id: u64)
    requires
        rider_in(ps, e, s, id),
        ps.len() <= qs.len(),
        forall|i: int| 0 <= i < ps.len() ==> qs[i] == ps[i],
    ensures
        rider_in(qs, e, s, id),
{
    let i = choose|i: int|
        0 <= i < ps.len() && #[trigger] ps[i].id == id && ps[i].state == PassengerState::Riding
            && ps[i].elevator_index is Some && ps[i].elevator_index->0 == e && ps[i].slot is Some
                    && ps[i].slot->0 == s;
    assert(qs[i] == ps[i]);
}

/// Pushing a waiting passenger keeps every taken slot owned.
pub(crate) proof fn lemma_slots_owned_push(ps: Seq<SimPassenger>, es: Seq<SimElevator>, p: SimPassenger)
    requires
        slots_owned(ps, es),
    ensures
        slots_owned(ps.push(p), es),
{
    assert forall|e: int, s: int|
        0 <= e < es.len() && 0 <= s < es[e].slots@.len() && (#[trigger] es[e].slots@[s]) is Some
        implies rider_in(ps.push(p), e, s, es[e].slots@[s]->0) by {
        lemma_rider_in_extends(ps, ps.push(p), e, s, es[e].slots@[s]->0);
    }
}

/// Index of the first passenger with id `id`, if any.
pub open spec fn first_passenger_with(ps: Seq<SimPassenger>, id: u64) -> Option<int>
    decreases ps.len(),
{
    if ps.len() == 0 {
        None
    } else {
        match first_passenger_with(ps.drop_last(), id) {
            Some(i) => Some(i),
            None => if ps.last().id == id {
                Some(ps.len() - 1)
            } else {
                None
            },
        }
    }
}

pub proof fn lemma_first_passenger_with(ps: Seq<SimPassenger>, id: u64)
    ensures
        match first_passenger_with(ps, id) {
            Some(i) => 0 <= i < ps.len() && ps[i].id == id && forall|k: int|
                0 <= k < i ==> ps[k].id != id,
            None => forall|k: int| 0 <= k < ps.len() ==> ps[k].id != id,
        },
    decreases ps.len(),
{
    if ps.len() > 0 {
        lemma_first_passenger_with(ps.drop_last(), id);
        assert forall|k: int| 0 <= k < ps.len() - 1 implies ps.drop_last()[k] == ps[k] by {}
    }
}

/// The weight of the passenger with id `id` (the first such), or nothing.
pub open spec fn weight_of(ps: Seq<SimPassenger>, id: u64) -> int {
    match first_passenger_with(ps, id) {
        Some(i) => ps[i].weight as int,
        None => 0,
    }
}

/// The weight of the passengers in `slots`.
pub open spec fn car_load(ps: Seq<SimPassenger>, slots: Seq<Option<u64>>) -> int
    decreases slots.len(),
{
    if slots.len() == 0 {
        0
    } else {
        car_load(ps, slots.drop_last()) + match slots.last() {
            Some(id) => weight_of(ps, id),
            None => 0,
        }
    }
}

/// The floors whose buttons are lit, in increasing order.
pub open spec fn lit_floors(buttons: Seq<bool>) -> Seq<i32>
    decreases buttons.len(),
{
    if buttons.len() == 0 {
        Seq::empty()
    } else if buttons.last() {
        lit_floors(buttons.drop_last()).push((buttons.len() - 1) as i32)
    } else {
        lit_floors(buttons.drop_last())
    }
}

/// Sum of the moves of the cars.
pub open spec fn total_moves(es: Seq<SimElevator>) -> int
    decreases es.len(),
{
    if es.len() == 0 {
        0
    } else {
        total_moves(es.drop_last()) + es.last().moves
    }
}


/// What the algorithm is shown of car `e`, standing as `pos` says.
pub open spec fn snapshot_of(e: SimElevator, pos: CarPosition, ps: Seq<SimPassenger>) -> ElevatorView {
    ElevatorView {
        id: e.index as u32,
        current_floor: pos.current_floor,
        destination_floor: if pos.moving {
            Some(e.destination)
        } else {
            None
        },
        load: car_load(ps, e.slots@) as u64,
        max_load: (e.slots@.len() * 100) as u64,
        pressed_buttons: lit_floors(e.buttons@),
        commands: Seq::empty(),
    }
}

} // verus!
