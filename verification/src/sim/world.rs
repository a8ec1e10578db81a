//! The discrete state of the building and every operation on it; each
//! keeps the invariant of `consistency`.
use vstd::prelude::*;
use crate::game::{Elevator, Floor};
use crate::reducer::views;
use crate::challenges::{finished, requirements_met, Challenge, EndCondition};
use crate::sim::passenger::{PassengerState, SimPassenger};
use crate::sim::physics::{free_slots, lemma_first_slot_of, lemma_free_slots, lemma_free_slots_fill, SimElevator};
use crate::sim::random::Generator;
use crate::sim::stats::Stats;
use crate::sim::consistency::{
    destination_of,
    ids_unique,
    seated,
    rider_in,
    trips_valid,
    world_inv,
    fresh_passenger,
    lemma_total_moves_monotone,
    command_floors,
    commanded_floors,
    final_destination,
    moves_made,
    lemma_moves_made_prefix,
    lemma_commanded_floors_prefix,
    lemma_same_seats,
    boarding_count,
    seat_requests,
    lemma_boarding_count_same,
    lemma_boarding_count_tail,
    got_on,
    seats_follow_draws,
    unseated,
    lemma_unseated_same,
    lemma_unseated_tail,
    lemma_unseated_update,
    lemma_unseated_keeps_empty,
    lemma_seats_follow_step,
    exits,
    lemma_exits_prefix,
    alights,
    alighted,
    boarded,
    lemma_first_unique,
    lemma_occupant,
    lemma_unseat,
    lemma_seat,
    can_board,
    answered,
    lemma_slots_owned_push,
    first_passenger_with,
    lemma_first_passenger_with,
    weight_of,
    car_load,
    lit_floors,
    total_moves,
    snapshot_of,
};

verus! {

pub const MIN_PASSENGER_WEIGHT: i32 = 55;

pub const MAX_PASSENGER_WEIGHT: i32 = 100;

/// One passenger in `NON_GROUND_DESTINATION_ODDS + 1` who starts above the
/// ground floor travels to another upper floor; the others go down to the
/// ground floor.
pub const NON_GROUND_DESTINATION_ODDS: i32 = 10;

/// The call buttons of one floor.
#[derive(Debug, Clone, Copy)]
pub struct FloorButtons {
    pub up: bool,
    pub down: bool,
}

impl Default for FloorButtons {
    fn default() -> (b: FloorButtons)
        ensures
            !b.up && !b.down,
    {
        FloorButtons { up: false, down: false }
    }
}

/// How a run ended.
#[derive(Debug, Clone, Copy, PartialEq, Eq, Structural)]
pub enum Outcome {
    Won,
    Lost,
    MaxTimeReached,
}

/// How a run stands after a step, given what the end condition says and
/// whether the time cap is reached: won or lost once the condition ends the
/// run, `MaxTimeReached` at the cap otherwise, and still going (`None`)
/// before it.
pub fn run_outcome(end: Option<bool>, time_up: bool) -> (r: Option<Outcome>)
    ensures
        r == match end {
            Some(true) => Some(Outcome::Won),
            Some(false) => Some(Outcome::Lost),
            None => if time_up {
                Some(Outcome::MaxTimeReached)
            } else {
                None
            },
        },
{
    match end {
        Some(won) => if won {
            Some(Outcome::Won)
        } else {
            Some(Outcome::Lost)
        },
        None => if time_up {
            Some(Outcome::MaxTimeReached)
        } else {
            None
        },
    }
}

/// Where the driver of the simulation sees a car: the floor it is on and
/// whether it is on its way somewhere.
#[derive(Debug, Clone, Copy)]
pub struct CarPosition {
    pub current_floor: i32,
    pub moving: bool,
}

/// Where a passenger starts and where it goes, from the draws that decide
/// it. On a `coin` of 0 it starts on the ground floor, otherwise on
/// `start_draw`. From the ground floor it goes up to `up_draw`; from an
/// upper floor it goes, on an `odds_draw` of 0, to
/// `(start + k) % floor_count`, and otherwise down to the ground floor.
pub open spec fn trip(floor_count: int, coin: int, start_draw: int, up_draw: int, odds_draw: int, k: int) -> (int, int) {
    let start = if coin == 0 {
        0
    } else {
        start_draw
    };
    let destination = if start == 0 {
        up_draw
    } else if odds_draw == 0 {
        (start + k) % floor_count
    } else {
        0
    };
    (start, destination)
}

/// The ranges the draws are taken from: a fair coin, any floor, an upper
/// floor, one of `NON_GROUND_DESTINATION_ODDS + 1` odds, and an offset of
/// at least one floor and less than a full turn.
pub open spec fn draws_in_range(floor_count: int, coin: int, start_draw: int, up_draw: int, odds_draw: int, k: int) -> bool {
    &&& 0 <= coin <= 1
    &&& 0 <= start_draw < floor_count
    &&& 1 <= up_draw < floor_count
    &&& 0 <= odds_draw <= NON_GROUND_DESTINATION_ODDS
    &&& 1 <= k < floor_count
}

/// The ranges drawn from, in order, to place a passenger with these draws:
/// the coin; the start floor unless the coin is 0; then, from the ground
/// floor, the upward destination, and from an upper floor the odds and, on
/// odds 0, the offset.
pub open spec fn trip_requests(floor_count: int, coin: int, start_draw: int, odds_draw: int) -> Seq<(int, int)> {
    let coin_asked = seq![(0int, 1int)];
    let start_asked = if coin == 0 {
        coin_asked
    } else {
        coin_asked.push((0int, floor_count - 1))
    };
    let start = if coin == 0 {
        0
    } else {
        start_draw
    };
    if start == 0 {
        start_asked.push((1int, floor_count - 1))
    } else if odds_draw == 0 {
        start_asked.push((0int, NON_GROUND_DESTINATION_ODDS as int)).push((1int, floor_count - 1))
    } else {
        start_asked.push((0int, NON_GROUND_DESTINATION_ODDS as int))
    }
}

/// The numbers drawn, in order, to place a passenger with these draws: the
/// same draws as `trip_requests` asks for, each the value that came back.
pub open spec fn trip_draws(coin: int, start_draw: int, up_draw: int, odds_draw: int, k: int) -> Seq<int> {
    let start_drawn = if coin == 0 {
        seq![coin]
    } else {
        seq![coin, start_draw]
    };
    let start = if coin == 0 {
        0
    } else {
        start_draw
    };
    if start == 0 {
        start_drawn.push(up_draw)
    } else if odds_draw == 0 {
        start_drawn.push(odds_draw).push(k)
    } else {
        start_drawn.push(odds_draw)
    }
}

/// Where a spawned passenger starts and goes. The coin sends it to the
/// ground floor or to the start floor drawn. From the ground floor it goes
/// up, to the floor drawn for it. From any floor above, it goes down to the
/// ground floor, except when the odds draw is 0 (one draw in
/// `NON_GROUND_DESTINATION_ODDS + 1`): then it goes `k` floors on, counted
/// round the building, which never brings it back to its own floor.
pub proof fn upper_floor_passengers_head_for_the_lobby(
    floor_count: int,
    coin: int,
    start_draw: int,
    up_draw: int,
    odds_draw: int,
    k: int,
)
    requires
        2 <= floor_count,
        draws_in_range(floor_count, coin, start_draw, up_draw, odds_draw, k),
    ensures
        ({
            let (start, destination) = trip(floor_count, coin, start_draw, up_draw, odds_draw, k);
            &&& coin == 0 ==> start == 0
            &&& coin != 0 ==> start == start_draw
            &&& start == 0 ==> destination == up_draw && destination > start
            &&& start != 0 && odds_draw != 0 ==> destination == 0
            &&& start != 0 && odds_draw == 0 ==> destination == (start + k) % floor_count && destination
                != start
        }),
{
    let (start, destination) = trip(floor_count, coin, start_draw, up_draw, odds_draw, k);
    if start != 0 && odds_draw == 0 {
        assert((start + k) % floor_count != start) by (nonlinear_arith)
            requires
                1 <= k < floor_count,
                0 < start < floor_count,
        ;
    }
}

/// The trip that the draws give (see `trip`). It always joins two different
/// floors of the building.
pub fn trip_from_draws(floor_count: i32, coin: i32, start_draw: i32, up_draw: i32, odds_draw: i32, k: i32) -> (r: (i32, i32))
    requires
        2 <= floor_count,
        draws_in_range(floor_count as int, coin as int, start_draw as int, up_draw as int, odds_draw as int, k as int),
    ensures
        (r.0 as int, r.1 as int) == trip(floor_count as int, coin as int, start_draw as int, up_draw as int, odds_draw as int, k as int),
        0 <= r.0 < floor_count,
        0 <= r.1 < floor_count,
        r.0 != r.1,
{
    let start = if coin == 0 {
        0
    } else {
        start_draw
    };
    let destination = if start == 0 {
        up_draw
    } else if odds_draw == 0 {
        let d = (start as i64 + k as i64) % (floor_count as i64);
        proof {
            assert(0 <= d < floor_count);
            assert(d != start) by (nonlinear_arith)
                requires
                    d == (start + k) % (floor_count as int),
                    1 <= k < floor_count,
                    0 < start < floor_count,
            ;
        }
        d as i32
    } else {
        0
    };
    (start, destination)
}

/// The discrete state of the building: its cars, its passengers, its call
/// buttons, the passengers transported so far, the end condition of the
/// challenge and the random generator.
pub struct World {
    pub floor_count: usize,
    pub elevators: Vec<SimElevator>,
    pub passengers: Vec<SimPassenger>,
    pub floor_buttons: Vec<FloorButtons>,
    pub transported_count: u32,
    pub end_condition: EndCondition,
    pub next_passenger_id: u64,
    pub rng: Generator,
}

impl World {
    /// The invariant of a world.
    pub open spec fn wf(&self) -> bool {
        world_inv(
            self.floor_count as int,
            self.elevators@,
            self.passengers@,
            self.floor_buttons@,
            self.next_passenger_id,
        )
    }

    /// An empty building for `challenge`: its floors with no call lit, its
    /// cars on the ground floor (car `i` with capacity
    /// `elevator_capacities[i % elevator_capacities.len()]`), no passenger,
    /// nothing transported, and a generator seeded with `seed`.
    pub fn new(challenge: &Challenge, seed: u64) -> (w: World)
        requires
            challenge.floor_count <= i32::MAX,
            challenge.elevator_count > 0 ==> challenge.elevator_capacities@.len() > 0,
        ensures
            w.wf(),
            w.floor_count == challenge.floor_count,
            w.elevators@.len() == challenge.elevator_count,
            forall|i: int|
                0 <= i < w.elevators@.len() ==> {
                    &&& (#[trigger] w.elevators@[i]).destination == 0
                    &&& w.elevators@[i].moves == 0
                    &&& w.elevators@[i].going_up_indicator
                    &&& w.elevators@[i].going_down_indicator
                    &&& w.elevators@[i].buttons@ == Seq::new(challenge.floor_count as nat, |k: int| false)
                    &&& w.elevators@[i].slots@ == Seq::new(
                        challenge.elevator_capacities@[i % challenge.elevator_capacities@.len() as int] as nat,
                        |k: int| None::<u64>,
                    )
                },
            w.passengers@.len() == 0,
            forall|f: int| 0 <= f < w.floor_buttons@.len() ==> !(#[trigger] w.floor_buttons@[f]).up && !w.floor_buttons@[f].down,
            w.transported_count == 0,
            w.end_condition == challenge.end_condition,
            w.next_passenger_id == 0,
            w.rng.seed_of() == seed,
            w.rng.asked_of() == Seq::<(int, int)>::empty(),
            w.rng.drawn_of() == Seq::<int>::empty(),
    {
        let floor_count = challenge.floor_count;
        let n = challenge.elevator_count;
        let mut elevators: Vec<SimElevator> = Vec::new();
        let mut i: usize = 0;
        while i < n
            invariant
                0 <= i <= n,
                n == challenge.elevator_count,
                n > 0 ==> challenge.elevator_capacities@.len() > 0,
                floor_count <= i32::MAX,
                floor_count == challenge.floor_count,
                elevators@.len() == i,
                forall|k: int|
                    0 <= k < i ==> {
                        &&& (#[trigger] elevators@[k]).index == k
                        &&& elevators@[k].max_floor == floor_count
                        &&& elevators@[k].destination == 0
                        &&& elevators@[k].moves == 0
                        &&& elevators@[k].going_up_indicator
                        &&& elevators@[k].going_down_indicator
                        &&& elevators@[k].buttons@ == Seq::new(floor_count as nat, |j: int| false)
                        &&& elevators@[k].slots@ == Seq::new(
                            challenge.elevator_capacities@[k % challenge.elevator_capacities@.len() as int] as nat,
                            |j: int| None::<u64>,
                        )
                    },
            decreases n - i,
        {
            let cap = challenge.elevator_capacities[i % challenge.elevator_capacities.len()];
            let e = SimElevator::new(i, floor_count as i32, cap);
            elevators.push(e);
            i = i + 1;
        }
        let mut floor_buttons: Vec<FloorButtons> = Vec::new();
        let mut f: usize = 0;
        while f < floor_count
            invariant
                0 <= f <= floor_count,
                floor_buttons@.len() == f,
                forall|k: int| 0 <= k < f ==> !(#[trigger] floor_buttons@[k]).up && !floor_buttons@[k].down,
            decreases floor_count - f,
        {
            floor_buttons.push(FloorButtons { up: false, down: false });
            f = f + 1;
        }
        let w = World {
            floor_count,
            elevators,
            passengers: Vec::new(),
            floor_buttons,
            transported_count: 0,
            end_condition: challenge.end_condition,
            next_passenger_id: 0,
            rng: Generator::seeded(seed),
        };
        proof {
            assert forall|e: int, s: int|
                0 <= e < w.elevators@.len() && 0 <= s < w.elevators@[e].slots@.len() implies !((
                #[trigger] w.elevators@[e].slots@[s]) is Some) by {}
        }
        w
    }

    /// Draws where a new passenger starts and where it goes: the draws of
    /// `trip_from_draws`, each taken only when the trip depends on it, in
    /// the order coin, start floor, then either the upward destination or
    /// the odds and the offset.
    fn random_start_and_destination(&mut self) -> (r: (i32, i32))
        requires
            2 <= old(self).floor_count <= i32::MAX,
        ensures
            exists|coin: int, start_draw: int, up_draw: int, odds_draw: int, k: int|
                #[trigger] draws_in_range(old(self).floor_count as int, coin, start_draw, up_draw, odds_draw, k)
                    && trip(old(self).floor_count as int, coin, start_draw, up_draw, odds_draw, k) == (
                    r.0 as int,
                    r.1 as int,
                ) && final(self).rng.asked_of() == old(self).rng.asked_of() + trip_requests(
                    old(self).floor_count as int,
                    coin,
                    start_draw,
                    odds_draw,
                ) && final(self).rng.drawn_of() == old(self).rng.drawn_of() + trip_draws(
                    coin,
                    start_draw,
                    up_draw,
                    odds_draw,
                    k,
                ),
            final(self).rng.seed_of() == old(self).rng.seed_of(),
            0 <= r.0 < old(self).floor_count,
            0 <= r.1 < old(self).floor_count,
            r.0 != r.1,
            final(self).floor_count == old(self).floor_count,
            final(self).elevators@ == old(self).elevators@,
            final(self).passengers@ == old(self).passengers@,
            final(self).floor_buttons@ == old(self).floor_buttons@,
            final(self).transported_count == old(self).transported_count,
            final(self).end_condition == old(self).end_condition,
            final(self).next_passenger_id == old(self).next_passenger_id,
    {
        let fc = self.floor_count as i32;
        let coin = self.rng.draw_i32(0, 1);
        let start_draw = if coin == 0 {
            0
        } else {
            self.rng.draw_i32(0, fc - 1)
        };
        let mut up_draw: i32 = 1;
        let mut odds_draw: i32 = 0;
        let mut k: i32 = 1;
        if start_draw == 0 {
            up_draw = self.rng.draw_i32(1, fc - 1);
        } else {
            odds_draw = self.rng.draw_i32(0, NON_GROUND_DESTINATION_ODDS);
            if odds_draw == 0 {
                k = self.rng.draw_i32(1, fc - 1);
            }
        }
        let r = trip_from_draws(fc, coin, start_draw, up_draw, odds_draw, k);
        proof {
            assert(draws_in_range(fc as int, coin as int, start_draw as int, up_draw as int, odds_draw as int, k as int));
            assert(self.rng.asked_of() =~= old(self).rng.asked_of() + trip_requests(
                fc as int,
                coin as int,
                start_draw as int,
                odds_draw as int,
            ));
            assert(self.rng.drawn_of() =~= old(self).rng.drawn_of() + trip_draws(
                coin as int,
                start_draw as int,
                up_draw as int,
                odds_draw as int,
                k as int,
            ));
        }
        r
    }

    /// A new passenger arrives: it gets the next id, waits where
    /// `random_start_and_destination` puts it, weighs between
    /// `MIN_PASSENGER_WEIGHT` and `MAX_PASSENGER_WEIGHT` (drawn), and lights
    /// the call button of its direction on its floor. Returns its id.
    pub fn spawn_passenger(&mut self) -> (id: u64)
        requires
            old(self).wf(),
            old(self).floor_count >= 2,
            old(self).next_passenger_id < u64::MAX,
        ensures
            final(self).wf(),
            id == old(self).next_passenger_id,
            final(self).next_passenger_id == old(self).next_passenger_id + 1,
            final(self).passengers@.len() == old(self).passengers@.len() + 1,
            final(self).passengers@.drop_last() == old(self).passengers@,
            fresh_passenger(final(self).passengers@.last(), id, old(self).floor_count as int),
            exists|coin: int, start_draw: int, up_draw: int, odds_draw: int, k: int|
                #[trigger] draws_in_range(old(self).floor_count as int, coin, start_draw, up_draw, odds_draw, k)
                    && trip(old(self).floor_count as int, coin, start_draw, up_draw, odds_draw, k) == (
                    final(self).passengers@.last().starting_floor as int,
                    final(self).passengers@.last().destination_floor as int,
                ) && final(self).rng.asked_of() == old(self).rng.asked_of() + trip_requests(
                    old(self).floor_count as int,
                    coin,
                    start_draw,
                    odds_draw,
                ).push((MIN_PASSENGER_WEIGHT as int, MAX_PASSENGER_WEIGHT as int))
                    && final(self).rng.drawn_of() == old(self).rng.drawn_of() + trip_draws(
                    coin,
                    start_draw,
                    up_draw,
                    odds_draw,
                    k,
                ).push(final(self).passengers@.last().weight as int),
            final(self).rng.seed_of() == old(self).rng.seed_of(),
            ({
                let p = final(self).passengers@.last();
                let b = old(self).floor_buttons@[p.starting_floor as int];
                final(self).floor_buttons@ == old(self).floor_buttons@.update(
                    p.starting_floor as int,
                    FloorButtons {
                        up: b.up || p.destination_floor > p.starting_floor,
                        down: b.down || p.destination_floor < p.starting_floor,
                    },
                )
            }),
            final(self).floor_count == old(self).floor_count,
            final(self).elevators@ == old(self).elevators@,
            final(self).transported_count == old(self).transported_count,
            final(self).end_condition == old(self).end_condition,
    {
        let ghost a0 = self.rng.asked_of();
        let ghost d0 = self.rng.drawn_of();
        let (start, dest) = self.random_start_and_destination();
        let ghost a1 = self.rng.asked_of();
        let ghost d1 = self.rng.drawn_of();
        let weight = self.rng.draw_i32(MIN_PASSENGER_WEIGHT, MAX_PASSENGER_WEIGHT);
        let ghost (coin, start_draw, up_draw, odds_draw, k) = choose|coin: int, start_draw: int, up_draw: int, odds_draw: int, k: int|
            #[trigger] draws_in_range(self.floor_count as int, coin, start_draw, up_draw, odds_draw, k)
                && trip(self.floor_count as int, coin, start_draw, up_draw, odds_draw, k) == (
                start as int,
                dest as int,
            ) && a1 == a0 + trip_requests(self.floor_count as int, coin, start_draw, odds_draw)
                && d1 == d0 + trip_draws(coin, start_draw, up_draw, odds_draw, k);
        proof {
            assert(self.rng.asked_of() =~= a0 + trip_requests(self.floor_count as int, coin, start_draw, odds_draw).push(
                (MIN_PASSENGER_WEIGHT as int, MAX_PASSENGER_WEIGHT as int),
            ));
            assert(self.rng.drawn_of() =~= d0 + trip_draws(coin, start_draw, up_draw, odds_draw, k).push(weight as int));
        }
        let id = self.next_passenger_id;
        self.next_passenger_id = self.next_passenger_id + 1;
        let p = SimPassenger {
            id,
            weight,
            starting_floor: start,
            destination_floor: dest,
            state: PassengerState::Waiting,
            elevator_index: None,
            slot: None,
        };
        let ghost ps0 = self.passengers@;
        proof {
            lemma_slots_owned_push(ps0, self.elevators@, p);
        }
        self.passengers.push(p);
        let b = self.floor_buttons[start as usize];
        let nb = FloorButtons { up: b.up || dest > start, down: b.down || dest < start };
        self.floor_buttons.set(start as usize, nb);
        proof {
            assert(self.passengers@.drop_last() =~= ps0);
            assert forall|i: int|
                0 <= i < self.passengers@.len() && #[trigger] self.passengers@[i].state
                    == PassengerState::Waiting implies {
                &&& self.passengers@[i].destination_floor > self.passengers@[i].starting_floor
                    ==> self.floor_buttons@[self.passengers@[i].starting_floor as int].up
                &&& self.passengers@[i].destination_floor < self.passengers@[i].starting_floor
                    ==> self.floor_buttons@[self.passengers@[i].starting_floor as int].down
            } by {
                if i < ps0.len() {
                    assert(self.passengers@[i] == ps0[i]);
                }
            }
            assert(draws_in_range(old(self).floor_count as int, coin, start_draw, up_draw, odds_draw, k));
        }
        id
    }

    /// Forgets the passengers who have left the building, keeping the
    /// others in order.
    pub fn drop_exited_passengers(&mut self)
        requires
            old(self).wf(),
        ensures
            final(self).wf(),
            final(self).passengers@ == old(self).passengers@.filter(
                |p: SimPassenger| p.state != PassengerState::Exited,
            ),
            final(self).floor_count == old(self).floor_count,
            final(self).elevators@ == old(self).elevators@,
            final(self).floor_buttons@ == old(self).floor_buttons@,
            final(self).transported_count == old(self).transported_count,
            final(self).end_condition == old(self).end_condition,
            final(self).next_passenger_id == old(self).next_passenger_id,
            final(self).rng.seed_of() == old(self).rng.seed_of(),
            final(self).rng.asked_of() == old(self).rng.asked_of(),
            final(self).rng.drawn_of() == old(self).rng.drawn_of(),
    {
        let ghost pred = |p: SimPassenger| p.state != PassengerState::Exited;
        let mut all: Vec<SimPassenger> = Vec::new();
        std::mem::swap(&mut all, &mut self.passengers);
        let ghost ps = all@;
        assert(ps == old(self).passengers@);
        let n = all.len();
        let mut kept: Vec<SimPassenger> = Vec::new();
        let ghost mut origin: Seq<int> = Seq::empty();
        let mut i: usize = 0;
        while i < n
            invariant
                0 <= i <= n,
                n == ps.len(),
                all@ == ps,
                pred == (|p: SimPassenger| p.state != PassengerState::Exited),
                kept@.len() == origin.len(),
                kept@ == ps.take(i as int).filter(pred),
                forall|k: int| 0 <= k < origin.len() ==> 0 <= #[trigger] origin[k] < i && kept@[k] == ps[origin[k]],
                forall|a: int, b: int| 0 <= a < b < origin.len() ==> #[trigger] origin[a] < #[trigger] origin[b],
                forall|j: int|
                    0 <= j < i && (#[trigger] ps[j]).state != PassengerState::Exited ==> exists|k: int|
                        0 <= k < origin.len() && origin[k] == j,
            decreases n - i,
        {
            let p = all[i];
            let ghost origin0 = origin;
            proof {
                reveal(Seq::filter);
                assert(ps.take(i + 1).drop_last() =~= ps.take(i as int));
                assert(ps.take(i + 1).last() == ps[i as int]);
                assert(ps.take(i + 1).filter(pred) == if pred(ps[i as int]) {
                    ps.take(i as int).filter(pred).push(ps[i as int])
                } else {
                    ps.take(i as int).filter(pred)
                });
            }
            if p.state != PassengerState::Exited {
                kept.push(p);
                proof {
                    origin = origin.push(i as int);
                }
            }
            proof {
                assert forall|j: int|
                    0 <= j < i + 1 && (#[trigger] ps[j]).state != PassengerState::Exited implies exists|k: int|
                        0 <= k < origin.len() && origin[k] == j by {
                    if j == i {
                        assert(origin[origin.len() - 1] == j);
                    } else {
                        let k = choose|k: int| 0 <= k < origin0.len() && origin0[k] == j;
                        assert(origin[k] == j);
                    }
                }
            }
            i = i + 1;
        }
        proof {
            assert(ps.take(n as int) =~= ps);
            let ks = kept@;
            let es = self.elevators@;
            assert forall|e: int, s: int|
                0 <= e < es.len() && 0 <= s < es[e].slots@.len() && (#[trigger] es[e].slots@[s]) is Some
                implies rider_in(ks, e, s, es[e].slots@[s]->0) by {
                let id = es[e].slots@[s]->0;
                assert(rider_in(ps, e, s, id));
                let j = choose|j: int|
                    0 <= j < ps.len() && #[trigger] ps[j].id == id && ps[j].state == PassengerState::Riding
                        && ps[j].elevator_index is Some && ps[j].elevator_index->0 == e && ps[j].slot is Some
                        && ps[j].slot->0 == s;
                assert(ps[j].state != PassengerState::Exited);
                let k = choose|k: int| 0 <= k < origin.len() && origin[k] == j;
                assert(ks[k] == ps[j]);
            }
            assert forall|a: int, b: int|
                0 <= a < ks.len() && 0 <= b < ks.len() && a != b implies #[trigger] ks[a].id != #[trigger] ks[b].id by {
                if a < b {
                    assert(origin[a] < origin[b]);
                } else {
                    assert(origin[b] < origin[a]);
                }
            }
            assert forall|k: int| 0 <= k < ks.len() implies #[trigger] ks[k].id < self.next_passenger_id by {
                assert(ks[k] == ps[origin[k]]);
            }
            assert forall|k: int| 0 <= k < ks.len() implies if #[trigger] ks[k].state == PassengerState::Riding {
                seated(ks[k], es)
            } else {
                ks[k].elevator_index is None && ks[k].slot is None
            } by {
                assert(ks[k] == ps[origin[k]]);
            }
            assert forall|k: int| 0 <= k < ks.len() implies {
                &&& 0 <= (#[trigger] ks[k]).starting_floor < self.floor_count
                &&& 0 <= ks[k].destination_floor < self.floor_count
                &&& ks[k].starting_floor != ks[k].destination_floor
                &&& MIN_PASSENGER_WEIGHT <= ks[k].weight <= MAX_PASSENGER_WEIGHT
            } by {
                assert(ks[k] == ps[origin[k]]);
            }
            assert forall|k: int|
                0 <= k < ks.len() && #[trigger] ks[k].state == PassengerState::Waiting implies {
                &&& ks[k].destination_floor > ks[k].starting_floor ==> self.floor_buttons@[ks[k].starting_floor as int].up
                &&& ks[k].destination_floor < ks[k].starting_floor ==> self.floor_buttons@[ks[k].starting_floor as int].down
            } by {
                assert(ks[k] == ps[origin[k]]);
            }
        }
        self.passengers = kept;
    }

    /// Index of the first passenger with id `id`.
    pub fn find_passenger(&self, id: u64) -> (r: Option<usize>)
        ensures
            match first_passenger_with(self.passengers@, id) {
                Some(i) => r == Some(i as usize),
                None => r is None,
            },
            r matches Some(i) ==> i < self.passengers@.len() && self.passengers@[i as int].id == id,
    {
        proof {
            lemma_first_passenger_with(self.passengers@, id);
        }
        let n = self.passengers.len();
        let mut i: usize = 0;
        while i < n
            invariant
                0 <= i <= n,
                n == self.passengers@.len(),
                forall|k: int| 0 <= k < i ==> self.passengers@[k].id != id,
            decreases n - i,
        {
            if self.passengers[i].id == id {
                proof {
                    lemma_first_passenger_with(self.passengers@, id);
                }
                return Some(i);
            }
            i = i + 1;
        }
        None
    }

    /// Sum of the cars' moves, or `None` when it does not fit in a `u32`.
    pub fn move_count(&self) -> (r: Option<u32>)
        ensures
            r == if total_moves(self.elevators@) <= u32::MAX {
                Some(total_moves(self.elevators@) as u32)
            } else {
                None
            },
    {
        let n = self.elevators.len();
        let mut total: u32 = 0;
        let mut i: usize = 0;
        while i < n
            invariant
                0 <= i <= n,
                n == self.elevators@.len(),
                total == total_moves(self.elevators@.take(i as int)),
            decreases n - i,
        {
            proof {
                assert(self.elevators@.take(i + 1).drop_last() =~= self.elevators@.take(i as int));
            }
            let m = self.elevators[i].moves;
            if total > u32::MAX - m {
                proof {
                    lemma_total_moves_monotone(self.elevators@, i + 1);
                }
                return None;
            }
            total = total + m;
            i = i + 1;
        }
        proof {
            assert(self.elevators@.take(n as int) =~= self.elevators@);
        }
        Some(total)
    }

    /// The weight on board car `e`.
    fn load_of(&self, e: usize) -> (r: u64)
        requires
            self.wf(),
            e < self.elevators@.len(),
            self.elevators@[e as int].slots@.len() * 100 <= usize::MAX,
        ensures
            r == car_load(self.passengers@, self.elevators@[e as int].slots@),
    {
        let ghost ps = self.passengers@;
        let slots = &self.elevators[e].slots;
        let n = slots.len();
        let mut load: u64 = 0;
        let mut j: usize = 0;
        while j < n
            invariant
                0 <= j <= n,
                n == slots@.len(),
                n * 100 <= usize::MAX,
                e < self.elevators@.len(),
                slots@ == self.elevators@[e as int].slots@,
                ps == self.passengers@,
                trips_valid(ps, self.floor_count as int),
                load == car_load(ps, slots@.take(j as int)),
                load <= 100 * j,
            decreases n - j,
        {
            proof {
                assert(slots@.take(j + 1).drop_last() =~= slots@.take(j as int));
                assert(slots@.take(j + 1).last() == slots@[j as int]);
            }
            match slots[j] {
                Some(id) => {
                    match self.find_passenger(id) {
                        Some(i) => {
                            let w = self.passengers[i].weight;
                            proof {
                                assert(MIN_PASSENGER_WEIGHT <= ps[i as int].weight <= MAX_PASSENGER_WEIGHT);
                            }
                            load = load + w as u64;
                            proof {
                                lemma_first_passenger_with(ps, id);
                                assert(weight_of(ps, id) == w);
                            }
                        },
                        None => {
                            assert(weight_of(ps, id) == 0);
                        },
                    }
                },
                None => {},
            }
            proof {
                assert(load == car_load(ps, slots@.take(j + 1)));
            }
            j = j + 1;
        }
        proof {
            assert(slots@.take(n as int) =~= slots@);
        }
        load
    }

    /// The floors whose buttons are lit in car `e`.
    fn lit_floors_of(&self, e: usize) -> (r: Vec<i32>)
        requires
            self.wf(),
            e < self.elevators@.len(),
        ensures
            r@ == lit_floors(self.elevators@[e as int].buttons@),
    {
        let buttons = &self.elevators[e].buttons;
        let n = buttons.len();
        let mut lit: Vec<i32> = Vec::new();
        let mut i: usize = 0;
        while i < n
            invariant
                0 <= i <= n,
                n == buttons@.len(),
                n <= i32::MAX,
                lit@ == lit_floors(buttons@.take(i as int)),
            decreases n - i,
        {
            proof {
                assert(buttons@.take(i + 1).drop_last() =~= buttons@.take(i as int));
            }
            if buttons[i] {
                lit.push(i as i32);
            }
            i = i + 1;
        }
        proof {
            assert(buttons@.take(n as int) =~= buttons@);
        }
        lit
    }

    /// What the algorithm is shown: one snapshot per car, in order, where
    /// car `k` stands as `cars[k]` says; and one record per floor, in order,
    /// with its call buttons.
    pub fn snapshots(&self, cars: &Vec<CarPosition>) -> (r: (Vec<Elevator>, Vec<Floor>))
        requires
            self.wf(),
            cars@.len() == self.elevators@.len(),
            forall|k: int| 0 <= k < self.elevators@.len() ==> (#[trigger] self.elevators@[k]).slots@.len() * 100 <= usize::MAX,
        ensures
            r.0@.len() == self.elevators@.len(),
            forall|k: int|
                0 <= k < r.0@.len() ==> (#[trigger] r.0@[k])@ == snapshot_of(
                    self.elevators@[k],
                    cars@[k],
                    self.passengers@,
                ),
            r.1@.len() == self.floor_count,
            forall|f: int|
                0 <= f < r.1@.len() ==> {
                    &&& (#[trigger] r.1@[f]).spec_level() == f
                    &&& r.1@[f].spec_up() == self.floor_buttons@[f].up
                    &&& r.1@[f].spec_down() == self.floor_buttons@[f].down
                },
    {
        let n = self.elevators.len();
        let mut es: Vec<Elevator> = Vec::new();
        let mut k: usize = 0;
        while k < n
            invariant
                0 <= k <= n,
                n == self.elevators@.len(),
                n == cars@.len(),
                self.wf(),
                forall|k: int| 0 <= k < self.elevators@.len() ==> (#[trigger] self.elevators@[k]).slots@.len() * 100 <= usize::MAX,
                es@.len() == k,
                forall|j: int|
                    0 <= j < k ==> (#[trigger] es@[j])@ == snapshot_of(self.elevators@[j], cars@[j], self.passengers@),
            decreases n - k,
        {
            let car = &self.elevators[k];
            let pos = cars[k];
            let pressed = self.lit_floors_of(k);
            let load = self.load_of(k);
            let max_load = (car.slots.len() * 100) as u64;
            let dest = if pos.moving {
                Some(car.destination)
            } else {
                None
            };
            es.push(Elevator::new(car.index as u32, pos.current_floor, dest, load, max_load, pressed));
            k = k + 1;
        }
        let fc = self.floor_count;
        let mut fs: Vec<Floor> = Vec::new();
        let mut f: usize = 0;
        while f < fc
            invariant
                0 <= f <= fc,
                fc == self.floor_count,
                self.wf(),
                fs@.len() == f,
                forall|g: int|
                    0 <= g < f ==> {
                        &&& (#[trigger] fs@[g]).spec_level() == g
                        &&& fs@[g].spec_up() == self.floor_buttons@[g].up
                        &&& fs@[g].spec_down() == self.floor_buttons@[g].down
                    },
            decreases fc - f,
        {
            let b = self.floor_buttons[f];
            fs.push(Floor::new(f as i32, b.up, b.down));
            f = f + 1;
        }
        (es, fs)
    }

    /// Hands each car the commands of its snapshot: the snapshots are taken
    /// in order, each sends its commands, in order, to the car whose index
    /// is the snapshot's id (a snapshot with no such car is dropped).
    pub fn apply_commands(&mut self, snapshots: Vec<Elevator>)
        requires
            old(self).wf(),
            forall|e: int|
                0 <= e < old(self).elevators@.len() ==> {
                    let c = #[trigger] old(self).elevators@[e];
                    c.moves + moves_made(
                        c.destination as int,
                        commanded_floors(views(snapshots@), e),
                        c.max_floor as int,
                    ) <= u32::MAX
                },
            old(self).floor_count >= 1 || forall|k: int|
                0 <= k < snapshots@.len() && (#[trigger] snapshots@[k])@.id < old(self).elevators@.len()
                    ==> snapshots@[k]@.commands.len() == 0,
        ensures
            final(self).wf(),
            final(self).elevators@.len() == old(self).elevators@.len(),
            forall|e: int|
                0 <= e < old(self).elevators@.len() ==> {
                    let c = #[trigger] old(self).elevators@[e];
                    let floors = commanded_floors(views(snapshots@), e);
                    &&& final(self).elevators@[e].destination == final_destination(
                        c.destination as int,
                        floors,
                        c.max_floor as int,
                    )
                    &&& final(self).elevators@[e].moves == c.moves + moves_made(
                        c.destination as int,
                        floors,
                        c.max_floor as int,
                    )
                    &&& final(self).elevators@[e].index == c.index
                    &&& final(self).elevators@[e].max_floor == c.max_floor
                    &&& final(self).elevators@[e].buttons@ == c.buttons@
                    &&& final(self).elevators@[e].slots@ == c.slots@
                    &&& final(self).elevators@[e].going_up_indicator == c.going_up_indicator
                    &&& final(self).elevators@[e].going_down_indicator == c.going_down_indicator
                },
            final(self).floor_count == old(self).floor_count,
            final(self).passengers@ == old(self).passengers@,
            final(self).floor_buttons@ == old(self).floor_buttons@,
            final(self).transported_count == old(self).transported_count,
            final(self).end_condition == old(self).end_condition,
            final(self).next_passenger_id == old(self).next_passenger_id,
            final(self).rng.seed_of() == old(self).rng.seed_of(),
            final(self).rng.asked_of() == old(self).rng.asked_of(),
            final(self).rng.drawn_of() == old(self).rng.drawn_of(),
    {
        let ghost snaps = views(snapshots@);
        let ghost es0 = self.elevators@;
        let mut snapshots = snapshots;
        let n = snapshots.len();
        let mut k: usize = 0;
        while k < n
            invariant
                0 <= k <= n,
                n == snapshots@.len(),
                snaps.len() == n,
                forall|j: int| k <= j < n ==> (#[trigger] snapshots@[j])@ == snaps[j],
                self.floor_count >= 1 || forall|j: int|
                    0 <= j < n && (#[trigger] snaps[j]).id < es0.len() ==> snaps[j].commands.len() == 0,
                self.wf(),
                self.floor_count == old(self).floor_count,
                self.passengers@ == old(self).passengers@,
                self.floor_buttons@ == old(self).floor_buttons@,
                self.transported_count == old(self).transported_count,
                self.end_condition == old(self).end_condition,
                self.next_passenger_id == old(self).next_passenger_id,
                self.rng.seed_of() == old(self).rng.seed_of(),
                self.rng.asked_of() == old(self).rng.asked_of(),
                self.rng.drawn_of() == old(self).rng.drawn_of(),
                es0 == old(self).elevators@,
                self.elevators@.len() == es0.len(),
                forall|e: int|
                    0 <= e < es0.len() ==> {
                        let cc = #[trigger] es0[e];
                        cc.moves + moves_made(cc.destination as int, commanded_floors(snaps, e), cc.max_floor as int)
                            <= u32::MAX
                    },
                forall|e: int|
                    0 <= e < es0.len() ==> {
                        let c = #[trigger] es0[e];
                        let floors = commanded_floors(snaps.take(k as int), e);
                        &&& self.elevators@[e].destination == final_destination(c.destination as int, floors, c.max_floor as int)
                        &&& self.elevators@[e].moves == c.moves + moves_made(c.destination as int, floors, c.max_floor as int)
                        &&& self.elevators@[e].index == c.index
                        &&& self.elevators@[e].max_floor == c.max_floor
                        &&& self.elevators@[e].buttons@ == c.buttons@
                        &&& self.elevators@[e].slots@ == c.slots@
                        &&& self.elevators@[e].going_up_indicator == c.going_up_indicator
                        &&& self.elevators@[e].going_down_indicator == c.going_down_indicator
                    },
            decreases n - k,
        {
            let id = snapshots[k].id() as usize;
            let cmds = snapshots[k].take_commands();
            proof {
                assert(snaps.take(k + 1).drop_last() =~= snaps.take(k as int));
                assert(snaps.take(k + 1).last() == snaps[k as int]);
            }
            if id < self.elevators.len() {
                let m = cmds.len();
                let ghost base = commanded_floors(snaps.take(k as int), id as int);
                let mut c: usize = 0;
                while c < m
                    invariant
                        0 <= c <= m,
                        m == cmds@.len(),
                        cmds@ == snaps[k as int].commands,
                        self.floor_count >= 1 || m == 0,
                        id < es0.len(),
                        base == commanded_floors(snaps.take(k as int), id as int),
                        self.wf(),
                        self.floor_count == old(self).floor_count,
                        self.passengers@ == old(self).passengers@,
                        self.floor_buttons@ == old(self).floor_buttons@,
                        self.transported_count == old(self).transported_count,
                        self.end_condition == old(self).end_condition,
                        self.next_passenger_id == old(self).next_passenger_id,
                        self.rng.seed_of() == old(self).rng.seed_of(),
                        self.rng.asked_of() == old(self).rng.asked_of(),
                        self.rng.drawn_of() == old(self).rng.drawn_of(),
                        self.elevators@.len() == es0.len(),
                        forall|e: int|
                            0 <= e < es0.len() ==> {
                                let cc = #[trigger] es0[e];
                                cc.moves + moves_made(cc.destination as int, commanded_floors(snaps, e), cc.max_floor as int)
                                    <= u32::MAX
                            },
                        id as int == snaps[k as int].id,
                        k < n,
                        snaps.len() == n,
                        forall|e: int|
                            0 <= e < es0.len() ==> {
                                let cc = #[trigger] es0[e];
                                let floors = if e == id {
                                    base + command_floors(cmds@.take(c as int))
                                } else {
                                    commanded_floors(snaps.take(k as int), e)
                                };
                                &&& self.elevators@[e].destination == final_destination(cc.destination as int, floors, cc.max_floor as int)
                                &&& self.elevators@[e].moves == cc.moves + moves_made(cc.destination as int, floors, cc.max_floor as int)
                                &&& self.elevators@[e].index == cc.index
                                &&& self.elevators@[e].max_floor == cc.max_floor
                                &&& self.elevators@[e].buttons@ == cc.buttons@
                                &&& self.elevators@[e].slots@ == cc.slots@
                                &&& self.elevators@[e].going_up_indicator == cc.going_up_indicator
                                &&& self.elevators@[e].going_down_indicator == cc.going_down_indicator
                            },
                    decreases m - c,
                {
                    let floor = cmds[c].1;
                    let ghost cc = es0[id as int];
                    let ghost before = base + command_floors(cmds@.take(c as int));
                    let ghost after = base + command_floors(cmds@.take(c + 1));
                    proof {
                        let full = commanded_floors(snaps, id as int);
                        let upto = commanded_floors(snaps.take(k + 1), id as int);
                        assert(snaps.take(k + 1).drop_last() =~= snaps.take(k as int));
                        assert(snaps.take(k + 1).last() == snaps[k as int]);
                        lemma_commanded_floors_prefix(snaps, k + 1, id as int);
                        assert(after.drop_last() =~= before);
                        assert(after.last() == floor);
                        assert(upto =~= base + command_floors(cmds@));
                        assert(upto.take(after.len() as int) =~= after);
                        assert(full.take(after.len() as int) =~= after);
                        lemma_moves_made_prefix(cc.destination as int, full, after.len() as int, cc.max_floor as int);
                    }
                    let ghost es_before = self.elevators@;
                    self.elevators[id].go_to_floor(floor);
                    proof {
                        lemma_same_seats(
                            self.floor_count as int,
                            self.passengers@,
                            es_before,
                            self.elevators@,
                            self.floor_buttons@,
                        );
                    }
                    c = c + 1;
                }
                proof {
                    assert(cmds@.take(m as int) =~= cmds@);
                }
            }
            k = k + 1;
        }
        proof {
            assert(snaps.take(n as int) =~= snaps);
        }
    }

    /// Whether handing the snapshots' commands to the cars keeps each car's
    /// count of moves within a `u32`, which `apply_commands` asks for.
    pub fn commands_fit(&self, snapshots: &Vec<Elevator>) -> (r: bool)
        ensures
            r <==> forall|e: int|
                0 <= e < self.elevators@.len() ==> {
                    let c = #[trigger] self.elevators@[e];
                    c.moves + moves_made(
                        c.destination as int,
                        commanded_floors(views(snapshots@), e),
                        c.max_floor as int,
                    ) <= u32::MAX
                },
    {
        let ghost snaps = views(snapshots@);
        let n = snapshots.len();
        let mut e: usize = 0;
        while e < self.elevators.len()
            invariant
                0 <= e <= self.elevators@.len(),
                n == snapshots@.len(),
                snaps == views(snapshots@),
                forall|j: int|
                    0 <= j < e ==> {
                        let c = #[trigger] self.elevators@[j];
                        c.moves + moves_made(c.destination as int, commanded_floors(snaps, j), c.max_floor as int)
                            <= u32::MAX
                    },
            decreases self.elevators@.len() - e,
        {
            let ghost c = self.elevators@[e as int];
            let max_floor = self.elevators[e].max_floor as i64;
            let mut dest = self.elevators[e].destination as i64;
            let mut count = self.elevators[e].moves as u64;
            let mut k: usize = 0;
            while k < n
                invariant
                    0 <= k <= n,
                    n == snapshots@.len(),
                    snaps == views(snapshots@),
                    e < self.elevators@.len(),
                    c == self.elevators@[e as int],
                    max_floor == c.max_floor,
                    dest == final_destination(
                        c.destination as int,
                        commanded_floors(snaps.take(k as int), e as int),
                        c.max_floor as int,
                    ),
                    count == c.moves + moves_made(
                        c.destination as int,
                        commanded_floors(snaps.take(k as int), e as int),
                        c.max_floor as int,
                    ),
                    count <= u32::MAX,
                decreases n - k,
            {
                proof {
                    assert(snaps.take(k + 1).drop_last() =~= snaps.take(k as int));
                    assert(snaps.take(k + 1).last() == snaps[k as int]);
                }
                if snapshots[k].id() as usize == e {
                    let cmds = snapshots[k].commands();
                    let m = cmds.len();
                    let ghost base = commanded_floors(snaps.take(k as int), e as int);
                    let mut j: usize = 0;
                    while j < m
                        invariant
                            0 <= j <= m,
                            m == cmds@.len(),
                            cmds@ == snaps[k as int].commands,
                            k < n,
                            n == snapshots@.len(),
                            snaps == views(snapshots@),
                            snaps[k as int].id == e,
                            e < self.elevators@.len(),
                            c == self.elevators@[e as int],
                            max_floor == c.max_floor,
                            base == commanded_floors(snaps.take(k as int), e as int),
                            dest == final_destination(
                                c.destination as int,
                                base + command_floors(cmds@.take(j as int)),
                                c.max_floor as int,
                            ),
                            count == c.moves + moves_made(
                                c.destination as int,
                                base + command_floors(cmds@.take(j as int)),
                                c.max_floor as int,
                            ),
                            count <= u32::MAX,
                        decreases m - j,
                    {
                        let floor = cmds[j].1 as i64;
                        let ghost before = base + command_floors(cmds@.take(j as int));
                        let ghost after = base + command_floors(cmds@.take(j + 1));
                        proof {
                            assert(after.drop_last() =~= before);
                            assert(after.last() == cmds@[j as int].1);
                        }
                        let clamped = if floor < 0 {
                            0
                        } else if floor > max_floor - 1 {
                            max_floor - 1
                        } else {
                            floor
                        };
                        if clamped != dest {
                            dest = clamped;
                            count = count + 1;
                            if count > 4294967295u64 {
                                proof {
                                    let full = commanded_floors(snaps, e as int);
                                    let upto = commanded_floors(snaps.take(k + 1), e as int);
                                    assert(snaps.take(k + 1).drop_last() =~= snaps.take(k as int));
                                    assert(snaps.take(k + 1).last() == snaps[k as int]);
                                    lemma_commanded_floors_prefix(snaps, k + 1, e as int);
                                    assert(upto =~= base + command_floors(cmds@));
                                    assert(upto.take(after.len() as int) =~= after);
                                    assert(full.take(after.len() as int) =~= after);
                                    lemma_moves_made_prefix(
                                        c.destination as int,
                                        full,
                                        after.len() as int,
                                        c.max_floor as int,
                                    );
                                    assert(self.elevators@[e as int] == c);
                                }
                                return false;
                            }
                        }
                        j = j + 1;
                    }
                    proof {
                        assert(cmds@.take(m as int) =~= cmds@);
                    }
                }
                k = k + 1;
            }
            proof {
                assert(snaps.take(n as int) =~= snaps);
            }
            e = e + 1;
        }
        true
    }

    /// The passengers of car `e` bound for `floor` get off: their slots are
    /// freed, they are marked as gone and counted as transported. Returns
    /// their ids in slot order.
    fn unload(&mut self, e: usize, floor: i32) -> (r: Vec<u64>)
        requires
            old(self).wf(),
            e < old(self).elevators@.len(),
            old(self).transported_count + exits(
                old(self).passengers@,
                old(self).elevators@[e as int].slots@,
                floor,
            ).len() <= u32::MAX,
        ensures
            final(self).wf(),
            r@ == exits(old(self).passengers@, old(self).elevators@[e as int].slots@, floor),
            final(self).transported_count == old(self).transported_count + r@.len(),
            final(self).passengers@.len() == old(self).passengers@.len(),
            forall|i: int|
                0 <= i < old(self).passengers@.len() ==> (#[trigger] final(self).passengers@[i]) == if alights(
                    old(self).passengers@[i],
                    e as int,
                    floor,
                ) {
                    alighted(old(self).passengers@[i])
                } else {
                    old(self).passengers@[i]
                },
            final(self).elevators@.len() == old(self).elevators@.len(),
            forall|k: int|
                0 <= k < old(self).elevators@.len() && k != e ==> final(self).elevators@[k]
                    == old(self).elevators@[k],
            final(self).elevators@[e as int].index == old(self).elevators@[e as int].index,
            final(self).elevators@[e as int].max_floor == old(self).elevators@[e as int].max_floor,
            final(self).elevators@[e as int].destination == old(self).elevators@[e as int].destination,
            final(self).elevators@[e as int].moves == old(self).elevators@[e as int].moves,
            final(self).elevators@[e as int].buttons@ == old(self).elevators@[e as int].buttons@,
            final(self).elevators@[e as int].going_up_indicator == old(self).elevators@[e as int].going_up_indicator,
            final(self).elevators@[e as int].going_down_indicator == old(self).elevators@[e as int].going_down_indicator,
            final(self).elevators@[e as int].slots@.len() == old(self).elevators@[e as int].slots@.len(),
            final(self).floor_count == old(self).floor_count,
            final(self).floor_buttons@ == old(self).floor_buttons@,
            final(self).end_condition == old(self).end_condition,
            final(self).next_passenger_id == old(self).next_passenger_id,
            final(self).rng.seed_of() == old(self).rng.seed_of(),
            final(self).rng.asked_of() == old(self).rng.asked_of(),
            final(self).rng.drawn_of() == old(self).rng.drawn_of(),
    {
        let ghost ps0 = self.passengers@;
        let ghost es0 = self.elevators@;
        let ghost slots0 = self.elevators@[e as int].slots@;
        let ghost t0 = self.transported_count;
        let cap = self.elevators[e].slots.len();
        let mut out: Vec<u64> = Vec::new();
        let mut j: usize = 0;
        while j < cap
            invariant
                0 <= j <= cap,
                cap == slots0.len(),
                e < es0.len(),
                es0 == old(self).elevators@,
                ps0 == old(self).passengers@,
                ids_unique(ps0),
                forall|i: int| 0 <= i < ps0.len() && (#[trigger] ps0[i]).state == PassengerState::Riding ==> seated(ps0[i], es0),
                slots0 == es0[e as int].slots@,
                t0 == old(self).transported_count,
                t0 + exits(ps0, slots0, floor).len() <= u32::MAX,
                self.wf(),
                out@ == exits(ps0, slots0.take(j as int), floor),
                self.transported_count == t0 + out@.len(),
                self.passengers@.len() == ps0.len(),
                forall|i: int|
                    0 <= i < ps0.len() ==> (#[trigger] self.passengers@[i]) == if alights(ps0[i], e as int, floor)
                        && ps0[i].slot->0 < j {
                        alighted(ps0[i])
                    } else {
                        ps0[i]
                    },
                self.elevators@.len() == es0.len(),
                forall|k: int| 0 <= k < es0.len() && k != e ==> self.elevators@[k] == es0[k],
                self.elevators@[e as int].index == es0[e as int].index,
                self.elevators@[e as int].max_floor == es0[e as int].max_floor,
                self.elevators@[e as int].destination == es0[e as int].destination,
                self.elevators@[e as int].moves == es0[e as int].moves,
                self.elevators@[e as int].buttons@ == es0[e as int].buttons@,
                self.elevators@[e as int].going_up_indicator == es0[e as int].going_up_indicator,
                self.elevators@[e as int].going_down_indicator == es0[e as int].going_down_indicator,
                self.elevators@[e as int].slots@.len() == cap,
                forall|s: int| j <= s < cap ==> self.elevators@[e as int].slots@[s] == slots0[s],
                self.floor_count == old(self).floor_count,
                self.floor_buttons@ == old(self).floor_buttons@,
                self.end_condition == old(self).end_condition,
                self.next_passenger_id == old(self).next_passenger_id,
                self.rng.seed_of() == old(self).rng.seed_of(),
                self.rng.asked_of() == old(self).rng.asked_of(),
                self.rng.drawn_of() == old(self).rng.drawn_of(),
            decreases cap - j,
        {
            proof {
                assert(slots0.take(j + 1).drop_last() =~= slots0.take(j as int));
                assert(slots0.take(j + 1).last() == slots0[j as int]);
                lemma_exits_prefix(ps0, slots0, floor, j + 1);
            }
            let slot = self.elevators[e].slots[j];
            if let Some(pid) = slot {
                let ghost r = lemma_occupant(
                    self.floor_count as int,
                    self.elevators@,
                    self.passengers@,
                    self.floor_buttons@,
                    self.next_passenger_id,
                    e as int,
                    j as int,
                );
                proof {
                    assert(self.passengers@[r] == ps0[r]);
                    lemma_first_unique(ps0, r);
                    assert(ps0[r].id == pid);
                }
                let found = self.find_passenger(pid);
                let i = found.unwrap();
                let p = self.passengers[i];
                if p.should_exit_at(floor) {
                    let ghost es_before = self.elevators@;
                    let ghost ps_before = self.passengers@;
                    proof {
                        lemma_first_slot_of(self.elevators@[e as int].slots@, pid);
                    }
                    let removed = self.elevators[e].remove_passenger(pid);
                    let q = SimPassenger { state: PassengerState::Exited, elevator_index: None, slot: None, ..p };
                    proof {
                        lemma_unseat(
                            self.floor_count as int,
                            es_before,
                            ps_before,
                            self.floor_buttons@,
                            self.next_passenger_id,
                            self.elevators@,
                            r,
                            e as int,
                            j as int,
                        );
                    }
                    self.passengers.set(i, q);
                    self.transported_count = self.transported_count + 1;
                    out.push(pid);
                }
            }
            j = j + 1;
        }
        proof {
            assert(slots0.take(cap as int) =~= slots0);
            assert forall|i: int| 0 <= i < ps0.len() && alights(ps0[i], e as int, floor) implies ps0[i].slot->0 < cap by {
                assert(seated(ps0[i], es0));
            }
        }
        out
    }

    /// Waiting passengers on `floor` board car `e`, in passenger order,
    /// while it has a free slot: those whose direction the car serves
    /// (`going_up`, `going_down`) take a slot drawn at random and light their
    /// destination in the car; the others stay.
    fn board(&mut self, e: usize, floor: i32, going_up: bool, going_down: bool)
        requires
            old(self).wf(),
            e < old(self).elevators@.len(),
        ensures
            final(self).wf(),
            final(self).passengers@.len() == old(self).passengers@.len(),
            forall|i: int|
                0 <= i < old(self).passengers@.len() ==> (#[trigger] final(self).passengers@[i]) == old(self).passengers@[i]
                    || (can_board(old(self).passengers@[i], floor, going_up, going_down)
                    && final(self).passengers@[i] == boarded(
                        old(self).passengers@[i],
                        e,
                        final(self).passengers@[i].slot->0,
                    )),
            forall|i: int|
                0 <= i < old(self).passengers@.len() && can_board(old(self).passengers@[i], floor, going_up, going_down)
                    && (#[trigger] final(self).passengers@[i]) == old(self).passengers@[i] ==> forall|s: int|
                    0 <= s < final(self).elevators@[e as int].slots@.len() ==> (
                    #[trigger] final(self).elevators@[e as int].slots@[s]) is Some,
            forall|a: int, b: int|
                0 <= a < b < old(self).passengers@.len() && can_board(old(self).passengers@[a], floor, going_up, going_down)
                    && (#[trigger] final(self).passengers@[b]) != old(self).passengers@[b]
                    ==> (#[trigger] final(self).passengers@[a]) != old(self).passengers@[a],
            final(self).elevators@.len() == old(self).elevators@.len(),
            forall|k: int|
                0 <= k < old(self).elevators@.len() && k != e ==> final(self).elevators@[k]
                    == old(self).elevators@[k],
            final(self).elevators@[e as int].index == old(self).elevators@[e as int].index,
            final(self).elevators@[e as int].max_floor == old(self).elevators@[e as int].max_floor,
            final(self).elevators@[e as int].destination == old(self).elevators@[e as int].destination,
            final(self).elevators@[e as int].moves == old(self).elevators@[e as int].moves,
            final(self).elevators@[e as int].going_up_indicator == old(self).elevators@[e as int].going_up_indicator,
            final(self).elevators@[e as int].going_down_indicator == old(self).elevators@[e as int].going_down_indicator,
            final(self).elevators@[e as int].slots@.len() == old(self).elevators@[e as int].slots@.len(),
            final(self).elevators@[e as int].buttons@.len() == old(self).elevators@[e as int].buttons@.len(),
            forall|f: int|
                0 <= f < old(self).elevators@[e as int].buttons@.len() && old(self).elevators@[e as int].buttons@[f]
                    ==> #[trigger] final(self).elevators@[e as int].buttons@[f],
            forall|i: int|
                0 <= i < old(self).passengers@.len() && (#[trigger] final(self).passengers@[i]) != old(self).passengers@[i]
                    ==> final(self).elevators@[e as int].buttons@[old(self).passengers@[i].destination_floor as int],
            forall|f: int|
                0 <= f < old(self).elevators@[e as int].buttons@.len() && #[trigger] final(self).elevators@[e as int].buttons@[f]
                    && !old(self).elevators@[e as int].buttons@[f] ==> exists|i: int|
                    0 <= i < old(self).passengers@.len() && (#[trigger] final(self).passengers@[i]) != old(self).passengers@[i]
                        && old(self).passengers@[i].destination_floor == f,
            final(self).floor_count == old(self).floor_count,
            final(self).floor_buttons@ == old(self).floor_buttons@,
            final(self).transported_count == old(self).transported_count,
            final(self).end_condition == old(self).end_condition,
            final(self).next_passenger_id == old(self).next_passenger_id,
            final(self).rng.seed_of() == old(self).rng.seed_of(),
            final(self).rng.asked_of() == old(self).rng.asked_of() + seat_requests(
                free_slots(final(self).elevators@[e as int].slots@).len() as int,
                boarding_count(old(self).passengers@, final(self).passengers@, old(self).passengers@.len() as int),
            ),
            final(self).rng.drawn_of().len() == old(self).rng.drawn_of().len() + boarding_count(
                old(self).passengers@,
                final(self).passengers@,
                old(self).passengers@.len() as int,
            ),
            final(self).rng.drawn_of().take(old(self).rng.drawn_of().len() as int) == old(self).rng.drawn_of(),
            seats_follow_draws(
                final(self).elevators@[e as int].slots@,
                old(self).passengers@,
                final(self).passengers@,
                old(self).passengers@.len() as int,
                final(self).rng.drawn_of().skip(old(self).rng.drawn_of().len() as int),
            ),
    {
        let ghost ps0 = self.passengers@;
        let ghost es0 = self.elevators@;
        let ghost b0 = self.elevators@[e as int].buttons@;
        let n = self.passengers.len();
        let mut i: usize = 0;
        let mut full = false;
        while i < n && !full
            invariant
                0 <= i <= n,
                n == ps0.len(),
                e < es0.len(),
                es0 == old(self).elevators@,
                ps0 == old(self).passengers@,
                b0 == es0[e as int].buttons@,
                self.wf(),
                full ==> forall|s: int|
                    0 <= s < self.elevators@[e as int].slots@.len() ==> (#[trigger] self.elevators@[e as int].slots@[s]) is Some,
                self.passengers@.len() == n,
                forall|k: int| i <= k < n ==> (#[trigger] self.passengers@[k]) == ps0[k],
                forall|k: int|
                    0 <= k < i ==> (#[trigger] self.passengers@[k]) == ps0[k] || (can_board(ps0[k], floor, going_up, going_down)
                        && self.passengers@[k] == boarded(ps0[k], e, self.passengers@[k].slot->0)),
                forall|k: int| 0 <= k < i && can_board(ps0[k], floor, going_up, going_down) ==> (#[trigger] self.passengers@[k]) != ps0[k],
                self.elevators@.len() == es0.len(),
                forall|k: int| 0 <= k < es0.len() && k != e ==> self.elevators@[k] == es0[k],
                self.elevators@[e as int].index == es0[e as int].index,
                self.elevators@[e as int].max_floor == es0[e as int].max_floor,
                self.elevators@[e as int].destination == es0[e as int].destination,
                self.elevators@[e as int].moves == es0[e as int].moves,
                self.elevators@[e as int].going_up_indicator == es0[e as int].going_up_indicator,
                self.elevators@[e as int].going_down_indicator == es0[e as int].going_down_indicator,
                self.elevators@[e as int].buttons@.len() == b0.len(),
                self.elevators@[e as int].slots@.len() == es0[e as int].slots@.len(),
                forall|f: int| 0 <= f < b0.len() && b0[f] ==> #[trigger] self.elevators@[e as int].buttons@[f],
                forall|k: int|
                    0 <= k < n && (#[trigger] self.passengers@[k]) != ps0[k]
                        ==> self.elevators@[e as int].buttons@[ps0[k].destination_floor as int],
                forall|f: int|
                    0 <= f < b0.len() && #[trigger] self.elevators@[e as int].buttons@[f] && !b0[f] ==> exists|k: int|
                        0 <= k < n && (#[trigger] self.passengers@[k]) != ps0[k] && ps0[k].destination_floor == f,
                self.floor_count == old(self).floor_count,
                self.floor_buttons@ == old(self).floor_buttons@,
                self.transported_count == old(self).transported_count,
                self.end_condition == old(self).end_condition,
                self.next_passenger_id == old(self).next_passenger_id,
                self.rng.seed_of() == old(self).rng.seed_of(),
                self.rng.asked_of() == old(self).rng.asked_of() + seat_requests(
                    free_slots(self.elevators@[e as int].slots@).len() as int,
                    boarding_count(ps0, self.passengers@, i as int),
                ),
                self.rng.drawn_of().len() == old(self).rng.drawn_of().len() + boarding_count(
                    ps0,
                    self.passengers@,
                    i as int,
                ),
                self.rng.drawn_of().take(old(self).rng.drawn_of().len() as int) == old(self).rng.drawn_of(),
                seats_follow_draws(
                    self.elevators@[e as int].slots@,
                    ps0,
                    self.passengers@,
                    i as int,
                    self.rng.drawn_of().skip(old(self).rng.drawn_of().len() as int),
                ),
                forall|k: int|
                    0 <= k < i && #[trigger] got_on(ps0, self.passengers@, k) ==> self.passengers@[k].slot is Some
                        && self.passengers@[k].slot->0 < self.elevators@[e as int].slots@.len()
                        && self.elevators@[e as int].slots@[self.passengers@[k].slot->0 as int] is Some,
            decreases 2 * (n - i) + if full { 0int } else { 1int },
        {
            let ghost i0 = i;
            let p = self.passengers[i];
            if p.state == PassengerState::Waiting && p.starting_floor == floor {
                if self.elevators[e].is_full() {
                    full = true;
                } else {
                    let wants_up = p.destination_floor > floor;
                    let wants_down = p.destination_floor < floor;
                    if (wants_up && going_up) || (wants_down && going_down) {
                        let ghost es_before = self.elevators@;
                        let ghost ps_before = self.passengers@;
                        let ghost cb = self.elevators@[e as int].buttons@;
                        let ghost asked_before = self.rng.asked_of();
                        let ghost drawn_before = self.rng.drawn_of();
                        let ghost slots_before = self.elevators@[e as int].slots@;
                        proof {
                            lemma_free_slots(self.elevators@[e as int].slots@);
                        }
                        let added = self.elevators[e].add_passenger(p.id, p.destination_floor, &mut self.rng);
                        match added {
                            Some(slot) => {
                                proof {
                                    assert(ps_before[i as int] == ps0[i as int]);
                                    lemma_seat(
                                        self.floor_count as int,
                                        es_before,
                                        ps_before,
                                        self.floor_buttons@,
                                        self.next_passenger_id,
                                        self.elevators@,
                                        i as int,
                                        e,
                                        slot,
                                    );
                                    assert(0 <= p.destination_floor < self.floor_count);
                                }
                                let q = SimPassenger {
                                    state: PassengerState::Riding,
                                    elevator_index: Some(e),
                                    slot: Some(slot),
                                    ..p
                                };
                                self.passengers.set(i, q);
                                proof {
                                    let c = boarding_count(ps0, ps_before, i as int);
                                    let left = free_slots(slots_before).len() as int;
                                    lemma_free_slots_fill(slots_before, slot as int, Some(p.id));
                                    lemma_boarding_count_same(ps0, self.passengers@, ps0, ps_before, i as int);
                                    assert(self.passengers@[i as int] != ps0[i as int]);
                                    assert(boarding_count(ps0, self.passengers@, i + 1) == c + 1);
                                    assert(seat_requests(left - 1, c + 1) =~= seat_requests(left, c).push((0int, left - 1)));
                                    let d0 = old(self).rng.drawn_of();
                                    assert(self.rng.drawn_of().take(d0.len() as int) =~= drawn_before.take(d0.len() as int));
                                    let ds_old = drawn_before.skip(d0.len() as int);
                                    let ds_new = self.rng.drawn_of().skip(d0.len() as int);
                                    assert(ds_new =~= ds_old.push(self.rng.drawn_of().last()));
                                    let cur = self.passengers@;
                                    let s2 = self.elevators@[e as int].slots@;
                                    assert(s2 == slots_before.update(slot as int, Some(p.id)));
                                    assert forall|k: int| 0 <= k < i + 1 && #[trigger] got_on(ps0, cur, k) implies {
                                        let t = boarding_count(ps0, cur, k) as int;
                                        let free = free_slots(unseated(s2, ps0, cur, k, i + 1));
                                        &&& 0 <= t < ds_new.len()
                                        &&& 0 <= ds_new[t] < free.len()
                                        &&& cur[k].slot == Some(free[ds_new[t]] as usize)
                                    } by {
                                        if k < i {
                                            assert(cur[k] == ps_before[k]);
                                            assert(got_on(ps0, ps_before, k));
                                            assert forall|j: int| 0 <= j < k implies #[trigger] got_on(ps0, cur, j)
                                                == got_on(ps0, ps_before, j) by {
                                                assert(cur[j] == ps_before[j]);
                                            }
                                            lemma_boarding_count_same(ps0, cur, ps0, ps_before, k);
                                            assert forall|j: int| k <= j < i implies #[trigger] got_on(ps0, cur, j)
                                                == got_on(ps0, ps_before, j) && (got_on(ps0, cur, j) ==> cur[j].slot
                                                == ps_before[j].slot) by {
                                                assert(cur[j] == ps_before[j]);
                                            }
                                            lemma_unseated_same(s2, ps0, cur, ps0, ps_before, k, i as int);
                                            assert forall|j: int| k <= j < i && #[trigger] got_on(ps0, ps_before, j)
                                                implies ps_before[j].slot->0 != slot by {
                                                assert(slots_before[ps_before[j].slot->0 as int] is Some);
                                            }
                                            lemma_unseated_update(slots_before, ps0, ps_before, k, i as int, slot as int, Some(p.id));
                                            lemma_unseated_keeps_empty(slots_before, ps0, ps_before, k, i as int);
                                            let u = unseated(slots_before, ps0, ps_before, k, i as int);
                                            assert(unseated(s2, ps0, cur, k, i + 1) =~= u.update(slot as int, Some(p.id)).update(slot as int, None));
                                            assert(unseated(s2, ps0, cur, k, i + 1) =~= u);
                                        } else {
                                            assert(unseated(s2, ps0, cur, i as int, i as int) == s2);
                                            assert(unseated(s2, ps0, cur, i as int, i + 1) =~= slots_before);
                                        }
                                    }
                                    assert forall|k: int|
                                        0 <= k < i + 1 && #[trigger] got_on(ps0, cur, k) implies cur[k].slot is Some
                                            && cur[k].slot->0 < s2.len() && s2[cur[k].slot->0 as int] is Some by {
                                        if k < i {
                                            assert(cur[k] == ps_before[k]);
                                            assert(got_on(ps0, ps_before, k));
                                        }
                                    }
                                    let nb = self.elevators@[e as int].buttons@;
                                    assert(nb == cb.update(p.destination_floor as int, true));
                                    assert forall|f: int|
                                        0 <= f < b0.len() && #[trigger] nb[f] && !b0[f] implies exists|k: int|
                                            0 <= k < n && (#[trigger] self.passengers@[k]) != ps0[k]
                                                && ps0[k].destination_floor == f by {
                                        if f == p.destination_floor {
                                            assert(self.passengers@[i as int] != ps0[i as int]);
                                        } else {
                                            assert(cb[f]);
                                            let k = choose|k: int|
                                                0 <= k < n && (#[trigger] ps_before[k]) != ps0[k]
                                                    && ps0[k].destination_floor == f;
                                            assert(self.passengers@[k] == ps_before[k]);
                                        }
                                    }
                                    assert forall|k: int|
                                        0 <= k < n && (#[trigger] self.passengers@[k]) != ps0[k] implies nb[ps0[k].destination_floor as int] by {
                                        if k != i {
                                            assert(self.passengers@[k] == ps_before[k]);
                                        }
                                    }
                                }
                            },
                            None => {},
                        }
                    }
                    i = i + 1;
                }
            } else {
                i = i + 1;
            }
            proof {
                if i > i0 && self.passengers@[i0 as int] == ps0[i0 as int] {
                    lemma_seats_follow_step(
                        self.elevators@[e as int].slots@,
                        ps0,
                        self.passengers@,
                        i0 as int,
                        self.rng.drawn_of().skip(old(self).rng.drawn_of().len() as int),
                    );
                }
            }
        }
        proof {
            lemma_boarding_count_tail(ps0, self.passengers@, i as int, n as int);
            assert forall|k: int| 0 <= k < n && #[trigger] got_on(ps0, self.passengers@, k) implies {
                let t = boarding_count(ps0, self.passengers@, k) as int;
                let free = free_slots(unseated(self.elevators@[e as int].slots@, ps0, self.passengers@, k, n as int));
                let ds = self.rng.drawn_of().skip(old(self).rng.drawn_of().len() as int);
                &&& 0 <= t < ds.len()
                &&& 0 <= ds[t] < free.len()
                &&& self.passengers@[k].slot == Some(free[ds[t]] as usize)
            } by {
                lemma_unseated_tail(self.elevators@[e as int].slots@, ps0, self.passengers@, k, i as int, n as int);
            }
        }
    }

    /// After a car serving `going_up` / `going_down` has taken on whom it
    /// could at `floor`, each served call goes out unless someone is still
    /// waiting to go that way.
    fn clear_answered_calls(&mut self, floor: i32, going_up: bool, going_down: bool)
        requires
            old(self).wf(),
            0 <= floor < old(self).floor_count,
        ensures
            final(self).wf(),
            final(self).floor_buttons@ == old(self).floor_buttons@.update(
                floor as int,
                answered(old(self).floor_buttons@[floor as int], going_up, going_down, old(self).passengers@, floor),
            ),
            final(self).floor_count == old(self).floor_count,
            final(self).elevators@ == old(self).elevators@,
            final(self).passengers@ == old(self).passengers@,
            final(self).transported_count == old(self).transported_count,
            final(self).end_condition == old(self).end_condition,
            final(self).next_passenger_id == old(self).next_passenger_id,
            final(self).rng.seed_of() == old(self).rng.seed_of(),
            final(self).rng.asked_of() == old(self).rng.asked_of(),
            final(self).rng.drawn_of() == old(self).rng.drawn_of(),
    {
        let ghost ps = self.passengers@;
        let n = self.passengers.len();
        let mut remaining_up = false;
        let mut remaining_down = false;
        let mut i: usize = 0;
        while i < n
            invariant
                0 <= i <= n,
                n == ps.len(),
                ps == self.passengers@,
                remaining_up == exists|k: int|
                    0 <= k < i && (#[trigger] ps[k]).state == PassengerState::Waiting && ps[k].starting_floor == floor
                        && ps[k].destination_floor > floor,
                remaining_down == exists|k: int|
                    0 <= k < i && (#[trigger] ps[k]).state == PassengerState::Waiting && ps[k].starting_floor == floor
                        && ps[k].destination_floor < floor,
            decreases n - i,
        {
            let p = self.passengers[i];
            if p.state == PassengerState::Waiting && p.starting_floor == floor {
                if p.destination_floor > floor {
                    remaining_up = true;
                }
                if p.destination_floor < floor {
                    remaining_down = true;
                }
            }
            i = i + 1;
        }
        let b = self.floor_buttons[floor as usize];
        let mut nb = b;
        if going_up && !remaining_up {
            nb.up = false;
        }
        if going_down && !remaining_down {
            nb.down = false;
        }
        self.floor_buttons.set(floor as usize, nb);
        proof {
            let fb = self.floor_buttons@;
            assert forall|k: int|
                0 <= k < ps.len() && #[trigger] ps[k].state == PassengerState::Waiting implies {
                &&& ps[k].destination_floor > ps[k].starting_floor ==> fb[ps[k].starting_floor as int].up
                &&& ps[k].destination_floor < ps[k].starting_floor ==> fb[ps[k].starting_floor as int].down
            } by {
                assert(ps[k] == ps[k]);
            }
        }
    }

    /// Car `elevator_idx` stands open at `current_floor`: its riders bound
    /// there get off (and are counted as transported), then waiting
    /// passengers whose direction the car serves get on, first come first
    /// served, while there is room, and the floor's answered calls go out.
    /// The car serves up when the floor's up call is lit and its up
    /// indicator is on, and down likewise. Each passenger who gets on draws
    /// one index below the number of slots then free and takes the free slot
    /// at that index, counting in increasing order; nothing else is drawn.
    /// Returns the ids of those who got off, in slot order.
    pub fn handle_arrival(&mut self, elevator_idx: usize, current_floor: i32) -> (exited: Vec<u64>)
        requires
            old(self).wf(),
            elevator_idx < old(self).elevators@.len(),
            0 <= current_floor < old(self).floor_count,
            old(self).transported_count + exits(
                old(self).passengers@,
                old(self).elevators@[elevator_idx as int].slots@,
                current_floor,
            ).len() <= u32::MAX,
        ensures
            ({
                let e = elevator_idx as int;
                let floor = current_floor;
                let ps0 = old(self).passengers@;
                let ps = final(self).passengers@;
                let car0 = old(self).elevators@[e];
                let car = final(self).elevators@[e];
                let going_up = old(self).floor_buttons@[floor as int].up && car0.going_up_indicator;
                let going_down = old(self).floor_buttons@[floor as int].down && car0.going_down_indicator;
                &&& final(self).wf()
                &&& exited@ == exits(ps0, car0.slots@, floor)
                &&& final(self).transported_count == old(self).transported_count + exited@.len()
                &&& ps.len() == ps0.len()
                &&& forall|i: int|
                    0 <= i < ps0.len() ==> if alights(ps0[i], e, floor) {
                        #[trigger] ps[i] == alighted(ps0[i])
                    } else {
                        ps[i] == ps0[i] || (can_board(ps0[i], floor, going_up, going_down) && ps[i] == boarded(
                            ps0[i],
                            elevator_idx,
                            ps[i].slot->0,
                        ))
                    }
                &&& forall|i: int|
                    0 <= i < ps0.len() && can_board(ps0[i], floor, going_up, going_down) && #[trigger] ps[i] == ps0[i]
                        ==> forall|s: int| 0 <= s < car.slots@.len() ==> (#[trigger] car.slots@[s]) is Some
                &&& forall|a: int, b: int|
                    0 <= a < b < ps0.len() && can_board(ps0[a], floor, going_up, going_down) && can_board(ps0[b], floor, going_up, going_down)
                        && #[trigger] ps[b] != ps0[b] ==> #[trigger] ps[a] != ps0[a]
                &&& final(self).floor_buttons@ == old(self).floor_buttons@.update(
                    floor as int,
                    answered(old(self).floor_buttons@[floor as int], going_up, going_down, ps, floor),
                )
                &&& final(self).elevators@.len() == old(self).elevators@.len()
                &&& forall|k: int|
                    0 <= k < old(self).elevators@.len() && k != e ==> final(self).elevators@[k] == old(self).elevators@[k]
                &&& car.index == car0.index
                &&& car.max_floor == car0.max_floor
                &&& car.destination == car0.destination
                &&& car.moves == car0.moves
                &&& car.going_up_indicator == car0.going_up_indicator
                &&& car.going_down_indicator == car0.going_down_indicator
                &&& car.buttons@.len() == car0.buttons@.len()
                &&& car.slots@.len() == car0.slots@.len()
                &&& forall|s: int|
                    0 <= s < car0.slots@.len() && (#[trigger] car0.slots@[s]) is Some && destination_of(
                        ps0,
                        car0.slots@[s]->0,
                    ) != Some(floor) ==> car.slots@[s] == car0.slots@[s]
                &&& forall|f: int| 0 <= f < car0.buttons@.len() && car0.buttons@[f] ==> #[trigger] car.buttons@[f]
                &&& forall|i: int|
                    0 <= i < ps0.len() && can_board(ps0[i], floor, going_up, going_down) && #[trigger] ps[i] != ps0[i]
                        ==> car.buttons@[ps0[i].destination_floor as int]
                &&& forall|f: int|
                    0 <= f < car0.buttons@.len() && #[trigger] car.buttons@[f] && !car0.buttons@[f] ==> exists|i: int|
                        0 <= i < ps0.len() && can_board(ps0[i], floor, going_up, going_down) && #[trigger] ps[i] != ps0[i]
                            && ps0[i].destination_floor == f
                &&& forall|i: int|
                    0 <= i < ps.len() && (#[trigger] ps[i]).state == PassengerState::Riding && ps[i].elevator_index
                        == Some(elevator_idx) ==> ps[i].destination_floor != floor
                &&& final(self).floor_count == old(self).floor_count
                &&& final(self).end_condition == old(self).end_condition
                &&& final(self).next_passenger_id == old(self).next_passenger_id
                &&& final(self).rng.seed_of() == old(self).rng.seed_of()
                &&& final(self).rng.asked_of() == old(self).rng.asked_of() + seat_requests(
                    free_slots(car.slots@).len() as int,
                    boarding_count(ps0, ps, ps0.len() as int),
                )
                &&& final(self).rng.drawn_of().len() == old(self).rng.drawn_of().len() + boarding_count(
                    ps0,
                    ps,
                    ps0.len() as int,
                )
                &&& final(self).rng.drawn_of().take(old(self).rng.drawn_of().len() as int) == old(self).rng.drawn_of()
                &&& seats_follow_draws(
                    car.slots@,
                    ps0,
                    ps,
                    ps0.len() as int,
                    final(self).rng.drawn_of().skip(old(self).rng.drawn_of().len() as int),
                )
            }),
    {
        let e = elevator_idx;
        let floor = current_floor;
        let ghost ps0 = self.passengers@;
        let exited = self.unload(e, floor);
        let ghost ps1 = self.passengers@;
        let going_up = self.floor_buttons[floor as usize].up && self.elevators[e].going_up_indicator;
        let going_down = self.floor_buttons[floor as usize].down && self.elevators[e].going_down_indicator;
        proof {
            assert forall|i: int| 0 <= i < ps0.len() implies can_board(ps1[i], floor, going_up, going_down)
                == can_board(ps0[i], floor, going_up, going_down) by {
                assert(ps1[i] == ps1[i]);
            }
        }
        self.board(e, floor, going_up, going_down);
        let ghost ps2 = self.passengers@;
        proof {
            assert forall|k: int| 0 <= k < ps0.len() implies ((#[trigger] ps1[k]).state == PassengerState::Waiting
                && ps2[k] != ps1[k]) == (ps0[k].state == PassengerState::Waiting && ps2[k] != ps0[k]) by {
                assert(ps1[k] == ps1[k]);
            }
            lemma_boarding_count_same(ps1, ps2, ps0, ps2, ps0.len() as int);
            let slots2 = self.elevators@[e as int].slots@;
            let ds = self.rng.drawn_of().skip(old(self).rng.drawn_of().len() as int);
            assert forall|i: int| 0 <= i < ps0.len() && #[trigger] got_on(ps0, ps2, i) implies {
                let t = boarding_count(ps0, ps2, i) as int;
                let free = free_slots(unseated(slots2, ps0, ps2, i, ps0.len() as int));
                &&& 0 <= t < ds.len()
                &&& 0 <= ds[t] < free.len()
                &&& ps2[i].slot == Some(free[ds[t]] as usize)
            } by {
                assert(got_on(ps1, ps2, i));
                lemma_boarding_count_same(ps1, ps2, ps0, ps2, i);
                lemma_unseated_same(slots2, ps1, ps2, ps0, ps2, i, ps0.len() as int);
            }
            assert forall|i: int| 0 <= i < ps0.len() && alights(ps0[i], e as int, floor) implies #[trigger] ps2[i] == alighted(ps0[i]) by {
                assert(ps1[i] == alighted(ps0[i]));
                assert(!can_board(ps1[i], floor, going_up, going_down));
            }
        }
        self.clear_answered_calls(floor, going_up, going_down);
        proof {
            let ps = self.passengers@;
            let car0 = old(self).elevators@[e as int];
            assert forall|s: int|
                0 <= s < car0.slots@.len() && (#[trigger] car0.slots@[s]) is Some && destination_of(
                    ps0,
                    car0.slots@[s]->0,
                ) != Some(floor) implies self.elevators@[e as int].slots@[s] == car0.slots@[s] by {
                let r = lemma_occupant(
                    old(self).floor_count as int,
                    old(self).elevators@,
                    ps0,
                    old(self).floor_buttons@,
                    old(self).next_passenger_id,
                    e as int,
                    s,
                );
                assert(!alights(ps0[r], e as int, floor));
                assert(ps1[r] == ps0[r]);
                assert(!can_board(ps1[r], floor, going_up, going_down));
                assert(ps[r] == ps0[r]);
                assert(seated(ps[r], self.elevators@));
            }
            assert forall|i: int|
                0 <= i < ps.len() && (#[trigger] ps[i]).state == PassengerState::Riding && ps[i].elevator_index
                    == Some(elevator_idx) implies ps[i].destination_floor != floor by {
                assert(ps[i] == ps2[i]);
                if ps2[i] != ps1[i] {
                    assert(can_board(ps1[i], floor, going_up, going_down));
                } else if ps1[i] != ps0[i] {
                    assert(ps1[i] == alighted(ps0[i]));
                } else {
                    assert(!alights(ps0[i], e as int, floor));
                }
            }
        }
        exited
    }

    /// Car `e` has come to rest at its destination: that floor's button in
    /// the car goes out.
    pub fn elevator_arrived(&mut self, e: usize)
        requires
            old(self).wf(),
            e < old(self).elevators@.len(),
        ensures
            final(self).wf(),
            final(self).elevators@.len() == old(self).elevators@.len(),
            forall|k: int| 0 <= k < old(self).elevators@.len() && k != e ==> final(self).elevators@[k] == old(self).elevators@[k],
            final(self).elevators@[e as int].buttons@ == if old(self).elevators@[e as int].destination
                < old(self).floor_count {
                old(self).elevators@[e as int].buttons@.update(old(self).elevators@[e as int].destination as int, false)
            } else {
                old(self).elevators@[e as int].buttons@
            },
            final(self).elevators@[e as int].index == old(self).elevators@[e as int].index,
            final(self).elevators@[e as int].max_floor == old(self).elevators@[e as int].max_floor,
            final(self).elevators@[e as int].destination == old(self).elevators@[e as int].destination,
            final(self).elevators@[e as int].moves == old(self).elevators@[e as int].moves,
            final(self).elevators@[e as int].slots@ == old(self).elevators@[e as int].slots@,
            final(self).elevators@[e as int].going_up_indicator == old(self).elevators@[e as int].going_up_indicator,
            final(self).elevators@[e as int].going_down_indicator == old(self).elevators@[e as int].going_down_indicator,
            final(self).floor_count == old(self).floor_count,
            final(self).passengers@ == old(self).passengers@,
            final(self).floor_buttons@ == old(self).floor_buttons@,
            final(self).transported_count == old(self).transported_count,
            final(self).end_condition == old(self).end_condition,
            final(self).next_passenger_id == old(self).next_passenger_id,
            final(self).rng.seed_of() == old(self).rng.seed_of(),
            final(self).rng.asked_of() == old(self).rng.asked_of(),
            final(self).rng.drawn_of() == old(self).rng.drawn_of(),
    {
        let ghost es0 = self.elevators@;
        self.elevators[e].arrive();
        proof {
            lemma_same_seats(self.floor_count as int, self.passengers@, es0, self.elevators@, self.floor_buttons@);
        }
    }

    /// Whether the run is over and, if so, won, for the challenge's end
    /// condition and the given measures.
    pub fn check_end(&self, stats: &Stats) -> (r: Option<bool>)
        ensures
            r == (if finished(self.end_condition, *stats) {
                Some(requirements_met(self.end_condition, *stats))
            } else {
                None
            }),
    {
        self.end_condition.evaluate(stats)
    }
}

} // verus!
