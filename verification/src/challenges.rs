use vstd::prelude::*;
use crate::sim::Stats;

verus! {

/// A level of the game: the building, how fast passengers arrive, and when
/// the run ends.
///
/// `spawn_rate_per_minute` counts the passengers that arrive per minute of
/// simulated time. The elevators take their capacities from
/// `elevator_capacities` in turn: elevator `i` takes entry
/// `i % elevator_capacities.len()`.
#[derive(Debug, Clone)]
pub struct Challenge {
    pub floor_count: usize,
    pub elevator_count: usize,
    pub spawn_rate_per_minute: u32,
    pub elevator_capacities: Vec<usize>,
    pub end_condition: EndCondition,
}

/// When a run ends, and whether it is won. Times are whole seconds of
/// simulated time.
#[derive(Debug, Clone, Copy)]
pub enum EndCondition {
    /// Runs for ever.
    Demo,
    /// Transport `passengers` within `time_limit`.
    PassengersWithinTime { passengers: u32, time_limit: u32 },
    /// Transport `passengers` while no one waits longer than `max_wait`.
    PassengersWithMaxWait { passengers: u32, max_wait: u32 },
    /// Both of the above at once.
    PassengersWithinTimeMaxWait { passengers: u32, time_limit: u32, max_wait: u32 },
    /// Transport `passengers` with at most `move_limit` elevator moves.
    PassengersWithinMoves { passengers: u32, move_limit: u32 },
}

/// Whether the run is over: one of the condition's limits is reached, or the
/// passenger target is.
pub open spec fn finished(c: EndCondition, s: Stats) -> bool {
    match c {
        EndCondition::Demo => false,
        EndCondition::PassengersWithinTime { passengers, time_limit } => {
            s.elapsed_time.reaches(time_limit) || s.transported_count >= passengers
        },
        EndCondition::PassengersWithMaxWait { passengers, max_wait } => {
            s.max_wait_time.reaches(max_wait) || s.transported_count >= passengers
        },
        EndCondition::PassengersWithinTimeMaxWait { passengers, time_limit, max_wait } => {
            s.elapsed_time.reaches(time_limit) || s.max_wait_time.reaches(max_wait)
                || s.transported_count >= passengers
        },
        EndCondition::PassengersWithinMoves { passengers, move_limit } => {
            s.move_count >= move_limit || s.transported_count >= passengers
        },
    }
}

/// Whether every requirement of the condition holds: the target is met and
/// no limit is exceeded.
pub open spec fn requirements_met(c: EndCondition, s: Stats) -> bool {
    match c {
        EndCondition::Demo => false,
        EndCondition::PassengersWithinTime { passengers, time_limit } => {
            s.elapsed_time.stays_within(time_limit) && s.transported_count >= passengers
        },
        EndCondition::PassengersWithMaxWait { passengers, max_wait } => {
            s.max_wait_time.stays_within(max_wait) && s.transported_count >= passengers
        },
        EndCondition::PassengersWithinTimeMaxWait { passengers, time_limit, max_wait } => {
            s.elapsed_time.stays_within(time_limit) && s.max_wait_time.stays_within(max_wait)
                && s.transported_count >= passengers
        },
        EndCondition::PassengersWithinMoves { passengers, move_limit } => {
            s.move_count <= move_limit && s.transported_count >= passengers
        },
    }
}

impl EndCondition {
    /// `None` while the run goes on; once it is over, `Some(won)`.
    pub fn evaluate(self, s: &Stats) -> (r: Option<bool>)
        ensures
            r == (if finished(self, *s) {
                Some(requirements_met(self, *s))
            } else {
                None
            }),
    {
        match self {
            EndCondition::Demo => None,
            EndCondition::PassengersWithinTime { passengers, time_limit } => {
                if s.elapsed_time.at_least(time_limit) || s.transported_count >= passengers {
                    Some(s.elapsed_time.at_most(time_limit) && s.transported_count >= passengers)
                } else {
                    None
                }
            },
            EndCondition::PassengersWithMaxWait { passengers, max_wait } => {
                if s.max_wait_time.at_least(max_wait) || s.transported_count >= passengers {
                    Some(s.max_wait_time.at_most(max_wait) && s.transported_count >= passengers)
                } else {
                    None
                }
            },
            EndCondition::PassengersWithinTimeMaxWait { passengers, time_limit, max_wait } => {
                if s.elapsed_time.at_least(time_limit) || s.max_wait_time.at_least(max_wait)
                    || s.transported_count >= passengers {
                    Some(
                        s.elapsed_time.at_most(time_limit) && s.max_wait_time.at_most(max_wait)
                            && s.transported_count >= passengers,
                    )
                } else {
                    None
                }
            },
            EndCondition::PassengersWithinMoves { passengers, move_limit } => {
                if s.move_count >= move_limit || s.transported_count >= passengers {
                    Some(s.move_count <= move_limit && s.transported_count >= passengers)
                } else {
                    None
                }
            },
        }
    }
}

/// A demo never ends.
pub proof fn demo_never_ends(s: Stats)
    ensures
        !finished(EndCondition::Demo, s),
{
}

/// Every other condition ends the run once its passenger target is met,
/// and then the run is won exactly when no limit was exceeded.
pub proof fn target_met_ends_run(c: EndCondition, s: Stats)
    requires
        !(c is Demo),
        match c {
            EndCondition::Demo => false,
            EndCondition::PassengersWithinTime { passengers, .. } => s.transported_count >= passengers,
            EndCondition::PassengersWithMaxWait { passengers, .. } => s.transported_count >= passengers,
            EndCondition::PassengersWithinTimeMaxWait { passengers, .. } => s.transported_count >= passengers,
            EndCondition::PassengersWithinMoves { passengers, .. } => s.transported_count >= passengers,
        },
    ensures
        finished(c, s),
        requirements_met(c, s) == match c {
            EndCondition::Demo => false,
            EndCondition::PassengersWithinTime { time_limit, .. } => s.elapsed_time.stays_within(time_limit),
            EndCondition::PassengersWithMaxWait { max_wait, .. } => s.max_wait_time.stays_within(max_wait),
            EndCondition::PassengersWithinTimeMaxWait { time_limit, max_wait, .. } => s.elapsed_time.stays_within(time_limit)
                && s.max_wait_time.stays_within(max_wait),
            EndCondition::PassengersWithinMoves { move_limit, .. } => s.move_count <= move_limit,
        },
{
}

/// A run that is still going has exceeded no limit: it can still be won.
pub proof fn running_means_within_limits(c: EndCondition, s: Stats)
    requires
        !finished(c, s),
    ensures
        match c {
            EndCondition::Demo => true,
            EndCondition::PassengersWithinTime { time_limit, .. } => s.elapsed_time.stays_within(time_limit),
            EndCondition::PassengersWithMaxWait { max_wait, .. } => s.max_wait_time.stays_within(max_wait),
            EndCondition::PassengersWithinTimeMaxWait { time_limit, max_wait, .. } => s.elapsed_time.stays_within(time_limit)
                && s.max_wait_time.stays_within(max_wait),
            EndCondition::PassengersWithinMoves { move_limit, .. } => s.move_count <= move_limit,
        },
{
}

/// No run is won before its passenger target is met.
pub proof fn no_win_before_the_target(c: EndCondition, s: Stats)
    requires
        finished(c, s),
        requirements_met(c, s),
    ensures
        match c {
            EndCondition::Demo => false,
            EndCondition::PassengersWithinTime { passengers, .. } => s.transported_count >= passengers,
            EndCondition::PassengersWithMaxWait { passengers, .. } => s.transported_count >= passengers,
            EndCondition::PassengersWithinTimeMaxWait { passengers, .. } => s.transported_count >= passengers,
            EndCondition::PassengersWithinMoves { passengers, .. } => s.transported_count >= passengers,
        },
{
}

/// While fewer passengers than the target have been transported and no
/// limit has been reached, the run goes on.
pub proof fn run_goes_on_below_target_and_limits(c: EndCondition, s: Stats)
    requires
        match c {
            EndCondition::Demo => true,
            EndCondition::PassengersWithinTime { passengers, time_limit } => s.transported_count < passengers
                && s.elapsed_time.whole < time_limit,
            EndCondition::PassengersWithMaxWait { passengers, max_wait } => s.transported_count < passengers
                && s.max_wait_time.whole < max_wait,
            EndCondition::PassengersWithinTimeMaxWait { passengers, time_limit, max_wait } => s.transported_count
                < passengers && s.elapsed_time.whole < time_limit && s.max_wait_time.whole < max_wait,
            EndCondition::PassengersWithinMoves { passengers, move_limit } => s.transported_count < passengers
                && s.move_count < move_limit,
        },
    ensures
        !finished(c, s),
{
}

/// Reaching a limit ends the run, and going past it loses the run: a time
/// past a limit of whole seconds, or more moves than allowed.
pub proof fn limits_end_and_lose_the_run(c: EndCondition, s: Stats)
    ensures
        match c {
            EndCondition::Demo => true,
            EndCondition::PassengersWithinTime { time_limit, .. } => {
                &&& s.elapsed_time.whole >= time_limit ==> finished(c, s)
                &&& (s.elapsed_time.whole > time_limit || (s.elapsed_time.whole == time_limit
                    && s.elapsed_time.has_fraction)) ==> !requirements_met(c, s)
            },
            EndCondition::PassengersWithMaxWait { max_wait, .. } => {
                &&& s.max_wait_time.whole >= max_wait ==> finished(c, s)
                &&& (s.max_wait_time.whole > max_wait || (s.max_wait_time.whole == max_wait
                    && s.max_wait_time.has_fraction)) ==> !requirements_met(c, s)
            },
            EndCondition::PassengersWithinTimeMaxWait { time_limit, max_wait, .. } => {
                &&& (s.elapsed_time.whole >= time_limit || s.max_wait_time.whole >= max_wait) ==> finished(c, s)
                &&& (s.elapsed_time.whole > time_limit || (s.elapsed_time.whole == time_limit
                    && s.elapsed_time.has_fraction)) ==> !requirements_met(c, s)
                &&& (s.max_wait_time.whole > max_wait || (s.max_wait_time.whole == max_wait
                    && s.max_wait_time.has_fraction)) ==> !requirements_met(c, s)
            },
            EndCondition::PassengersWithinMoves { move_limit, .. } => {
                &&& s.move_count >= move_limit ==> finished(c, s)
                &&& s.move_count > move_limit ==> !requirements_met(c, s)
            },
        },
{
}

/// `c` is the challenge with these values.
pub open spec fn is_entry(
    c: Challenge,
    floor_count: usize,
    elevator_count: usize,
    spawn_rate_per_minute: u32,
    elevator_capacities: Seq<usize>,
    end_condition: EndCondition,
) -> bool {
    &&& c.floor_count == floor_count
    &&& c.elevator_count == elevator_count
    &&& c.spawn_rate_per_minute == spawn_rate_per_minute
    &&& c.elevator_capacities@ == elevator_capacities
    &&& c.end_condition == end_condition
}

fn capacities_of_one(a: usize) -> (v: Vec<usize>)
    ensures
        v@ == seq![a],
{
    let mut v: Vec<usize> = Vec::new();
    v.push(a);
    v
}

fn capacities_of_two(a: usize, b: usize) -> (v: Vec<usize>)
    ensures
        v@ == seq![a, b],
{
    let mut v: Vec<usize> = Vec::new();
    v.push(a);
    v.push(b);
    v
}

/// The sixteen challenges, in order.
pub fn all() -> (r: Vec<Challenge>)
    ensures
        r@.len() == 16,
        is_entry(r@[0], 3, 1, 18, seq![4], EndCondition::PassengersWithinTime { passengers: 15, time_limit: 60 }),
        is_entry(r@[1], 5, 1, 30, seq![6], EndCondition::PassengersWithinTime { passengers: 23, time_limit: 60 }),
        is_entry(r@[2], 8, 2, 36, seq![4], EndCondition::PassengersWithinTime { passengers: 26, time_limit: 60 }),
        is_entry(r@[3], 6, 4, 102, seq![4], EndCondition::PassengersWithinTime { passengers: 100, time_limit: 68 }),
        is_entry(r@[4], 6, 2, 24, seq![5], EndCondition::PassengersWithMaxWait { passengers: 50, max_wait: 21 }),
        is_entry(r@[5], 7, 3, 36, seq![4], EndCondition::PassengersWithMaxWait { passengers: 50, max_wait: 20 }),
        is_entry(r@[6], 13, 2, 66, seq![8, 10], EndCondition::PassengersWithinTime { passengers: 50, time_limit: 70 }),
        is_entry(r@[7], 9, 5, 66, seq![4], EndCondition::PassengersWithMaxWait { passengers: 60, max_wait: 19 }),
        is_entry(r@[8], 9, 5, 66, seq![4], EndCondition::PassengersWithMaxWait { passengers: 80, max_wait: 17 }),
        is_entry(r@[9], 9, 6, 66, seq![4], EndCondition::PassengersWithMaxWait { passengers: 100, max_wait: 16 }),
        is_entry(r@[10], 9, 6, 60, seq![5], EndCondition::PassengersWithMaxWait { passengers: 110, max_wait: 15 }),
        is_entry(r@[11], 8, 6, 54, seq![4], EndCondition::PassengersWithMaxWait { passengers: 120, max_wait: 15 }),
        is_entry(r@[12], 12, 4, 84, seq![5, 10], EndCondition::PassengersWithinTime { passengers: 70, time_limit: 80 }),
        is_entry(r@[13], 21, 5, 114, seq![10], EndCondition::PassengersWithinTime { passengers: 110, time_limit: 80 }),
        is_entry(r@[14], 21, 8, 90, seq![6, 8], EndCondition::PassengersWithinTimeMaxWait { passengers: 2675, time_limit: 1800, max_wait: 45 }),
        is_entry(r@[15], 21, 8, 90, seq![6, 8], EndCondition::Demo),
{
    let mut r: Vec<Challenge> = Vec::new();
    r.push(Challenge {
        floor_count: 3,
        elevator_count: 1,
        spawn_rate_per_minute: 18,
        elevator_capacities: capacities_of_one(4),
        end_condition: EndCondition::PassengersWithinTime { passengers: 15, time_limit: 60 },
    });
    r.push(Challenge {
        floor_count: 5,
        elevator_count: 1,
        spawn_rate_per_minute: 30,
        elevator_capacities: capacities_of_one(6),
        end_condition: EndCondition::PassengersWithinTime { passengers: 23, time_limit: 60 },
    });
    r.push(Challenge {
        floor_count: 8,
        elevator_count: 2,
        spawn_rate_per_minute: 36,
        elevator_capacities: capacities_of_one(4),
        end_condition: EndCondition::PassengersWithinTime { passengers: 26, time_limit: 60 },
    });
    r.push(Challenge {
        floor_count: 6,
        elevator_count: 4,
        spawn_rate_per_minute: 102,
        elevator_capacities: capacities_of_one(4),
        end_condition: EndCondition::PassengersWithinTime { passengers: 100, time_limit: 68 },
    });
    r.push(Challenge {
        floor_count: 6,
        elevator_count: 2,
        spawn_rate_per_minute: 24,
        elevator_capacities: capacities_of_one(5),
        end_condition: EndCondition::PassengersWithMaxWait { passengers: 50, max_wait: 21 },
    });
    r.push(Challenge {
        floor_count: 7,
        elevator_count: 3,
        spawn_rate_per_minute: 36,
        elevator_capacities: capacities_of_one(4),
        end_condition: EndCondition::PassengersWithMaxWait { passengers: 50, max_wait: 20 },
    });
    r.push(Challenge {
        floor_count: 13,
        elevator_count: 2,
        spawn_rate_per_minute: 66,
        elevator_capacities: capacities_of_two(8, 10),
        end_condition: EndCondition::PassengersWithinTime { passengers: 50, time_limit: 70 },
    });
    r.push(Challenge {
        floor_count: 9,
        elevator_count: 5,
        spawn_rate_per_minute: 66,
        elevator_capacities: capacities_of_one(4),
        end_condition: EndCondition::PassengersWithMaxWait { passengers: 60, max_wait: 19 },
    });
    r.push(Challenge {
        floor_count: 9,
        elevator_count: 5,
        spawn_rate_per_minute: 66,
        elevator_capacities: capacities_of_one(4),
        end_condition: EndCondition::PassengersWithMaxWait { passengers: 80, max_wait: 17 },
    });
    r.push(Challenge {
        floor_count: 9,
        elevator_count: 6,
        spawn_rate_per_minute: 66,
        elevator_capacities: capacities_of_one(4),
        end_condition: EndCondition::PassengersWithMaxWait { passengers: 100, max_wait: 16 },
    });
    r.push(Challenge {
        floor_count: 9,
        elevator_count: 6,
        spawn_rate_per_minute: 60,
        elevator_capacities: capacities_of_one(5),
        end_condition: EndCondition::PassengersWithMaxWait { passengers: 110, max_wait: 15 },
    });
    r.push(Challenge {
        floor_count: 8,
        elevator_count: 6,
        spawn_rate_per_minute: 54,
        elevator_capacities: capacities_of_one(4),
        end_condition: EndCondition::PassengersWithMaxWait { passengers: 120, max_wait: 15 },
    });
    r.push(Challenge {
        floor_count: 12,
        elevator_count: 4,
        spawn_rate_per_minute: 84,
        elevator_capacities: capacities_of_two(5, 10),
        end_condition: EndCondition::PassengersWithinTime { passengers: 70, time_limit: 80 },
    });
    r.push(Challenge {
        floor_count: 21,
        elevator_count: 5,
        spawn_rate_per_minute: 114,
        elevator_capacities: capacities_of_one(10),
        end_condition: EndCondition::PassengersWithinTime { passengers: 110, time_limit: 80 },
    });
    r.push(Challenge {
        floor_count: 21,
        elevator_count: 8,
        spawn_rate_per_minute: 90,
        elevator_capacities: capacities_of_two(6, 8),
        end_condition: EndCondition::PassengersWithinTimeMaxWait { passengers: 2675, time_limit: 1800, max_wait: 45 },
    });
    r.push(Challenge {
        floor_count: 21,
        elevator_count: 8,
        spawn_rate_per_minute: 90,
        elevator_capacities: capacities_of_two(6, 8),
        end_condition: EndCondition::Demo,
    });
    r
}

} // verus!
