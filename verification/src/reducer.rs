//! The elevator algorithm: a reducer that reads the elevators and floors,
//! updates its own state and gives `go_to_floor` commands.
use vstd::prelude::*;
use crate::game::{Elevator, ElevatorView, Floor};
use vstd::arithmetic::div_mod::{lemma_fundamental_div_mod, lemma_fundamental_div_mod_converse};

verus! {

/// The algorithm's state between two ticks.
#[derive(Debug)]
pub enum State {
    /// Naive baseline: every elevator that stands idle is sent to the floor
    /// after the last one handed out, wrapping round to the ground floor.
    Rotating { next_floor: i32 },
}

impl Default for State {
    fn default() -> (s: State)
        ensures
            s == (State::Rotating { next_floor: 1 }),
    {
        State::Rotating { next_floor: 1 }
    }
}

/// One step of the rotation: past the top (`floor_count` or above) it wraps
/// to the ground floor, otherwise it moves up by one.
pub open spec fn rotate(next: int, floor_count: int) -> int {
    if next >= floor_count {
        0
    } else {
        next + 1
    }
}

/// `k` steps of the rotation from `next`.
pub open spec fn rotated(next: int, floor_count: int, k: nat) -> int
    decreases k,
{
    if k == 0 {
        next
    } else {
        rotate(rotated(next, floor_count, (k - 1) as nat), floor_count)
    }
}

/// How many of the first `i` elevators stand without a destination.
pub open spec fn idle_count(es: Seq<ElevatorView>, i: int) -> nat
    decreases i,
{
    if i <= 0 {
        0
    } else {
        idle_count(es, i - 1) + if es[i - 1].destination_floor is None {
            1nat
        } else {
            0nat
        }
    }
}

/// What one tick makes of elevator `i` when the rotation stood at `next`.
pub open spec fn dispatched(es: Seq<ElevatorView>, i: int, next: int, floor_count: int) -> ElevatorView {
    if es[i].destination_floor is None {
        ElevatorView {
            commands: es[i].commands.push(
                (es[i].id, rotated(next, floor_count, idle_count(es, i) + 1) as i32),
            ),
            ..es[i]
        }
    } else {
        es[i]
    }
}

pub open spec fn next_floor_of(s: State) -> int {
    match s {
        State::Rotating { next_floor } => next_floor as int,
    }
}

pub open spec fn views(es: Seq<Elevator>) -> Seq<ElevatorView> {
    es.map_values(|e: Elevator| e@)
}

/// Rotation from `next` never leaves the range from `next` (or the ground
/// floor, whichever is lower) to `floor_count`.
proof fn lemma_rotated_in_i32(next: i32, floor_count: int, k: nat)
    requires
        0 <= floor_count <= i32::MAX,
    ensures
        i32::MIN <= rotated(next as int, floor_count, k) <= i32::MAX,
        k >= 1 ==> rotated(next as int, floor_count, k) <= floor_count,
        rotated(next as int, floor_count, k) >= next || 0 <= rotated(next as int, floor_count, k),
    decreases k,
{
    if k > 0 {
        lemma_rotated_in_i32(next, floor_count, (k - 1) as nat);
    }
}

proof fn lemma_idle_count_step(es: Seq<ElevatorView>, i: int)
    requires
        0 <= i,
    ensures
        idle_count(es, i + 1) == idle_count(es, i) + if es[i].destination_floor is None {
            1nat
        } else {
            0nat
        },
{
}

proof fn lemma_mod_succ(x: int, m: int)
    requires
        m > 0,
    ensures
        (x + 1) % m == if x % m == m - 1 {
            0
        } else {
            x % m + 1
        },
{
    lemma_fundamental_div_mod(x, m);
    let q = x / m;
    let r = x % m;
    if r == m - 1 {
        assert(x + 1 == (q + 1) * m + 0) by (nonlinear_arith)
            requires
                x == m * q + r,
                r == m - 1,
        ;
        lemma_fundamental_div_mod_converse(x + 1, m, q + 1, 0);
    } else {
        assert(x + 1 == q * m + (r + 1)) by (nonlinear_arith)
            requires
                x == m * q + r,
        ;
        lemma_fundamental_div_mod_converse(x + 1, m, q, r + 1);
    }
}

/// Started from a floor between the ground floor and `floor_count`, the
/// rotation runs through `0, 1, ..., floor_count` in a cycle: after `k`
/// steps it stands at `(next + k) mod (floor_count + 1)`.
pub proof fn rotation_cycles(next: int, floor_count: int, k: nat)
    requires
        0 <= next <= floor_count,
    ensures
        rotated(next, floor_count, k) == (next + k) % (floor_count + 1),
    decreases k,
{
    if k == 0 {
        lemma_fundamental_div_mod_converse(next, floor_count + 1, 0, next);
    } else {
        rotation_cycles(next, floor_count, (k - 1) as nat);
        lemma_mod_succ(next + k - 1, floor_count + 1);
    }
}

/// Started from a floor between the ground floor and `floor_count`, the
/// rotation never leaves that range: every floor a tick commands, and the
/// state it leaves, lie between the ground floor and `floor_count`.
pub proof fn rotation_stays_in_range(next: int, floor_count: int, k: nat)
    requires
        0 <= next <= floor_count,
    ensures
        0 <= rotated(next, floor_count, k) <= floor_count,
{
    rotation_cycles(next, floor_count, k);
    lemma_fundamental_div_mod(next + k, floor_count + 1);
    assert(0 <= (next + k) % (floor_count + 1) < floor_count + 1);
}

/// Started from a floor between the ground floor and `floor_count`, any
/// `floor_count + 1` consecutive steps of the rotation visit every floor from
/// the ground floor to `floor_count`. The floors one `tick` commands are
/// consecutive steps of the rotation, and the next `tick` goes on where it
/// stopped (see `repeated_ticks_command_every_floor`).
pub proof fn rotation_visits_every_floor(next: int, floor_count: int, j: nat, f: int)
    requires
        0 <= next <= floor_count,
        0 <= f <= floor_count,
    ensures
        exists|k: nat| j < k <= j + floor_count + 1 && #[trigger] rotated(next, floor_count, k) == f,
{
    let m = floor_count + 1;
    lemma_fundamental_div_mod(next + j, m);
    let q = (next + j) / m;
    let c = (next + j) % m;
    let d = if f > c {
        f - c
    } else {
        f - c + m
    };
    let k = (j + d) as nat;
    assert(next + k == q * m + c + d) by (nonlinear_arith)
        requires
            next + j == m * q + c,
            k == j + d,
    ;
    if f > c {
        lemma_fundamental_div_mod_converse(next + k, m, q, f);
    } else {
        assert(next + k == (q + 1) * m + f) by (nonlinear_arith)
            requires
                next + k == q * m + c + d,
                d == f - c + m,
        ;
        lemma_fundamental_div_mod_converse(next + k, m, q + 1, f);
    }
    rotation_cycles(next, floor_count, k);
    assert(rotated(next, floor_count, k) == f);
}

/// Where the rotation stands after the first `i` of a run of ticks, started
/// at `start`, where the `t`-th tick found the elevators `calls[t]`: each
/// tick advances it once per idle elevator.
pub open spec fn next_after_ticks(calls: Seq<Seq<ElevatorView>>, start: int, floor_count: int, i: int) -> int
    decreases i,
{
    if i <= 0 {
        start
    } else {
        rotated(
            next_after_ticks(calls, start, floor_count, i - 1),
            floor_count,
            idle_count(calls[i - 1], calls[i - 1].len() as int),
        )
    }
}

/// How many idle elevators the first `i` ticks of the run found in all.
spec fn idle_total(calls: Seq<Seq<ElevatorView>>, i: int) -> nat
    decreases i,
{
    if i <= 0 {
        0
    } else {
        idle_total(calls, i - 1) + idle_count(calls[i - 1], calls[i - 1].len() as int)
    }
}

proof fn lemma_rotated_add(next: int, floor_count: int, a: nat, b: nat)
    ensures
        rotated(rotated(next, floor_count, a), floor_count, b) == rotated(next, floor_count, a + b),
    decreases b,
{
    if b > 0 {
        lemma_rotated_add(next, floor_count, a, (b - 1) as nat);
    }
}

proof fn lemma_next_after_ticks(calls: Seq<Seq<ElevatorView>>, start: int, floor_count: int, i: int)
    requires
        0 <= i,
    ensures
        next_after_ticks(calls, start, floor_count, i) == rotated(start, floor_count, idle_total(calls, i)),
    decreases i,
{
    if i > 0 {
        lemma_next_after_ticks(calls, start, floor_count, i - 1);
        lemma_rotated_add(
            start,
            floor_count,
            idle_total(calls, i - 1),
            idle_count(calls[i - 1], calls[i - 1].len() as int),
        );
    }
}

proof fn lemma_idle_total_grows(calls: Seq<Seq<ElevatorView>>, w: int, len: int)
    requires
        0 <= w,
        0 <= len,
        forall|t: int| w <= t < w + len ==> idle_count(#[trigger] calls[t], calls[t].len() as int) >= 1,
    ensures
        idle_total(calls, w + len) >= idle_total(calls, w) + len,
    decreases len,
{
    if len > 0 {
        lemma_idle_total_grows(calls, w, len - 1);
        assert(idle_count(calls[w + len - 1], calls[w + len - 1].len() as int) >= 1);
    }
}

proof fn lemma_find_tick(calls: Seq<Seq<ElevatorView>>, w: int, len: int, k: int)
    requires
        0 <= w,
        0 <= len,
        idle_total(calls, w) < k <= idle_total(calls, w + len),
    ensures
        exists|i: int| w <= i < w + len && idle_total(calls, i) < k <= #[trigger] idle_total(calls, i + 1),
    decreases len,
{
    let i = w + len - 1;
    if k <= idle_total(calls, i) {
        lemma_find_tick(calls, w, len - 1, k);
    } else {
        assert(idle_total(calls, i) < k <= idle_total(calls, i + 1));
    }
}

proof fn lemma_find_idle(es: Seq<ElevatorView>, n: int, r: int)
    requires
        0 <= n <= es.len(),
        0 <= r < idle_count(es, n),
    ensures
        exists|j: int|
            0 <= j < n && es[j].destination_floor is None && #[trigger] idle_count(es, j) == r,
    decreases n,
{
    if r < idle_count(es, n - 1) {
        lemma_find_idle(es, n - 1, r);
    } else {
        assert(es[n - 1].destination_floor is None && idle_count(es, n - 1) == r);
    }
}

/// Any `floor_count + 1` consecutive ticks of a run command every floor
/// from the ground floor to `floor_count`, as long as each of them finds an
/// idle elevator: the run starts with the rotation at `start`, the `t`-th
/// tick finds the elevators `calls[t]` (and leaves the rotation where
/// `tick` says), and the window is the ticks from `w` on. Some elevator `j`,
/// idle at some tick `i` of the window, is sent to `f` there.
pub proof fn repeated_ticks_command_every_floor(
    calls: Seq<Seq<ElevatorView>>,
    start: int,
    floor_count: int,
    w: int,
    f: int,
)
    requires
        0 <= start <= floor_count,
        0 <= w,
        w + floor_count + 1 <= calls.len(),
        forall|t: int|
            w <= t < w + floor_count + 1 ==> idle_count(#[trigger] calls[t], calls[t].len() as int) >= 1,
        0 <= f <= floor_count,
    ensures
        exists|i: int, j: int|
            w <= i < w + floor_count + 1 && 0 <= j < calls[i].len() && calls[i][j].destination_floor is None
                && #[trigger] dispatched(calls[i], j, next_after_ticks(calls, start, floor_count, i), floor_count)
                == (ElevatorView {
                commands: calls[i][j].commands.push((calls[i][j].id, f as i32)),
                ..calls[i][j]
            }),
{
    let tw = idle_total(calls, w);
    rotation_visits_every_floor(start, floor_count, tw, f);
    let k = choose|k: nat| tw < k <= tw + floor_count + 1 && #[trigger] rotated(start, floor_count, k) == f;
    lemma_idle_total_grows(calls, w, floor_count + 1);
    lemma_find_tick(calls, w, floor_count + 1, k as int);
    let i = choose|i: int| w <= i < w + floor_count + 1 && idle_total(calls, i) < k <= #[trigger] idle_total(calls, i + 1);
    let es = calls[i];
    let ti = idle_total(calls, i);
    assert(idle_total(calls, i + 1) == ti + idle_count(es, es.len() as int));
    lemma_find_idle(es, es.len() as int, k - ti - 1);
    let j = choose|j: int| 0 <= j < es.len() && es[j].destination_floor is None && #[trigger] idle_count(es, j) == k - ti - 1;
    lemma_next_after_ticks(calls, start, floor_count, i);
    lemma_rotated_add(start, floor_count, ti, idle_count(es, j) + 1);
    assert(rotated(next_after_ticks(calls, start, floor_count, i), floor_count, idle_count(es, j) + 1) == f);
    assert(dispatched(calls[i], j, next_after_ticks(calls, start, floor_count, i), floor_count)
        == (ElevatorView {
        commands: calls[i][j].commands.push((calls[i][j].id, f as i32)),
        ..calls[i][j]
    }));
}

/// One tick of the algorithm.
///
/// With no floors nothing happens. Otherwise the elevators are visited in
/// order; each that has no destination is sent to the next floor of the
/// rotation, and the rotation advances once per such elevator.
pub fn tick(state: &mut State, elevators: &mut [Elevator], floors: &[Floor])
    requires
        floors@.len() <= i32::MAX,
    ensures
        floors@.len() == 0 ==> *final(state) == *old(state) && views(final(elevators)@) == views(
            old(elevators)@,
        ),
        floors@.len() > 0 ==> {
            &&& final(elevators)@.len() == old(elevators)@.len()
            &&& forall|i: int|
                0 <= i < old(elevators)@.len() ==> #[trigger] final(elevators)@[i]@ == dispatched(
                    views(old(elevators)@),
                    i,
                    next_floor_of(*old(state)),
                    floors@.len() as int,
                )
            &&& next_floor_of(*final(state)) == rotated(
                next_floor_of(*old(state)),
                floors@.len() as int,
                idle_count(views(old(elevators)@), old(elevators)@.len() as int),
            )
        },
{
    let floor_count = floors.len() as i32;
    if floor_count == 0 {
        proof {
            assert(views(elevators@) =~= views(old(elevators)@));
        }
        return;
    }
    let State::Rotating { next_floor: start } = *state;
    let mut next: i32 = start;
    let ghost es0 = views(elevators@);
    let n = elevators.len();
    let mut i: usize = 0;
    while i < n
        invariant
            0 <= i <= n,
            n == elevators@.len(),
            floor_count as int == floors@.len(),
            0 < floor_count,
            es0 == views(old(elevators)@),
            es0.len() == n,
            next as int == rotated(start as int, floor_count as int, idle_count(es0, i as int)),
            forall|j: int| 0 <= j < i ==> #[trigger] elevators@[j]@ == dispatched(es0, j, start as int, floor_count as int),
            forall|j: int| i <= j < n ==> #[trigger] elevators@[j]@ == es0[j],
        decreases n - i,
    {
        proof {
            lemma_idle_count_step(es0, i as int);
            lemma_rotated_in_i32(start, floor_count as int, idle_count(es0, i as int));
        }
        if elevators[i].destination_floor().is_none() {
            if next >= floor_count {
                next = 0;
            } else {
                next = next + 1;
            }
            elevators[i].go_to_floor(next);
        }
        i = i + 1;
    }
    *state = State::Rotating { next_floor: next };
}

} // verus!
