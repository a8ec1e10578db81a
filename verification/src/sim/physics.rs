use vstd::prelude::*;
use crate::sim::random::Generator;

verus! {

/// Index of the first slot that holds passenger `id`, if any.
pub open spec fn first_slot_of(slots: Seq<Option<u64>>, id: u64) -> Option<int>
    decreases slots.len(),
{
    if slots.len() == 0 {
        None
    } else {
        match first_slot_of(slots.drop_last(), id) {
            Some(j) => Some(j),
            None => if slots.last() == Some(id) {
                Some(slots.len() - 1)
            } else {
                None
            },
        }
    }
}

pub proof fn lemma_first_slot_of(slots: Seq<Option<u64>>, id: u64)
    ensures
        match first_slot_of(slots, id) {
            Some(j) => 0 <= j < slots.len() && slots[j] == Some(id) && forall|k: int|
                0 <= k < j ==> slots[k] != Some(id),
            None => forall|k: int| 0 <= k < slots.len() ==> slots[k] != Some(id),
        },
    decreases slots.len(),
{
    if slots.len() > 0 {
        lemma_first_slot_of(slots.drop_last(), id);
        assert forall|k: int| 0 <= k < slots.len() - 1 implies slots.drop_last()[k] == slots[k] by {}
    }
}

/// The free slots, in increasing order.
pub open spec fn free_slots(slots: Seq<Option<u64>>) -> Seq<int>
    decreases slots.len(),
{
    if slots.len() == 0 {
        Seq::empty()
    } else if slots.last() is None {
        free_slots(slots.drop_last()).push(slots.len() - 1)
    } else {
        free_slots(slots.drop_last())
    }
}

pub proof fn lemma_free_slots(slots: Seq<Option<u64>>)
    ensures
        free_slots(slots).len() <= slots.len(),
        forall|k: int| 0 <= k < free_slots(slots).len() ==> 0 <= #[trigger] free_slots(slots)[k] < slots.len()
            && slots[free_slots(slots)[k]] is None,
        free_slots(slots).len() == 0 ==> forall|j: int| 0 <= j < slots.len() ==> #[trigger] slots[j] is Some,
    decreases slots.len(),
{
    if slots.len() > 0 {
        lemma_free_slots(slots.drop_last());
        let t = slots.drop_last();
        assert forall|j: int| 0 <= j < t.len() implies t[j] == slots[j] by {}
    }
}

/// Seating someone in a free slot leaves one free slot fewer.
pub proof fn lemma_free_slots_fill(slots: Seq<Option<u64>>, s: int, v: Option<u64>)
    requires
        0 <= s < slots.len(),
        slots[s] is None,
        v is Some,
    ensures
        free_slots(slots.update(s, v)).len() + 1 == free_slots(slots).len(),
    decreases slots.len(),
{
    let t = slots.update(s, v);
    if s == slots.len() - 1 {
        assert(t.drop_last() =~= slots.drop_last());
    } else {
        assert(t.drop_last() =~= slots.drop_last().update(s, v));
        lemma_free_slots_fill(slots.drop_last(), s, v);
    }
}

/// The floor a request for `floor` is held to: the nearest floor of the
/// building.
pub open spec fn clamp_floor(floor: int, max_floor: int) -> int {
    if floor < 0 {
        0
    } else if floor > max_floor - 1 {
        max_floor - 1
    } else {
        floor
    }
}

/// The discrete state of one car: where it is headed, how often it was sent
/// somewhere new, its lit buttons, who sits in which slot, and its direction
/// indicators. Its motion (position, speed, door pause) is kept by the
/// driver of the simulation.
#[derive(Debug)]
pub struct SimElevator {
    pub index: usize,
    pub max_floor: i32,
    pub destination: i32,
    pub moves: u32,
    pub buttons: Vec<bool>,
    /// Passenger slots. Each slot is `None` or the passenger's id.
    pub slots: Vec<Option<u64>>,
    pub going_up_indicator: bool,
    pub going_down_indicator: bool,
}

impl SimElevator {
    /// A car on the ground floor of a building of `floor_count` floors, with
    /// `capacity` empty slots, no button lit and both indicators on.
    pub fn new(index: usize, floor_count: i32, capacity: usize) -> (e: SimElevator)
        requires
            floor_count >= 0,
        ensures
            e.index == index,
            e.max_floor == floor_count,
            e.destination == 0,
            e.moves == 0,
            e.buttons@ == Seq::new(floor_count as nat, |i: int| false),
            e.slots@ == Seq::new(capacity as nat, |i: int| None::<u64>),
            e.going_up_indicator,
            e.going_down_indicator,
    {
        let mut buttons: Vec<bool> = Vec::new();
        let mut i: i32 = 0;
        while i < floor_count
            invariant
                0 <= i <= floor_count,
                buttons@ == Seq::new(i as nat, |k: int| false),
            decreases floor_count - i,
        {
            buttons.push(false);
            i = i + 1;
        }
        let mut slots: Vec<Option<u64>> = Vec::new();
        let mut j: usize = 0;
        while j < capacity
            invariant
                0 <= j <= capacity,
                slots@ == Seq::new(j as nat, |k: int| None::<u64>),
            decreases capacity - j,
        {
            slots.push(None);
            j = j + 1;
        }
        SimElevator {
            index,
            max_floor: floor_count,
            destination: 0,
            moves: 0,
            buttons,
            slots,
            going_up_indicator: true,
            going_down_indicator: true,
        }
    }

    pub fn capacity(&self) -> (r: usize)
        ensures
            r == self.slots@.len(),
    {
        self.slots.len()
    }

    /// Whether every slot is taken.
    pub fn is_full(&self) -> (r: bool)
        ensures
            r == (forall|j: int| 0 <= j < self.slots@.len() ==> #[trigger] self.slots@[j] is Some),
    {
        let n = self.slots.len();
        let mut j: usize = 0;
        while j < n
            invariant
                0 <= j <= n,
                n == self.slots@.len(),
                forall|k: int| 0 <= k < j ==> #[trigger] self.slots@[k] is Some,
            decreases n - j,
        {
            if self.slots[j].is_none() {
                return false;
            }
            j = j + 1;
        }
        true
    }

    /// Sends the car to `floor`, held to the floors of the building. A new
    /// destination counts as one move; asking for the current one does not.
    pub fn go_to_floor(&mut self, floor: i32)
        requires
            old(self).max_floor >= 1,
            old(self).destination != clamp_floor(floor as int, old(self).max_floor as int) ==> old(
                self,
            ).moves < u32::MAX,
        ensures
            final(self).destination == clamp_floor(floor as int, old(self).max_floor as int),
            final(self).moves == old(self).moves + if old(self).destination == clamp_floor(
                floor as int,
                old(self).max_floor as int,
            ) {
                0int
            } else {
                1int
            },
            final(self).index == old(self).index,
            final(self).max_floor == old(self).max_floor,
            final(self).buttons@ == old(self).buttons@,
            final(self).slots@ == old(self).slots@,
            final(self).going_up_indicator == old(self).going_up_indicator,
            final(self).going_down_indicator == old(self).going_down_indicator,
    {
        let clamped = if floor < 0 {
            0
        } else if floor > self.max_floor - 1 {
            self.max_floor - 1
        } else {
            floor
        };
        if self.destination != clamped {
            self.destination = clamped;
            self.moves = self.moves + 1;
        }
    }

    /// The car has come to rest at its destination: that floor's button
    /// goes out.
    pub fn arrive(&mut self)
        ensures
            final(self).buttons@ == if 0 <= old(self).destination < old(self).buttons@.len() {
                old(self).buttons@.update(old(self).destination as int, false)
            } else {
                old(self).buttons@
            },
            final(self).index == old(self).index,
            final(self).max_floor == old(self).max_floor,
            final(self).destination == old(self).destination,
            final(self).moves == old(self).moves,
            final(self).slots@ == old(self).slots@,
            final(self).going_up_indicator == old(self).going_up_indicator,
            final(self).going_down_indicator == old(self).going_down_indicator,
    {
        let floor = self.destination;
        if 0 <= floor && (floor as usize) < self.buttons.len() {
            self.buttons.set(floor as usize, false);
        }
    }

    /// Seats passenger `passenger_id` in a free slot picked at random: the
    /// free slots are taken in increasing order, and the one at the index
    /// drawn (below their number) is used. It also lights the button of
    /// `destination_floor` (when that is a floor of the building). Returns the slot, or `None`, changing nothing and
    /// drawing nothing, when every slot is taken.
    pub fn add_passenger(&mut self, passenger_id: u64, destination_floor: i32, rng: &mut Generator) -> (r: Option<usize>)
        requires
            old(self).max_floor <= old(self).buttons@.len(),
        ensures
            final(self).index == old(self).index,
            final(self).max_floor == old(self).max_floor,
            final(self).destination == old(self).destination,
            final(self).moves == old(self).moves,
            final(self).going_up_indicator == old(self).going_up_indicator,
            final(self).going_down_indicator == old(self).going_down_indicator,
            final(rng).seed_of() == old(rng).seed_of(),
            match r {
                None => {
                    &&& forall|j: int| 0 <= j < old(self).slots@.len() ==> #[trigger] old(self).slots@[j] is Some
                    &&& final(self).slots@ == old(self).slots@
                    &&& final(self).buttons@ == old(self).buttons@
                    &&& final(rng).asked_of() == old(rng).asked_of()
                    &&& final(rng).drawn_of() == old(rng).drawn_of()
                },
                Some(s) => {
                    &&& final(rng).asked_of() == old(rng).asked_of().push(
                        (0int, free_slots(old(self).slots@).len() - 1),
                    )
                    &&& final(rng).drawn_of().len() == old(rng).drawn_of().len() + 1
                    &&& final(rng).drawn_of().drop_last() == old(rng).drawn_of()
                    &&& 0 <= final(rng).drawn_of().last() < free_slots(old(self).slots@).len()
                    &&& s as int == free_slots(old(self).slots@)[final(rng).drawn_of().last()]
                    &&& s < old(self).slots@.len()
                    &&& old(self).slots@[s as int] is None
                    &&& final(self).slots@ == old(self).slots@.update(s as int, Some(passenger_id))
                    &&& final(self).buttons@ == if 0 <= destination_floor < old(self).max_floor {
                        old(self).buttons@.update(destination_floor as int, true)
                    } else {
                        old(self).buttons@
                    }
                },
            },
    {
        let n = self.slots.len();
        let mut free: Vec<usize> = Vec::new();
        let mut j: usize = 0;
        while j < n
            invariant
                0 <= j <= n,
                n == self.slots@.len(),
                free@.len() == free_slots(self.slots@.take(j as int)).len(),
                forall|k: int| 0 <= k < free@.len() ==> #[trigger] free@[k] as int == free_slots(self.slots@.take(j as int))[k],
            decreases n - j,
        {
            proof {
                assert(self.slots@.take(j + 1).drop_last() =~= self.slots@.take(j as int));
                assert(self.slots@.take(j + 1).last() == self.slots@[j as int]);
            }
            if self.slots[j].is_none() {
                free.push(j);
            }
            j = j + 1;
        }
        proof {
            assert(self.slots@.take(n as int) =~= self.slots@);
            lemma_free_slots(self.slots@);
        }
        if free.len() == 0 {
            return None;
        }
        let pick = rng.draw_index(free.len());
        proof {
            assert(free_slots(old(self).slots@)[pick as int] == free@[pick as int] as int);
            assert(rng.drawn_of().drop_last() =~= old(rng).drawn_of());
        }
        let slot = free[pick];
        self.slots.set(slot, Some(passenger_id));
        if 0 <= destination_floor && destination_floor < self.max_floor {
            self.buttons.set(destination_floor as usize, true);
        }
        Some(slot)
    }

    /// Frees the first slot that holds passenger `passenger_id`. Returns
    /// whether there was one.
    pub fn remove_passenger(&mut self, passenger_id: u64) -> (r: bool)
        ensures
            r == first_slot_of(old(self).slots@, passenger_id) is Some,
            final(self).slots@ == match first_slot_of(old(self).slots@, passenger_id) {
                Some(j) => old(self).slots@.update(j, None),
                None => old(self).slots@,
            },
            final(self).index == old(self).index,
            final(self).max_floor == old(self).max_floor,
            final(self).destination == old(self).destination,
            final(self).moves == old(self).moves,
            final(self).buttons@ == old(self).buttons@,
            final(self).going_up_indicator == old(self).going_up_indicator,
            final(self).going_down_indicator == old(self).going_down_indicator,
    {
        proof {
            lemma_first_slot_of(self.slots@, passenger_id);
        }
        let n = self.slots.len();
        let mut j: usize = 0;
        while j < n
            invariant
                0 <= j <= n,
                n == self.slots@.len(),
                *self == *old(self),
                forall|k: int| 0 <= k < j ==> self.slots@[k] != Some(passenger_id),
            decreases n - j,
        {
            if self.slots[j] == Some(passenger_id) {
                proof {
                    lemma_first_slot_of(self.slots@, passenger_id);
                    assert(first_slot_of(self.slots@, passenger_id) == Some(j as int));
                }
                self.slots.set(j, None);
                return true;
            }
            j = j + 1;
        }
        false
    }
}

} // verus!
