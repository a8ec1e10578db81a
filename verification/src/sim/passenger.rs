use vstd::prelude::*;

verus! {

#[derive(Debug, Clone, Copy, PartialEq, Eq, Structural)]
pub enum PassengerState {
    Waiting,
    Riding,
    Exited,
}

/// A passenger of the simulation. When it rides, `elevator_index` and `slot`
/// say where.
#[derive(Debug, Clone, Copy)]
pub struct SimPassenger {
    pub id: u64,
    pub weight: i32,
    pub starting_floor: i32,
    pub destination_floor: i32,
    pub state: PassengerState,
    pub elevator_index: Option<usize>,
    pub slot: Option<usize>,
}

impl SimPassenger {
    pub fn should_exit_at(&self, floor: i32) -> (r: bool)
        ensures
            r == (floor == self.destination_floor),
    {
        floor == self.destination_floor
    }
}

} // verus!
