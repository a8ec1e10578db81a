use vstd::prelude::*;

verus! {

/// What an algorithm sees of one elevator at one moment, and the commands it
/// gives that elevator.
///
/// How full the car is stands as the weight on board (`load`) out of the
/// weight it takes (`max_load`); the fraction `load / max_load` is the
/// elevator's "percent full".
#[derive(Debug)]
pub struct Elevator {
    id: u32,
    current_floor: i32,
    destination_floor: Option<i32>,
    load: u64,
    max_load: u64,
    pressed_buttons: Vec<i32>,
    commands: Vec<(u32, i32)>,
}

/// The mathematical value of an [`Elevator`].
pub struct ElevatorView {
    pub id: u32,
    pub current_floor: i32,
    pub destination_floor: Option<i32>,
    pub load: u64,
    pub max_load: u64,
    pub pressed_buttons: Seq<i32>,
    pub commands: Seq<(u32, i32)>,
}

impl View for Elevator {
    type V = ElevatorView;

    closed spec fn view(&self) -> ElevatorView {
        ElevatorView {
            id: self.id,
            current_floor: self.current_floor,
            destination_floor: self.destination_floor,
            load: self.load,
            max_load: self.max_load,
            pressed_buttons: self.pressed_buttons@,
            commands: self.commands@,
        }
    }
}

impl Elevator {
    /// A snapshot of an elevator with no command given yet.
    pub fn new(
        id: u32,
        current_floor: i32,
        destination_floor: Option<i32>,
        load: u64,
        max_load: u64,
        pressed_buttons: Vec<i32>,
    ) -> (e: Elevator)
        ensures
            e@ == (ElevatorView {
                id,
                current_floor,
                destination_floor,
                load,
                max_load,
                pressed_buttons: pressed_buttons@,
                commands: Seq::empty(),
            }),
    {
        Elevator {
            id,
            current_floor,
            destination_floor,
            load,
            max_load,
            pressed_buttons,
            commands: Vec::new(),
        }
    }

    pub fn id(&self) -> (r: u32)
        ensures
            r == self@.id,
    {
        self.id
    }

    pub fn current_floor(&self) -> (r: i32)
        ensures
            r == self@.current_floor,
    {
        self.current_floor
    }

    /// The floor the elevator is travelling to, or `None` while it stands.
    pub fn destination_floor(&self) -> (r: Option<i32>)
        ensures
            r == self@.destination_floor,
    {
        self.destination_floor
    }

    /// Total weight of the passengers on board.
    pub fn load(&self) -> (r: u64)
        ensures
            r == self@.load,
    {
        self.load
    }

    /// Weight the car takes when full.
    pub fn max_load(&self) -> (r: u64)
        ensures
            r == self@.max_load,
    {
        self.max_load
    }

    /// The floors whose buttons are lit inside the car.
    pub fn pressed_buttons(&self) -> (r: &Vec<i32>)
        ensures
            r@ == self@.pressed_buttons,
    {
        &self.pressed_buttons
    }

    /// The commands given so far, oldest first.
    pub fn commands(&self) -> (r: &Vec<(u32, i32)>)
        ensures
            r@ == self@.commands,
    {
        &self.commands
    }

    /// Orders the elevator to `floor`: the command `(id, floor)` is queued.
    pub fn go_to_floor(&mut self, floor: i32)
        ensures
            final(self)@ == (ElevatorView {
                commands: old(self)@.commands.push((old(self)@.id, floor)),
                ..old(self)@
            }),
    {
        let id = self.id;
        self.commands.push((id, floor));
    }

    /// Hands out the queued commands, oldest first, and forgets them.
    pub fn take_commands(&mut self) -> (cmds: Vec<(u32, i32)>)
        ensures
            cmds@ == old(self)@.commands,
            final(self)@ == (ElevatorView { commands: Seq::empty(), ..old(self)@ }),
    {
        let mut cmds: Vec<(u32, i32)> = Vec::new();
        std::mem::swap(&mut cmds, &mut self.commands);
        cmds
    }
}

/// What an algorithm sees of one floor: its number and its call buttons.
#[derive(Debug)]
pub struct Floor {
    level: i32,
    up: bool,
    down: bool,
}

impl Floor {
    pub fn new(level: i32, up: bool, down: bool) -> (f: Floor)
        ensures
            f.spec_level() == level,
            f.spec_up() == up,
            f.spec_down() == down,
    {
        Floor { level, up, down }
    }

    pub closed spec fn spec_level(&self) -> i32 {
        self.level
    }

    pub closed spec fn spec_up(&self) -> bool {
        self.up
    }

    pub closed spec fn spec_down(&self) -> bool {
        self.down
    }

    pub fn level(&self) -> (r: i32)
        ensures
            r == self.spec_level(),
    {
        self.level
    }

    /// Whether someone on this floor has called a car to go up.
    pub fn up_pressed(&self) -> (r: bool)
        ensures
            r == self.spec_up(),
    {
        self.up
    }

    /// Whether someone on this floor has called a car to go down.
    pub fn down_pressed(&self) -> (r: bool)
        ensures
            r == self.spec_down(),
    {
        self.down
    }
}

} // verus!
