//! Sensor data, actions, and what each host import answers.

use vstd::prelude::*;
use crate::types::{Position, TileType};

verus! {

/// Sensor data that the organism can read.
#[derive(Debug, Clone, Copy, PartialEq, Eq, Structural)]
pub struct SensorData {
    pub energy: i32,
    pub age: u64,
    pub position: Position,
}

impl SensorData {
    /// The sensors of a newly instantiated organism: its energy and
    /// position, age zero.
    pub fn new(initial_energy: i32, position: Position) -> (r: SensorData)
        ensures
            r == (SensorData { energy: initial_energy, age: 0, position }),
    {
        SensorData { energy: initial_energy, age: 0, position }
    }
}

/// Actions that an organism can take.
#[derive(Debug, Clone, Copy, PartialEq, Eq, Structural)]
pub enum Action {
    /// Nothing to do.
    Idle,
    Move { dx: i32, dy: i32 },
    Eat,
    Attack { target_slot: i32, amount: i32 },
    Reproduce,
    EmitSignal { channel: i32, value: i32 },
}

/// A call of one of the host imports, with its arguments.
#[derive(Debug, Clone, Copy, PartialEq, Eq, Structural)]
pub enum HostCall {
    /// `env_read(x, y)`: the kind of tile at a position.
    EnvRead { x: i32, y: i32 },
    /// `get_energy()`.
    GetEnergy,
    /// `get_age()`.
    GetAge,
    /// `move_dir(dx, dy)`.
    MoveDir { dx: i32, dy: i32 },
    /// `eat()`.
    Eat,
    /// `attack(slot, amount)`.
    Attack { slot: i32, amount: i32 },
    /// `sense_neighbor(slot)`.
    SenseNeighbor { slot: i32 },
    /// `try_reproduce()`.
    TryReproduce,
    /// `emit_signal(channel, value)`.
    EmitSignal { channel: i32, value: i32 },
}

/// The code `env_read` answers for a kind of tile.
pub open spec fn spec_tile_code(t: TileType) -> i32 {
    match t {
        TileType::Empty => 0,
        TileType::Resource => 1,
        TileType::Obstacle => 2,
        TileType::Hazard => 3,
    }
}

/// The code `env_read` answers for a kind of tile: 0 empty, 1 resource,
/// 2 obstacle, 3 hazard.
pub fn tile_code(t: TileType) -> (r: i32)
    ensures
        r == spec_tile_code(t),
{
    match t {
        TileType::Empty => 0,
        TileType::Resource => 1,
        TileType::Obstacle => 2,
        TileType::Hazard => 3,
    }
}

/// The code of the tile at `(x, y)` of a world of the given dimensions
/// whose tile kinds are listed row by row, after wrapping onto the torus.
pub fn tile_code_at(width: i32, height: i32, kinds: &Vec<TileType>, x: i32, y: i32) -> (r: i32)
    requires
        width > 0,
        height > 0,
        kinds@.len() == width * height,
        width * height <= i32::MAX,
        (Position { x, y }).wrap_ok(width as int, height as int),
    ensures
        ({
            let q = (Position { x, y }).spec_wrap(width as int, height as int);
            r == spec_tile_code(kinds@[q.y * width + q.x])
        }),
{
    let q = Position::new(x, y).wrap(width, height);
    proof {
        crate::world::grid::lemma_cell_index_bound(q.x as int, q.y as int, width as int, height as int);
    }
    let index = q.y * width + q.x;
    tile_code(kinds[index as usize])
}

/// What a host call answers and which action it queues. `env_code` is the
/// code of the tile that `env_read` asks about (the caller looks it up);
/// the other calls read the sensors or answer a constant: the movement,
/// eating, attack and reproduction requests answer 1 (queued), a neighbour
/// probe answers 0, and `emit_signal` answers nothing (0 here).
pub open spec fn spec_host_response(call: HostCall, sensors: SensorData, env_code: i32) -> (Option<Action>, i32) {
    match call {
        HostCall::EnvRead { .. } => (None, env_code),
        HostCall::GetEnergy => (None, sensors.energy),
        HostCall::GetAge => (None, sensors.age as i32),
        HostCall::MoveDir { dx, dy } => (Some(Action::Move { dx, dy }), 1),
        HostCall::Eat => (Some(Action::Eat), 1),
        HostCall::Attack { slot, amount } => (Some(Action::Attack { target_slot: slot, amount }), 1),
        HostCall::SenseNeighbor { .. } => (None, 0),
        HostCall::TryReproduce => (Some(Action::Reproduce), 1),
        HostCall::EmitSignal { channel, value } => (Some(Action::EmitSignal { channel, value }), 0),
    }
}

/// Answer a host call: the value returned to the organism and the action
/// queued, if any.
pub fn host_response(call: HostCall, sensors: &SensorData, env_code: i32) -> (r: (Option<Action>, i32))
    ensures
        r == spec_host_response(call, *sensors, env_code),
{
    match call {
        HostCall::EnvRead { .. } => (None, env_code),
        HostCall::GetEnergy => (None, sensors.energy),
        HostCall::GetAge => (None, sensors.age as i32),
        HostCall::MoveDir { dx, dy } => (Some(Action::Move { dx, dy }), 1),
        HostCall::Eat => (Some(Action::Eat), 1),
        HostCall::Attack { slot, amount } => (Some(Action::Attack { target_slot: slot, amount }), 1),
        HostCall::SenseNeighbor { .. } => (None, 0),
        HostCall::TryReproduce => (Some(Action::Reproduce), 1),
        HostCall::EmitSignal { channel, value } => (Some(Action::EmitSignal { channel, value }), 0),
    }
}

/// The host answers each request by queueing the action it asks for, with
/// the request's own arguments, and answers 1 (0 for a signal); queries
/// queue nothing: reading the environment answers the tile's code,
/// `get_energy` the sensed energy, `get_age` the sensed age (as `i32`), and
/// sensing a neighbour 0.
pub proof fn lemma_host_answers(sensors: SensorData, env_code: i32, x: i32, y: i32, slot: i32, amount: i32)
    ensures
        spec_host_response(HostCall::MoveDir { dx: x, dy: y }, sensors, env_code) == (Some(Action::Move { dx: x, dy: y }), 1i32),
        spec_host_response(HostCall::Eat, sensors, env_code) == (Some(Action::Eat), 1i32),
        spec_host_response(HostCall::Attack { slot, amount }, sensors, env_code)
            == (Some(Action::Attack { target_slot: slot, amount }), 1i32),
        spec_host_response(HostCall::TryReproduce, sensors, env_code) == (Some(Action::Reproduce), 1i32),
        spec_host_response(HostCall::EmitSignal { channel: x, value: y }, sensors, env_code)
            == (Some(Action::EmitSignal { channel: x, value: y }), 0i32),
        spec_host_response(HostCall::EnvRead { x, y }, sensors, env_code) == (None::<Action>, env_code),
        spec_host_response(HostCall::GetEnergy, sensors, env_code) == (None::<Action>, sensors.energy),
        spec_host_response(HostCall::GetAge, sensors, env_code) == (None::<Action>, sensors.age as i32),
        spec_host_response(HostCall::SenseNeighbor { slot }, sensors, env_code) == (None::<Action>, 0i32),
{
}

} // verus!
