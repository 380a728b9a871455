//! Core value types of the world: positions on the toroidal grid,
//! movement directions, tiles and identifiers.

use vstd::prelude::*;
use crate::arith::{abs_int, trunc_rem, rem_i32, lemma_wrap_is_euclid_mod};
use uuid::Uuid;

verus! {

/// A 2D position in the world.
#[derive(Debug, Clone, Copy, PartialEq, Eq, Hash, Structural)]
pub struct Position {
    pub x: i32,
    pub y: i32,
}

/// The sum `a + b` fits in an `i32`.
pub open spec fn fits_i32(v: int) -> bool {
    i32::MIN <= v <= i32::MAX
}

/// Rust's `((v % m) + m) % m`, the toroidal wrap of one coordinate.
pub open spec fn wrap_coord(v: int, m: int) -> int {
    trunc_rem(trunc_rem(v, m) + m, m)
}

/// The wrap of one coordinate is computable without a panic.
pub open spec fn wrap_coord_ok(v: int, m: int) -> bool {
    &&& m != 0
    &&& !(v == i32::MIN && m == -1)
    &&& fits_i32(trunc_rem(v, m) + m)
}

/// Whether one coordinate wraps without overflow.
fn wrap_coord_fits(v: i32, m: i32) -> (r: bool)
    ensures
        r == wrap_coord_ok(v as int, m as int),
{
    if m == 0 || (v == i32::MIN && m == -1) {
        false
    } else {
        let rem = rem_i32(v, m);
        rem.checked_add(m).is_some()
    }
}

impl Position {
    pub fn new(x: i32, y: i32) -> (r: Position)
        ensures
            r.x == x,
            r.y == y,
    {
        Position { x, y }
    }

    pub open spec fn spec_add(self, dx: int, dy: int) -> Position {
        Position { x: (self.x + dx) as i32, y: (self.y + dy) as i32 }
    }

    /// The position shifted by `(dx, dy)`.
    pub fn add(&self, dx: i32, dy: i32) -> (r: Position)
        requires
            fits_i32(self.x + dx),
            fits_i32(self.y + dy),
        ensures
            r.x == self.x + dx,
            r.y == self.y + dy,
            r == self.spec_add(dx as int, dy as int),
    {
        Position { x: self.x + dx, y: self.y + dy }
    }

    pub open spec fn wrap_ok(self, width: int, height: int) -> bool {
        wrap_coord_ok(self.x as int, width) && wrap_coord_ok(self.y as int, height)
    }

    pub open spec fn spec_wrap(self, width: int, height: int) -> Position {
        Position {
            x: wrap_coord(self.x as int, width) as i32,
            y: wrap_coord(self.y as int, height) as i32,
        }
    }

    /// Whether the position can be wrapped into a world of the given
    /// dimensions without overflow (see `wrap_ok`).
    pub fn wraps_in(&self, width: i32, height: i32) -> (r: bool)
        ensures
            r == self.wrap_ok(width as int, height as int),
    {
        wrap_coord_fits(self.x, width) && wrap_coord_fits(self.y, height)
    }

    /// Apply toroidal wrapping for given world dimensions. For positive
    /// dimensions the result lies inside the world and is the Euclidean
    /// remainder of each coordinate.
    pub fn wrap(&self, width: i32, height: i32) -> (r: Position)
        requires
            self.wrap_ok(width as int, height as int),
        ensures
            r == self.spec_wrap(width as int, height as int),
            r.x == wrap_coord(self.x as int, width as int),
            r.y == wrap_coord(self.y as int, height as int),
            width > 0 ==> 0 <= r.x < width && r.x == (self.x as int) % (width as int),
            height > 0 ==> 0 <= r.y < height && r.y == (self.y as int) % (height as int),
    {
        let x1 = rem_i32(self.x, width);
        proof {
            lemma_trunc_rem_bound(self.x as int, width as int);
            lemma_trunc_rem_bound(self.y as int, height as int);
        }
        let x = rem_i32(x1 + width, width);
        let y1 = rem_i32(self.y, height);
        let y = rem_i32(y1 + height, height);
        proof {
            if width > 0 {
                lemma_wrap_is_euclid_mod(self.x as int, width as int);
            }
            if height > 0 {
                lemma_wrap_is_euclid_mod(self.y as int, height as int);
            }
        }
        Position { x, y }
    }

    pub open spec fn spec_manhattan_distance(self, other: Position) -> int {
        abs_int(self.x - other.x) + abs_int(self.y - other.y)
    }

    /// Manhattan distance to another position.
    pub fn manhattan_distance(&self, other: &Position) -> (r: i32)
        requires
            fits_i32(self.x - other.x),
            fits_i32(self.y - other.y),
            self.x - other.x != i32::MIN,
            self.y - other.y != i32::MIN,
            fits_i32(self.spec_manhattan_distance(*other)),
        ensures
            r == self.spec_manhattan_distance(*other),
    {
        let dx = self.x - other.x;
        let dy = self.y - other.y;
        let ax = if dx < 0 { -dx } else { dx };
        let ay = if dy < 0 { -dy } else { dy };
        ax + ay
    }
}

/// Rust's remainder is smaller in magnitude than the divisor.
pub proof fn lemma_trunc_rem_bound(a: int, b: int)
    requires
        b != 0,
    ensures
        -abs_int(b) < trunc_rem(a, b) < abs_int(b),
        a >= 0 ==> trunc_rem(a, b) >= 0,
        a < 0 ==> trunc_rem(a, b) <= 0,
{
    vstd::arithmetic::div_mod::lemma_mod_bound(a, abs_int(b));
    vstd::arithmetic::div_mod::lemma_mod_bound(-a, abs_int(b));
}

/// Direction for movement.
#[derive(Debug, Clone, Copy, PartialEq, Eq, Structural)]
pub enum Direction {
    North,
    South,
    East,
    West,
    NorthEast,
    NorthWest,
    SouthEast,
    SouthWest,
}

impl Direction {
    pub open spec fn spec_delta(self) -> (i32, i32) {
        match self {
            Direction::North => (0i32, -1i32),
            Direction::South => (0i32, 1),
            Direction::East => (1i32, 0),
            Direction::West => (-1i32, 0),
            Direction::NorthEast => (1i32, -1i32),
            Direction::NorthWest => (-1i32, -1i32),
            Direction::SouthEast => (1i32, 1),
            Direction::SouthWest => (-1i32, 1),
        }
    }

    /// The unit step `(dx, dy)` of this direction; north is towards smaller `y`.
    pub fn to_delta(&self) -> (r: (i32, i32))
        ensures
            r == self.spec_delta(),
    {
        match self {
            Direction::North => (0, -1),
            Direction::South => (0, 1),
            Direction::East => (1, 0),
            Direction::West => (-1, 0),
            Direction::NorthEast => (1, -1),
            Direction::NorthWest => (-1, -1),
            Direction::SouthEast => (1, 1),
            Direction::SouthWest => (-1, 1),
        }
    }

    /// All eight directions, in declaration order.
    pub fn all() -> (r: [Direction; 8])
        ensures
            r@ == seq![
                Direction::North,
                Direction::South,
                Direction::East,
                Direction::West,
                Direction::NorthEast,
                Direction::NorthWest,
                Direction::SouthEast,
                Direction::SouthWest,
            ],
    {
        [
            Direction::North,
            Direction::South,
            Direction::East,
            Direction::West,
            Direction::NorthEast,
            Direction::NorthWest,
            Direction::SouthEast,
            Direction::SouthWest,
        ]
    }
}

/// Every direction moves by exactly one step along each axis it names:
/// the eight deltas are distinct, non-zero, and each component is in `-1..=1`.
pub proof fn lemma_direction_deltas(d1: Direction, d2: Direction)
    ensures
        -1 <= d1.spec_delta().0 <= 1,
        -1 <= d1.spec_delta().1 <= 1,
        d1.spec_delta() != (0i32, 0i32),
        d1 != d2 ==> d1.spec_delta() != d2.spec_delta(),
{
}

/// Tile type in the world.
#[derive(Debug, Clone, Copy, PartialEq, Eq, Structural)]
pub enum TileType {
    Empty,
    Resource,
    Obstacle,
    Hazard,
}

/// Tile state.
#[derive(Debug, Clone, Copy, PartialEq, Eq, Structural)]
pub struct Tile {
    pub tile_type: TileType,
    pub resource_amount: i32,
    pub max_resource: i32,
}

impl Tile {
    pub open spec fn spec_empty() -> Tile {
        Tile { tile_type: TileType::Empty, resource_amount: 0, max_resource: 0 }
    }

    pub fn empty() -> (r: Tile)
        ensures
            r == Tile::spec_empty(),
    {
        Tile { tile_type: TileType::Empty, resource_amount: 0, max_resource: 0 }
    }

    pub fn resource(amount: i32, max: i32) -> (r: Tile)
        ensures
            r == (Tile { tile_type: TileType::Resource, resource_amount: amount, max_resource: max }),
    {
        Tile { tile_type: TileType::Resource, resource_amount: amount, max_resource: max }
    }

    pub fn obstacle() -> (r: Tile)
        ensures
            r == (Tile { tile_type: TileType::Obstacle, resource_amount: 0, max_resource: 0 }),
    {
        Tile { tile_type: TileType::Obstacle, resource_amount: 0, max_resource: 0 }
    }

    pub fn hazard() -> (r: Tile)
        ensures
            r == (Tile { tile_type: TileType::Hazard, resource_amount: 0, max_resource: 0 }),
    {
        Tile { tile_type: TileType::Hazard, resource_amount: 0, max_resource: 0 }
    }

    /// The tile after regrowing by `growth`: a resource tile below its
    /// maximum gains `growth` (at least 1), capped at the maximum; any
    /// other tile is unchanged.
    pub open spec fn spec_grown(self, growth: int) -> Tile {
        if self.tile_type == TileType::Resource && self.resource_amount < self.max_resource {
            let g = if growth >= 1 { growth } else { 1 };
            let a = self.resource_amount + g;
            Tile { resource_amount: (if a < self.max_resource { a } else { self.max_resource as int }) as i32, ..self }
        } else {
            self
        }
    }

    /// Whether regrowing by `growth` stays within `i32`.
    pub open spec fn growth_fits(self, growth: int) -> bool {
        self.tile_type == TileType::Resource && self.resource_amount < self.max_resource
            ==> fits_i32(self.resource_amount + (if growth >= 1 { growth } else { 1 }))
    }

    /// Regrowth adds at least one unit to a resource tile below its
    /// maximum and never passes the maximum; it changes nothing else, and
    /// no other tile.
    pub proof fn lemma_growth_bounded(self, growth: int)
        requires
            self.growth_fits(growth),
        ensures
            self.tile_type == TileType::Resource && self.resource_amount < self.max_resource ==>
                self.resource_amount < self.spec_grown(growth).resource_amount <= self.max_resource,
            !(self.tile_type == TileType::Resource && self.resource_amount < self.max_resource) ==>
                self.spec_grown(growth) == self,
            self.spec_grown(growth).tile_type == self.tile_type,
            self.spec_grown(growth).max_resource == self.max_resource,
    {
    }

    /// The integer step of logistic regeneration. The growth itself,
    /// `rate * amount * (1 - amount / max)` truncated to an integer, is a
    /// floating-point quantity that the caller computes.
    pub fn grow(&mut self, growth: i32)
        requires
            old(self).growth_fits(growth as int),
        ensures
            *final(self) == old(self).spec_grown(growth as int),
    {
        if self.tile_type == TileType::Resource && self.resource_amount < self.max_resource {
            let g = if growth >= 1 { growth } else { 1 };
            let a = self.resource_amount + g;
            self.resource_amount = if a < self.max_resource { a } else { self.max_resource };
        }
    }
}

/// The bits that a version-4 (random) UUID fixes: the version nibble and
/// the two variant bits, in the UUID's big-endian 128-bit value.
pub open spec fn uuid_v4_fixed_bits(v: u128) -> bool {
    v & 0xF000_C000_0000_0000_0000u128 == 0x4000_8000_0000_0000_0000u128
}

/// `Uuid::new_v4().as_u128()`: a random UUID, as its 128-bit value. The
/// other 122 bits come from the operating system's random source, so
/// nothing more is stated of them.
#[verifier::external_body]
fn random_uuid_bits() -> (r: u128)
    ensures
        uuid_v4_fixed_bits(r),
{
    Uuid::new_v4().as_u128()
}

/// Unique identifier for an organism lineage (a random UUID).
#[derive(Debug, Clone, Copy, PartialEq, Eq, Hash, Structural)]
pub struct LineageId(pub u128);

impl LineageId {
    /// A fresh random identifier.
    pub fn new() -> (r: LineageId)
        ensures
            uuid_v4_fixed_bits(r.0),
    {
        LineageId(random_uuid_bits())
    }
}

impl Default for LineageId {
    fn default() -> (r: LineageId)
        ensures
            uuid_v4_fixed_bits(r.0),
    {
        LineageId::new()
    }
}

/// Unique identifier for a simulation job (a random UUID).
#[derive(Debug, Clone, Copy, PartialEq, Eq, Hash, Structural)]
pub struct JobId(pub u128);

impl JobId {
    /// A fresh random identifier.
    pub fn new() -> (r: JobId)
        ensures
            uuid_v4_fixed_bits(r.0),
    {
        JobId(random_uuid_bits())
    }
}

impl Default for JobId {
    fn default() -> (r: JobId)
        ensures
            uuid_v4_fixed_bits(r.0),
    {
        JobId::new()
    }
}

/// Unique identifier for an organism instance (a random UUID).
#[derive(Debug, Clone, Copy, PartialEq, Eq, Hash, Structural)]
pub struct OrganismId(pub u128);

impl OrganismId {
    /// A fresh random identifier.
    pub fn new() -> (r: OrganismId)
        ensures
            uuid_v4_fixed_bits(r.0),
    {
        OrganismId(random_uuid_bits())
    }
}

impl Default for OrganismId {
    fn default() -> (r: OrganismId)
        ensures
            uuid_v4_fixed_bits(r.0),
    {
        OrganismId::new()
    }
}

} // verus!
