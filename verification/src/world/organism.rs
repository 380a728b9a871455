//! Organism state: position, energy, age, genome and fitness metrics.

use vstd::prelude::*;
use std::collections::HashSet;
use crate::fitness::{FitnessMetrics, zero_metrics};
use crate::ir::program::{Program, ProgramModel};
use crate::types::{LineageId, OrganismId, Position, fits_i32, uuid_v4_fixed_bits};

verus! {

broadcast use vstd::std_specs::hash::group_hash_axioms;

/// A position packed into one integer: `x` in the high half, `y` in the
/// low half, each as its 32-bit pattern.
pub open spec fn position_key(p: Position) -> u64 {
    (((p.x as u32) as u64) << 32u64) | ((p.y as u32) as u64)
}

/// Distinct positions have distinct keys.
pub proof fn lemma_position_key_injective(a: Position, b: Position)
    ensures
        position_key(a) == position_key(b) ==> a == b,
{
    let (ax, ay, bx, by) = (a.x, a.y, b.x, b.y);
    assert(((((ax as u32) as u64) << 32u64) | ((ay as u32) as u64)) == ((((bx as u32) as u64) << 32u64) | ((by as u32) as u64))
        ==> ax == bx && ay == by) by (bit_vector);
}

/// The key of a position.
fn key_of(p: Position) -> (r: u64)
    ensures
        r == position_key(p),
{
    ((p.x as u32 as u64) << 32u64) | (p.y as u32 as u64)
}

/// The `i64` range.
pub open spec fn fits_i64(v: int) -> bool {
    i64::MIN <= v <= i64::MAX
}

/// An organism in the simulation. The running WebAssembly instance of an
/// organism is kept by the host, by the organism's identifier.
pub struct Organism {
    pub id: OrganismId,
    pub lineage_id: LineageId,
    pub position: Position,
    pub energy: i32,
    pub age: u64,
    pub genome: Program,
    pub metrics: FitnessMetrics,
    /// The keys (`position_key`) of the tiles visited.
    pub visited_tiles: HashSet<u64>,
    /// The tick at which the organism was born.
    pub birth_tick: u64,
}

/// The mathematical state of an organism.
pub ghost struct OrganismView {
    pub id: OrganismId,
    pub lineage_id: LineageId,
    pub position: Position,
    pub energy: i32,
    pub age: u64,
    pub genome: ProgramModel,
    pub metrics: FitnessMetrics,
    pub visited: Set<u64>,
    pub birth_tick: u64,
}

impl OrganismView {
    /// The organism with another energy.
    pub open spec fn with_energy(self, e: int) -> OrganismView {
        OrganismView { energy: e as i32, ..self }
    }

    /// After `consume_energy(amount)`.
    pub open spec fn consumed(self, amount: int) -> OrganismView {
        self.with_energy(energy_after_consume(self.energy as int, amount))
    }

    /// After `add_energy(amount)`.
    pub open spec fn gained(self, amount: int) -> OrganismView {
        self.with_energy(self.energy + amount)
    }

    /// After `move_to(p)`.
    pub open spec fn moved(self, p: Position) -> OrganismView {
        OrganismView {
            position: p,
            visited: self.visited.insert(position_key(p)),
            metrics: FitnessMetrics { tiles_explored: self.visited.insert(position_key(p)).len() as u32, ..self.metrics },
            ..self
        }
    }

    /// After `tick()`.
    pub open spec fn ticked(self) -> OrganismView {
        OrganismView {
            age: (self.age + 1) as u64,
            metrics: FitnessMetrics { lifetime: (self.age + 1) as u64, ..self.metrics },
            ..self
        }
    }

    /// After `record_kill()`.
    pub open spec fn killed(self) -> OrganismView {
        OrganismView { metrics: FitnessMetrics { kills: (self.metrics.kills + 1) as u32, ..self.metrics }, ..self }
    }

    /// After `record_damage_dealt(amount)`.
    pub open spec fn dealt(self, amount: int) -> OrganismView {
        OrganismView {
            metrics: FitnessMetrics { damage_dealt: (self.metrics.damage_dealt + amount) as i64, ..self.metrics },
            ..self
        }
    }

    /// After `record_damage_received(amount)`.
    pub open spec fn received(self, amount: int) -> OrganismView {
        OrganismView {
            metrics: FitnessMetrics { damage_received: (self.metrics.damage_received + amount) as i64, ..self.metrics },
            ..self
        }
    }

    /// After `record_offspring()`.
    pub open spec fn with_offspring(self) -> OrganismView {
        OrganismView {
            metrics: FitnessMetrics { offspring_count: (self.metrics.offspring_count + 1) as u32, ..self.metrics },
            ..self
        }
    }

    /// After one more meal.
    pub open spec fn ate(self) -> OrganismView {
        OrganismView {
            metrics: FitnessMetrics { times_eaten: (self.metrics.times_eaten + 1) as u32, ..self.metrics },
            ..self
        }
    }

    /// After `finalize_metrics(initial_energy)`.
    pub open spec fn finalized(self, initial_energy: int) -> OrganismView {
        OrganismView {
            metrics: FitnessMetrics { net_energy: (self.energy - initial_energy) as i64, ..self.metrics },
            ..self
        }
    }
}

impl View for Organism {
    type V = OrganismView;

    open spec fn view(&self) -> OrganismView {
        OrganismView {
            id: self.id,
            lineage_id: self.lineage_id,
            position: self.position,
            energy: self.energy,
            age: self.age,
            genome: self.genome@,
            metrics: self.metrics,
            visited: self.visited_tiles@,
            birth_tick: self.birth_tick,
        }
    }
}

/// What `consume_energy` leaves: the energy less `amount`, or zero when
/// there is not enough.
pub open spec fn energy_after_consume(energy: int, amount: int) -> int {
    if energy >= amount { energy - amount } else { 0 }
}

/// `consume_energy(amount)` stays within `i32`.
pub open spec fn consume_fits(energy: int, amount: int) -> bool {
    energy >= amount ==> fits_i32(energy - amount)
}

impl Organism {
    /// A new organism born at tick 0.
    pub fn new(lineage_id: LineageId, position: Position, energy: i32, genome: Program) -> (r: Organism)
        ensures
            uuid_v4_fixed_bits(r.id.0),
            r@.lineage_id == lineage_id,
            r@.position == position,
            r@.energy == energy,
            r@.age == 0,
            r@.genome == genome@,
            r@.metrics == zero_metrics(),
            r@.visited == Set::<u64>::empty().insert(position_key(position)),
            r@.birth_tick == 0,
    {
        Organism::new_with_birth_tick(lineage_id, position, energy, genome, 0)
    }

    /// A new organism born at the given tick, with a fresh identifier, no
    /// age and zero metrics, having visited its own tile.
    pub fn new_with_birth_tick(
        lineage_id: LineageId,
        position: Position,
        energy: i32,
        genome: Program,
        birth_tick: u64,
    ) -> (r: Organism)
        ensures
            uuid_v4_fixed_bits(r.id.0),
            r@.lineage_id == lineage_id,
            r@.position == position,
            r@.energy == energy,
            r@.age == 0,
            r@.genome == genome@,
            r@.metrics == zero_metrics(),
            r@.visited == Set::<u64>::empty().insert(position_key(position)),
            r@.birth_tick == birth_tick,
    {
        let mut visited: HashSet<u64> = HashSet::new();
        visited.insert(key_of(position));
        Organism {
            id: OrganismId::new(),
            lineage_id,
            position,
            energy,
            age: 0,
            genome,
            metrics: FitnessMetrics::new(),
            visited_tiles: visited,
            birth_tick,
        }
    }

    pub fn is_alive(&self) -> (r: bool)
        ensures
            r == (self.energy > 0),
    {
        self.energy > 0
    }

    pub fn add_energy(&mut self, amount: i32)
        requires
            fits_i32(old(self).energy + amount),
        ensures
            final(self)@ == old(self)@.gained(amount as int),
    {
        self.energy += amount;
    }

    /// Spend `amount` of energy if there is that much, else drop to zero;
    /// says whether there was enough.
    pub fn consume_energy(&mut self, amount: i32) -> (r: bool)
        requires
            consume_fits(old(self).energy as int, amount as int),
        ensures
            r == (old(self).energy >= amount),
            final(self)@ == old(self)@.consumed(amount as int),
    {
        if self.energy >= amount {
            self.energy -= amount;
            true
        } else {
            self.energy = 0;
            false
        }
    }

    /// Move to a position, recording it as visited; the tiles explored
    /// become the number of distinct tiles visited.
    pub fn move_to(&mut self, new_position: Position)
        ensures
            final(self)@ == old(self)@.moved(new_position),
    {
        self.position = new_position;
        self.visited_tiles.insert(key_of(new_position));
        self.metrics.tiles_explored = self.visited_tiles.len() as u32;
    }

    /// One tick older.
    pub fn tick(&mut self)
        requires
            old(self).age < u64::MAX,
        ensures
            final(self)@ == old(self)@.ticked(),
    {
        self.age += 1;
        self.metrics.lifetime = self.age;
    }

    pub fn record_kill(&mut self)
        requires
            old(self).metrics.kills < u32::MAX,
        ensures
            final(self)@ == old(self)@.killed(),
    {
        self.metrics.kills += 1;
    }

    pub fn record_damage_dealt(&mut self, amount: i32)
        requires
            fits_i64(old(self).metrics.damage_dealt + amount),
        ensures
            final(self)@ == old(self)@.dealt(amount as int),
    {
        self.metrics.damage_dealt += amount as i64;
    }

    pub fn record_damage_received(&mut self, amount: i32)
        requires
            fits_i64(old(self).metrics.damage_received + amount),
        ensures
            final(self)@ == old(self)@.received(amount as int),
    {
        self.metrics.damage_received += amount as i64;
    }

    pub fn record_offspring(&mut self)
        requires
            old(self).metrics.offspring_count < u32::MAX,
        ensures
            final(self)@ == old(self)@.with_offspring(),
    {
        self.metrics.offspring_count += 1;
    }

    /// One more meal eaten.
    pub fn record_meal(&mut self)
        requires
            old(self).metrics.times_eaten < u32::MAX,
        ensures
            final(self)@ == old(self)@.ate(),
    {
        self.metrics.times_eaten += 1;
    }

    /// Record the net energy: the current energy less the initial energy.
    pub fn finalize_metrics(&mut self, initial_energy: i32)
        ensures
            final(self)@ == old(self)@.finalized(initial_energy as int),
    {
        self.metrics.net_energy = self.energy as i64 - initial_energy as i64;
    }
}

/// Organism data without its running instance, as reported in results.
#[derive(Debug)]
pub struct OrganismData {
    pub id: OrganismId,
    pub lineage_id: LineageId,
    pub position: Position,
    pub energy: i32,
    pub age: u64,
    pub genome: Program,
    pub metrics: FitnessMetrics,
}

impl OrganismData {
    /// The data are those of an organism.
    pub open spec fn describes(&self, o: OrganismView) -> bool {
        &&& self.id == o.id
        &&& self.lineage_id == o.lineage_id
        &&& self.position == o.position
        &&& self.energy == o.energy
        &&& self.age == o.age
        &&& self.genome@ == o.genome
        &&& self.metrics == o.metrics
    }

    /// The data of an organism.
    pub fn from(org: &Organism) -> (r: OrganismData)
        ensures
            r.describes(org@),
            r.id == org.id,
            r.lineage_id == org.lineage_id,
            r.position == org.position,
            r.energy == org.energy,
            r.age == org.age,
            r.genome@ == org.genome@,
            r.metrics == org.metrics,
    {
        OrganismData {
            id: org.id,
            lineage_id: org.lineage_id,
            position: org.position,
            energy: org.energy,
            age: org.age,
            genome: org.genome.clone(),
            metrics: org.metrics,
        }
    }
}

} // verus!
