//! The simulation engine of one island.
//!
//! The engine decides everything that happens in the world; running the
//! organisms' WebAssembly code is left to the host, which drives a tick as
//! follows: `set_tick`, `regrow_tile` for each cell, `turn_order`, then for
//! each organism in that order `start_turn`, a step of its instance (first
//! compiled with `compile_genome` and seeded with `draw_init_seed`), and
//! `finish_turn` with the fuel it used and the actions it queued; then
//! `apply_hazards` and `remove_dead_organisms`.

use vstd::prelude::*;
use rand_chacha::ChaCha8Rng;
use crate::arith::trunc_rem;
use crate::config::{JobConfig, MAX_BITE};
use crate::error::Error;
use crate::fitness::{FitnessMetrics, zero_metrics};
use crate::ir::compiler::{Compiler, CompilerConfig, compilable, module_model, program_compilable};
use crate::ir::wasm::encode_module;
use crate::ir::mutation::{
    MutationConfig, Mutator, default_mutation_config, program_mutation_of, program_without_floats, program_float_free,
};
use crate::ir::program::{Program, ProgramModel};
use crate::rng::{gen_range_i32, gen_u64, rng_from_seed, shuffle};
use crate::world::grid::drawn_tile;
use crate::runtime::context::Action;
use crate::types::{LineageId, OrganismId, Position, Tile, TileType, fits_i32, wrap_coord_ok, uuid_v4_fixed_bits};
use crate::world::grid::{Grid, neighbor_offset, lemma_neighbor_offsets};
use crate::world::occupancy::{
    occupancy_ok, no_other_on, move_taken, lemma_own_cell_alone, lemma_action_keeps_occupancy, lemma_start_keeps_occupancy,
    lemma_cost_keeps_occupancy, lemma_turn_keeps_occupancy, lemma_hazards_keep_occupancy,
    lemma_removal_keeps_occupancy, lemma_spawned_world_occupancy, lemma_finalized_keeps_occupancy,
    lemma_spawn_keeps_occupancy, records_ok, births_fresh, lemma_cost_keeps_records, lemma_turn_keeps_records,
    lemma_start_keeps_records, lemma_hazards_keep_records, lemma_removal_keeps_records, lemma_finalized_keeps_records,
    lemma_spawn_keeps_records,
};
use crate::world::organism::{
    Organism, OrganismData, OrganismView, consume_fits, energy_after_consume, fits_i64, position_key,
};

verus! {

/// The simulation of one island.
pub struct Simulation {
    pub grid: Grid,
    pub organisms: Vec<Organism>,
    /// For each cell, the organism recorded as standing there. Records are
    /// kept as the engine updates them, so a record may outlive its
    /// organism or point at a cell its organism has left.
    pub occupants: Vec<Option<OrganismId>>,
    pub compiler: Compiler,
    pub mutator: Mutator,
    pub config: JobConfig,
    pub rng: ChaCha8Rng,
    pub tick: u64,
    pub reproduction_attempts: u64,
    pub reproduction_successes: u64,
    pub total_offspring_born: u64,
}

/// What a simulation reports at the end.
#[derive(Debug)]
pub struct SimulationResult {
    /// The metrics of each lineage's organisms.
    pub lineage_stats: Vec<(LineageId, Vec<FitnessMetrics>)>,
    /// The data of the surviving organisms.
    pub survivors: Vec<OrganismData>,
    pub total_ticks: u64,
}

/// Aggregate statistics of a set of organisms: how many, how many were born
/// after the first tick, how many have offspring, the sums of their
/// energies, ages and offspring counts, and the extremes of energy, age
/// and offspring count (zero when there is no organism).
#[derive(Debug, Clone, Copy, PartialEq, Eq, Structural)]
pub struct Tally {
    pub count: usize,
    pub born_late: usize,
    pub parents: usize,
    pub energy_sum: i128,
    pub age_sum: u128,
    pub offspring_sum: u128,
    pub max_energy: i32,
    pub min_energy: i32,
    pub max_age: u64,
    pub max_offspring: u32,
}

/// The mathematical state of a simulation.
pub ghost struct SimView {
    pub width: i32,
    pub height: i32,
    pub tiles: Seq<Tile>,
    pub organisms: Seq<OrganismView>,
    pub occupants: Seq<Option<OrganismId>>,
    pub config: JobConfig,
    pub mutation: MutationConfig,
    pub compiler: CompilerConfig,
    pub tick: u64,
    pub reproduction_attempts: u64,
    pub reproduction_successes: u64,
    pub total_offspring_born: u64,
}

/// The views of a sequence of organisms.
pub open spec fn orgs_view(s: Seq<Organism>) -> Seq<OrganismView> {
    s.map_values(|o: Organism| o@)
}

impl View for Simulation {
    type V = SimView;

    open spec fn view(&self) -> SimView {
        SimView {
            width: self.grid.width,
            height: self.grid.height,
            tiles: self.grid.tiles@,
            organisms: orgs_view(self.organisms@),
            occupants: self.occupants@,
            config: self.config,
            mutation: self.mutator.config,
            compiler: self.compiler.config,
            tick: self.tick,
            reproduction_attempts: self.reproduction_attempts,
            reproduction_successes: self.reproduction_successes,
            total_offspring_born: self.total_offspring_born,
        }
    }
}

// ---------------------------------------------------------------------------
// The world as the engine sees it.

/// The position lies inside the grid.
pub open spec fn in_grid(v: SimView, p: Position) -> bool {
    0 <= p.x < v.width && 0 <= p.y < v.height
}

/// The cell index of an in-grid position.
pub open spec fn cell(v: SimView, p: Position) -> int {
    p.y * v.width + p.x
}

/// The position can be wrapped into the grid without overflow.
pub open spec fn wraps(v: SimView, p: Position) -> bool {
    p.wrap_ok(v.width as int, v.height as int)
}

/// The position wrapped into the grid.
pub open spec fn wrapped(v: SimView, p: Position) -> Position {
    p.spec_wrap(v.width as int, v.height as int)
}

/// Every position within one step of `p` can be wrapped into the grid.
pub open spec fn nbhd_wraps(v: SimView, p: Position) -> bool {
    forall|a: int, b: int| -1 <= a <= 1 && -1 <= b <= 1 ==> wraps(v, #[trigger] p.spec_add(a, b))
}

/// The identifiers of the organisms are distinct.
pub open spec fn ids_distinct(orgs: Seq<OrganismView>) -> bool {
    forall|i: int, j: int| 0 <= i < orgs.len() && 0 <= j < orgs.len() && i != j ==> orgs[i].id != orgs[j].id
}

/// The index of the organism with an identifier, or -1.
pub open spec fn index_of(orgs: Seq<OrganismView>, id: OrganismId) -> int {
    if exists|i: int| 0 <= i < orgs.len() && orgs[i].id == id {
        choose|i: int| 0 <= i < orgs.len() && orgs[i].id == id
    } else {
        -1
    }
}

/// The state is consistent: the grid has one tile and one occupant record
/// per cell, organisms stand inside the grid and have distinct
/// identifiers, and the counters agree.
pub open spec fn sim_wf(v: SimView) -> bool {
    &&& 0 <= v.width
    &&& 0 <= v.height
    &&& v.width * v.height <= i32::MAX
    &&& v.tiles.len() == v.width * v.height
    &&& v.occupants.len() == v.tiles.len()
    &&& forall|k: int| 0 <= k < v.organisms.len() ==> in_grid(v, (#[trigger] v.organisms[k]).position)
    &&& forall|k: int| 0 <= k < v.organisms.len() ==> (#[trigger] v.organisms[k]).genome.functions.len() < usize::MAX
    &&& ids_distinct(v.organisms)
    &&& v.mutation.max_functions < usize::MAX
    &&& v.reproduction_successes <= v.reproduction_attempts
    &&& v.total_offspring_born == v.reproduction_successes
}

/// The two states differ at most in their organisms and occupant records.
pub open spec fn same_but_population(a: SimView, b: SimView) -> bool {
    a == (SimView { organisms: a.organisms, occupants: a.occupants, ..b })
}

/// The state with organism `k` replaced.
pub open spec fn with_org(v: SimView, k: int, o: OrganismView) -> SimView {
    SimView { organisms: v.organisms.update(k, o), ..v }
}

// ---------------------------------------------------------------------------
// Moving.

/// The cell a move leads to.
pub open spec fn move_target(v: SimView, pos: Position, dx: int, dy: int) -> Position {
    wrapped(v, pos.spec_add(dx, dy))
}

/// A move into the cell can happen: nobody is recorded there and it is
/// not an obstacle.
pub open spec fn move_opens(v: SimView, t: Position) -> bool {
    v.occupants[cell(v, t)] is None && v.tiles[cell(v, t)].tile_type != TileType::Obstacle
}

/// A move by `(dx, dy)` from `pos` overflows: the target's coordinates or
/// their wrapping, the tile lookup, or the energy payment.
pub open spec fn move_fails(v: SimView, k: int, pos: Position, energy: int, dx: int, dy: int) -> bool {
    let u = pos.spec_add(dx, dy);
    let t = wrapped(v, u);
    energy >= v.config.energy_config.move_cost && {
        ||| !fits_i32(pos.x + dx)
        ||| !fits_i32(pos.y + dy)
        ||| !wraps(v, u)
        ||| (v.occupants[cell(v, t)] is None && !wraps(v, t))
        ||| (move_opens(v, t) && !consume_fits(v.organisms[k].energy as int, v.config.energy_config.move_cost as int))
    }
}

/// A move of organism `k`, decided on the energy it had when its turn's
/// actions began and from the cell it stood on then (`pos`): with enough
/// energy and an open target, the record leaves `pos` for the target and
/// the organism moves there and pays for the move.
pub open spec fn spec_move(v: SimView, k: int, pos: Position, energy: int, dx: int, dy: int) -> SimView {
    if energy < v.config.energy_config.move_cost {
        v
    } else {
        let t = move_target(v, pos, dx, dy);
        if move_opens(v, t) {
            SimView {
                occupants: v.occupants.update(cell(v, pos), None).update(cell(v, t), Some(v.organisms[k].id)),
                organisms: v.organisms.update(k, v.organisms[k].moved(t).consumed(v.config.energy_config.move_cost as int)),
                ..v
            }
        } else {
            v
        }
    }
}

// ---------------------------------------------------------------------------
// Eating.

/// How much an organism eats from a tile.
pub open spec fn bite(t: Tile) -> int {
    if t.resource_amount < MAX_BITE { t.resource_amount as int } else { MAX_BITE as int }
}

/// The tile holds something to eat.
pub open spec fn edible(t: Tile) -> bool {
    t.tile_type == TileType::Resource && t.resource_amount > 0
}

/// Eating overflows: the tile lookup, the energy gained or the meal count.
pub open spec fn eat_fails(v: SimView, k: int) -> bool {
    let o = v.organisms[k];
    ||| !wraps(v, o.position)
    ||| {
        let t = v.tiles[cell(v, o.position)];
        edible(t) && (!fits_i32(o.energy + v.config.energy_config.eat_gain@[bite(t)])
            || o.metrics.times_eaten == u32::MAX)
    }
}

/// Organism `k` eats from the tile it stands on: up to `MAX_BITE` units
/// leave the tile and the organism gains the configured energy for them.
pub open spec fn spec_eat(v: SimView, k: int) -> SimView {
    let o = v.organisms[k];
    let c = cell(v, o.position);
    let t = v.tiles[c];
    if edible(t) {
        SimView {
            tiles: v.tiles.update(c, Tile { resource_amount: (t.resource_amount - bite(t)) as i32, ..t }),
            organisms: v.organisms.update(k, o.gained(v.config.energy_config.eat_gain@[bite(t)] as int).ate()),
            ..v
        }
    } else {
        v
    }
}

// ---------------------------------------------------------------------------
// Attacking.

/// The cell an attack aims at: the first neighbour, up and to the left of
/// `pos` (not wrapped, so nothing is found there from the grid's edges).
pub open spec fn attack_target(pos: Position) -> Position {
    pos.spec_add(-1, -1)
}

/// An organism is recorded at the attacked cell.
pub open spec fn attack_hits(v: SimView, pos: Position) -> bool {
    in_grid(v, attack_target(pos)) && v.occupants[cell(v, attack_target(pos))] is Some
}

/// The index of the attacked organism, or -1 when the record there has
/// outlived its organism.
pub open spec fn attack_victim(v: SimView, pos: Position) -> int {
    index_of(v.organisms, v.occupants[cell(v, attack_target(pos))]->0)
}

/// The state after the victim takes the damage.
pub open spec fn after_hit(v: SimView, pos: Position, amount: int) -> SimView {
    let ti = attack_victim(v, pos);
    if ti >= 0 { with_org(v, ti, v.organisms[ti].received(amount).consumed(amount)) } else { v }
}

/// The victim has no energy left after the hit.
pub open spec fn victim_died(v: SimView, pos: Position, amount: int) -> bool {
    let ti = attack_victim(v, pos);
    ti >= 0 && after_hit(v, pos, amount).organisms[ti].energy <= 0
}

/// An attack overflows: the neighbourhood lookup, the victim's damage
/// record or energy, or the attacker's payment, damage or kill record.
pub open spec fn attack_fails(v: SimView, k: int, pos: Position, energy: int, amount: int) -> bool {
    energy >= v.config.energy_config.attack_cost && {
        ||| !nbhd_wraps(v, pos)
        ||| attack_hits(v, pos) && {
            let ti = attack_victim(v, pos);
            let a = after_hit(v, pos, amount).organisms[k];
            ||| (ti >= 0 && (!fits_i64(v.organisms[ti].metrics.damage_received + amount)
                || !consume_fits(v.organisms[ti].energy as int, amount)))
            ||| !consume_fits(a.energy as int, v.config.energy_config.attack_cost as int)
            ||| !fits_i64(a.metrics.damage_dealt + amount)
            ||| (victim_died(v, pos, amount) && a.metrics.kills == u32::MAX)
        }
    }
}

/// Organism `k` attacks with `amount`, decided on the energy and cell of
/// the start of its actions: with enough energy and an organism recorded
/// at the target cell, the victim (if it still exists) takes the damage,
/// then the attacker pays, records the damage and, if the victim has no
/// energy left, a kill.
pub open spec fn spec_attack(v: SimView, k: int, pos: Position, energy: int, amount: int) -> SimView {
    if energy < v.config.energy_config.attack_cost || !attack_hits(v, pos) {
        v
    } else {
        let v1 = after_hit(v, pos, amount);
        let a = v1.organisms[k].consumed(v.config.energy_config.attack_cost as int).dealt(amount);
        with_org(v1, k, if victim_died(v, pos, amount) { a.killed() } else { a })
    }
}

// ---------------------------------------------------------------------------
// Reproducing.

/// Reproduction is refused: too little energy for the cost or below the
/// minimum, or the population is full.
pub open spec fn repro_blocked(v: SimView, energy: int) -> bool {
    ||| energy < v.config.energy_config.reproduce_cost
    ||| energy < v.config.energy_config.min_reproduce_energy
    ||| v.organisms.len() >= v.config.dynamic_rules.max_population
}

/// The state with one more reproduction attempt counted.
pub open spec fn with_attempt(v: SimView) -> SimView {
    SimView { reproduction_attempts: (v.reproduction_attempts + 1) as u64, ..v }
}

/// The parent after paying for reproduction and counting its offspring.
pub open spec fn parent_after(v: SimView, k: int) -> OrganismView {
    v.organisms[k].consumed(v.config.energy_config.reproduce_cost as int).with_offspring()
}

/// The `j`-th neighbour of a position (row by row, the centre left out).
pub open spec fn nb(p: Position, j: int) -> Position {
    p.spec_add(neighbor_offset(1, j).0, neighbor_offset(1, j).1)
}

/// The `j`-th neighbour's cell can take an offspring: not an obstacle and
/// nobody recorded there.
pub open spec fn slot_open(v: SimView, p: Position, j: int) -> bool {
    let c = cell(v, wrapped(v, nb(p, j)));
    v.tiles[c].tile_type != TileType::Obstacle && v.occupants[c] is None
}

/// The first neighbour at or after `j` that can take an offspring, or -1.
pub open spec fn first_open_slot(v: SimView, p: Position, j: int) -> int
    decreases 8 - j,
{
    if j < 0 || j >= 8 {
        -1
    } else if slot_open(v, p, j) {
        j
    } else {
        first_open_slot(v, p, j + 1)
    }
}

/// The organisms with `o` inserted by identifier: it replaces the organism
/// with its identifier, if any, else joins at the end.
pub open spec fn insert_org(orgs: Seq<OrganismView>, o: OrganismView) -> Seq<OrganismView> {
    let i = index_of(orgs, o.id);
    if i >= 0 { orgs.update(i, o) } else { orgs.push(o) }
}

/// The energy an offspring of organism `k` starts with: boosted when the
/// parent was itself born after the first tick.
pub open spec fn offspring_energy(v: SimView, k: int) -> i32 {
    if v.organisms[k].birth_tick > 1 {
        v.config.energy_config.boosted_offspring_energy
    } else {
        v.config.energy_config.offspring_energy
    }
}

/// `o` is a newborn offspring of organism `k` at `pos`: a fresh random
/// identifier, the parent's lineage, a mutation of the parent's genome, no
/// age, zero metrics, born now.
pub open spec fn offspring_of(o: OrganismView, v: SimView, k: int, pos: Position) -> bool {
    &&& uuid_v4_fixed_bits(o.id.0)
    &&& o.lineage_id == v.organisms[k].lineage_id
    &&& o.position == pos
    &&& o.energy == offspring_energy(v, k)
    &&& o.age == 0
    &&& program_mutation_of(v.organisms[k].genome, o.genome, v.mutation)
    &&& o.metrics == zero_metrics()
    &&& o.visited == Set::<u64>::empty().insert(position_key(pos))
    &&& o.birth_tick == v.tick
}

/// Reproduction fails: the attempt counter or the neighbourhood lookup
/// overflows, or, when a neighbouring cell can take the offspring, the
/// parent's energy or offspring count overflows or its genome holds a float
/// immediate (which this library cannot mutate).
pub open spec fn reproduce_fails(v: SimView, k: int, energy: int) -> bool {
    let p = v.organisms[k];
    ||| v.reproduction_attempts == u64::MAX
    ||| !repro_blocked(v, energy) && {
        ||| !nbhd_wraps(v, p.position)
        ||| first_open_slot(v, p.position, 0) >= 0 && {
            ||| !consume_fits(p.energy as int, v.config.energy_config.reproduce_cost as int)
            ||| p.metrics.offspring_count == u32::MAX
            ||| !program_without_floats(p.genome)
            ||| (p.birth_tick > 1 && !fits_i32(parent_after(v, k).energy + 1000))
        }
    }
}

/// Organism `k` tries to reproduce, decided on the energy of the start of
/// its actions. The attempt is counted. Unless refused, and when a
/// neighbouring cell can take an offspring, the parent pays, counts the
/// offspring, which is born there with a mutated copy of the parent's
/// genome and recorded there, and a parent born after the first tick gains
/// 1000 energy. Without such a cell nothing else changes.
pub open spec fn spec_reproduce(v: SimView, k: int, energy: int, post: SimView) -> bool {
    let v0 = with_attempt(v);
    if repro_blocked(v, energy) {
        post == v0
    } else {
        let p1 = parent_after(v, k);
        let v1 = with_org(v0, k, p1);
        let j = first_open_slot(v, v.organisms[k].position, 0);
        if j < 0 {
            post == v0
        } else {
            let w = wrapped(v, nb(v.organisms[k].position, j));
            let p2 = if v.organisms[k].birth_tick > 1 { p1.gained(1000) } else { p1 };
            exists|o: OrganismView| #[trigger] offspring_of(o, v, k, w) && post == (SimView {
                organisms: insert_org(v1.organisms.update(k, p2), o),
                occupants: v.occupants.update(cell(v, w), Some(o.id)),
                reproduction_successes: (v.reproduction_successes + 1) as u64,
                total_offspring_born: (v.total_offspring_born + 1) as u64,
                ..v1
            })
        }
    }
}

// ---------------------------------------------------------------------------
// Actions and turns.

/// Applying an action fails (see the `*_fails` predicates). Attacks and
/// reproduction only count when the rules allow them.
pub open spec fn action_fails(v: SimView, k: int, a: Action, pos: Position, energy: int) -> bool {
    match a {
        Action::Move { dx, dy } => move_fails(v, k, pos, energy, dx as int, dy as int),
        Action::Eat => eat_fails(v, k),
        Action::Attack { amount, .. } => v.config.dynamic_rules.allow_combat && attack_fails(v, k, pos, energy, amount as int),
        Action::Reproduce => v.config.dynamic_rules.allow_reproduction && reproduce_fails(v, k, energy),
        _ => false,
    }
}

/// `post` may follow `v` when organism `k` applies action `a`, decided on
/// the cell `pos` and the energy it had when its actions began. Attacks
/// and reproduction that the rules forbid, signals and idling change
/// nothing.
pub open spec fn action_step(v: SimView, k: int, a: Action, pos: Position, energy: int, post: SimView) -> bool {
    match a {
        Action::Move { dx, dy } => post == spec_move(v, k, pos, energy, dx as int, dy as int),
        Action::Eat => post == spec_eat(v, k),
        Action::Attack { amount, .. } => post == (if v.config.dynamic_rules.allow_combat {
            spec_attack(v, k, pos, energy, amount as int)
        } else {
            v
        }),
        Action::Reproduce => if v.config.dynamic_rules.allow_reproduction {
            spec_reproduce(v, k, energy, post)
        } else {
            post == v
        },
        _ => post == v,
    }
}

/// Starting a turn overflows: the basal payment, or the age.
pub open spec fn start_fails(v: SimView, k: int) -> bool {
    let o = v.organisms[k];
    let b = v.config.energy_config.basal_cost as int;
    !consume_fits(o.energy as int, b) || (o.energy >= b && o.age == u64::MAX)
}

/// The start of organism `k`'s turn: it pays its basal cost and ages by a
/// tick, and runs (`true`); without enough energy it drops to zero, its net
/// energy is recorded and it does not run (`false`).
pub open spec fn spec_start(v: SimView, k: int) -> (SimView, bool) {
    let o = v.organisms[k];
    let b = v.config.energy_config.basal_cost as int;
    if o.energy >= b {
        (with_org(v, k, o.consumed(b).ticked()), true)
    } else {
        (with_org(v, k, o.consumed(b).finalized(v.config.energy_config.initial_energy as int)), false)
    }
}

/// The energy charged for the fuel a step used: per started thousand
/// units (as `i32`), times the configured cost.
pub open spec fn instruction_cost(v: SimView, fuel: u64) -> int {
    (((fuel / 1000) as i32) as int) * v.config.energy_config.instruction_cost_per_k
}

/// Charging for the fuel overflows.
pub open spec fn cost_fails(v: SimView, k: int, fuel: u64) -> bool {
    !fits_i32(instruction_cost(v, fuel)) || !consume_fits(v.organisms[k].energy as int, instruction_cost(v, fuel))
}

/// The state after organism `k` pays for its fuel.
pub open spec fn after_cost(v: SimView, k: int, fuel: u64) -> SimView {
    with_org(v, k, v.organisms[k].consumed(instruction_cost(v, fuel)))
}

/// `trace` is a run of organism `k`'s first actions from `v0`: each is
/// decided on the cell the organism stands on when it comes and on
/// `energy`; every step is allowed and does not fail, and every state is
/// consistent.
pub open spec fn actions_trace(v0: SimView, k: int, actions: Seq<Action>, energy: int, trace: Seq<SimView>) -> bool {
    &&& 1 <= trace.len() <= actions.len() + 1
    &&& trace[0] == v0
    &&& forall|i: int| 0 <= i < trace.len() ==> sim_wf(#[trigger] trace[i]) && k < trace[i].organisms.len()
    &&& forall|i: int| 0 <= i < trace.len() - 1 ==> {
        &&& !action_fails(#[trigger] trace[i], k, actions[i], trace[i].organisms[k].position, energy)
        &&& action_step(trace[i], k, actions[i], trace[i].organisms[k].position, energy, trace[i + 1])
    }
}

// ---------------------------------------------------------------------------
// Hazards, deaths and results.

/// The position of a cell index.
pub open spec fn cell_position(v: SimView, c: int) -> Position {
    Position { x: (c % (v.width as int)) as i32, y: (c / (v.width as int)) as i32 }
}

/// An organism is recorded on a hazard cell.
pub open spec fn hazard_hit(v: SimView, c: int) -> bool {
    v.occupants[c] is Some && v.tiles[c].tile_type == TileType::Hazard
}

/// The organisms after the hazard damage of the first `n` cells: each
/// record on a hazard cell costs its organism (if it still exists) the
/// hazard damage.
pub open spec fn hazards_upto(v: SimView, n: int) -> Seq<OrganismView>
    decreases n,
{
    if n <= 0 {
        v.organisms
    } else {
        let prev = hazards_upto(v, n - 1);
        let i = index_of(v.organisms, v.occupants[n - 1]->0);
        if hazard_hit(v, n - 1) && i >= 0 {
            prev.update(i, prev[i].consumed(v.config.world_config.hazard_damage as int))
        } else {
            prev
        }
    }
}

/// Applying the hazard of cell `c` overflows: the tile lookup of a
/// recorded cell, or the damage to the organism.
pub open spec fn hazard_fails_at(v: SimView, c: int) -> bool {
    let i = index_of(v.organisms, v.occupants[c]->0);
    v.occupants[c] is Some && {
        ||| !wraps(v, cell_position(v, c))
        ||| (hazard_hit(v, c) && i >= 0
            && !consume_fits(hazards_upto(v, c)[i].energy as int, v.config.world_config.hazard_damage as int))
    }
}

/// The living organisms (energy above zero), in order.
pub open spec fn alive(orgs: Seq<OrganismView>) -> Seq<OrganismView>
    decreases orgs.len(),
{
    if orgs.len() == 0 {
        Seq::empty()
    } else if orgs.last().energy > 0 {
        alive(orgs.drop_last()).push(orgs.last())
    } else {
        alive(orgs.drop_last())
    }
}

/// The dead organisms (no energy left), in order.
pub open spec fn dead(orgs: Seq<OrganismView>) -> Seq<OrganismView>
    decreases orgs.len(),
{
    if orgs.len() == 0 {
        Seq::empty()
    } else if orgs.last().energy <= 0 {
        dead(orgs.drop_last()).push(orgs.last())
    } else {
        dead(orgs.drop_last())
    }
}

/// A dead organism stands on cell `c`.
pub open spec fn dead_cell(v: SimView, c: int) -> bool {
    exists|i: int| 0 <= i < v.organisms.len() && v.organisms[i].energy <= 0 && cell(v, v.organisms[i].position) == c
}

/// The metrics of the organisms of a lineage, in order.
pub open spec fn metrics_of(orgs: Seq<OrganismView>, l: LineageId) -> Seq<FitnessMetrics>
    decreases orgs.len(),
{
    if orgs.len() == 0 {
        Seq::empty()
    } else if orgs.last().lineage_id == l {
        metrics_of(orgs.drop_last(), l).push(orgs.last().metrics)
    } else {
        metrics_of(orgs.drop_last(), l)
    }
}

/// Some group of the results belongs to lineage `l`.
pub open spec fn has_group(stats: Seq<(LineageId, Vec<FitnessMetrics>)>, l: LineageId) -> bool {
    exists|g: int| 0 <= g < stats.len() && stats[g].0 == l
}

/// Some key is `l`.
pub open spec fn has_key(keys: Seq<LineageId>, l: LineageId) -> bool {
    exists|g: int| 0 <= g < keys.len() && keys[g] == l
}

/// The organisms with their net energy recorded.
pub open spec fn finalized_all(orgs: Seq<OrganismView>, initial_energy: int) -> Seq<OrganismView> {
    Seq::new(orgs.len(), |i: int| orgs[i].finalized(initial_energy))
}

/// `o` is a newborn organism of lineage `l` with genome `g` placed at `p`:
/// an in-grid cell where nobody is recorded and that is not an obstacle.
pub open spec fn spawned(v: SimView, l: LineageId, g: ProgramModel, o: OrganismView, p: Position) -> bool {
    &&& place_open(v, p)
    &&& uuid_v4_fixed_bits(o.id.0)
    &&& o.lineage_id == l
    &&& o.position == p
    &&& o.energy == v.config.energy_config.initial_energy
    &&& o.age == 0
    &&& o.genome == g
    &&& o.metrics == zero_metrics()
    &&& o.visited == Set::<u64>::empty().insert(position_key(p))
    &&& o.birth_tick == v.tick
}

/// A cell that can take a new organism: inside the grid, with nobody
/// recorded on it, and not an obstacle.
pub open spec fn place_open(v: SimView, p: Position) -> bool {
    &&& in_grid(v, p)
    &&& v.occupants[cell(v, p)] is None
    &&& v.tiles[cell(v, p)].tile_type != TileType::Obstacle
}

/// `post` is `v` with an organism of lineage `l` and genome `g` placed on
/// the cell of `p`.
pub open spec fn placed_at(v: SimView, l: LineageId, g: ProgramModel, p: Position, post: SimView) -> bool {
    exists|o: OrganismView| #[trigger] spawned(v, l, g, o, p) && post == (SimView {
        organisms: insert_org(v.organisms, o),
        occupants: v.occupants.update(cell(v, p), Some(o.id)),
        ..v
    })
}

/// `post` may follow `v` when an organism of lineage `l` with genome `g`
/// is spawned.
pub open spec fn spawn_step(v: SimView, l: LineageId, g: ProgramModel, post: SimView) -> bool {
    exists|o: OrganismView, p: Position| #[trigger] spawned(v, l, g, o, p) && post == (SimView {
        organisms: insert_org(v.organisms, o),
        occupants: v.occupants.update(cell(v, p), Some(o.id)),
        ..v
    })
}

/// No cell can take a new organism: every cell is recorded or an obstacle.
pub open spec fn world_full(v: SimView) -> bool {
    forall|c: int| 0 <= c < v.occupants.len() ==> v.occupants[c] is Some || v.tiles[c].tile_type == TileType::Obstacle
}

/// The state of a new simulation before any organism is spawned.
pub open spec fn fresh_state(config: JobConfig, tiles: Seq<Tile>) -> SimView {
    SimView {
        width: config.world_config.width,
        height: config.world_config.height,
        tiles,
        organisms: Seq::empty(),
        occupants: Seq::new(tiles.len(), |c: int| None),
        config,
        mutation: default_mutation_config(),
        compiler: CompilerConfig { max_memory_pages: 1, import_memory: false },
        tick: 0,
        reproduction_attempts: 0,
        reproduction_successes: 0,
        total_offspring_born: 0,
    }
}

/// The genomes as plain values.
pub open spec fn genome_views(g: Seq<(LineageId, Program)>) -> Seq<(LineageId, ProgramModel)> {
    g.map_values(|e: (LineageId, Program)| (e.0, e.1@))
}

/// `trace` spawns the genomes one after the other.
pub open spec fn spawn_trace(genomes: Seq<(LineageId, ProgramModel)>, trace: Seq<SimView>) -> bool {
    &&& trace.len() == genomes.len() + 1
    &&& forall|i: int| 0 <= i < genomes.len() ==> #[trigger] spawn_step(trace[i], genomes[i].0, genomes[i].1, trace[i + 1])
}

/// The statistics of the organisms (only those born after the first tick
/// when `only_late`), adding them one by one in order.
pub open spec fn spec_tally(orgs: Seq<OrganismView>, only_late: bool) -> Tally
    decreases orgs.len(),
{
    if orgs.len() == 0 {
        Tally {
            count: 0,
            born_late: 0,
            parents: 0,
            energy_sum: 0,
            age_sum: 0,
            offspring_sum: 0,
            max_energy: 0,
            min_energy: 0,
            max_age: 0,
            max_offspring: 0,
        }
    } else {
        let t = spec_tally(orgs.drop_last(), only_late);
        let o = orgs.last();
        if only_late && o.birth_tick <= 1 {
            t
        } else {
            let first = t.count == 0;
            Tally {
                count: (t.count + 1) as usize,
                born_late: (t.born_late + (if o.birth_tick > 1 { 1int } else { 0int })) as usize,
                parents: (t.parents + (if o.metrics.offspring_count > 0 { 1int } else { 0int })) as usize,
                energy_sum: (t.energy_sum + o.energy) as i128,
                age_sum: (t.age_sum + o.age) as u128,
                offspring_sum: (t.offspring_sum + o.metrics.offspring_count) as u128,
                max_energy: if first || o.energy > t.max_energy { o.energy } else { t.max_energy },
                min_energy: if first || o.energy < t.min_energy { o.energy } else { t.min_energy },
                max_age: if first || o.age > t.max_age { o.age } else { t.max_age },
                max_offspring: if first || o.metrics.offspring_count > t.max_offspring {
                    o.metrics.offspring_count
                } else {
                    t.max_offspring
                },
            }
        }
    }
}

/// The tally's counts and sums stay within the bounds of `n` organisms.
pub open spec fn tally_bounded(t: Tally, n: int) -> bool {
    &&& t.count <= n
    &&& t.born_late <= t.count
    &&& t.parents <= t.count
    &&& -0x8000_0000 * t.count <= t.energy_sum <= 0x7fff_ffff * t.count
    &&& t.age_sum <= 0xffff_ffff_ffff_ffff * t.count
    &&& t.offspring_sum <= 0xffff_ffff * t.count
}

// ---------------------------------------------------------------------------
// Proof helpers.

/// The living organisms are organisms of the given sequence, so they
/// keep distinct identifiers.
pub proof fn lemma_alive_keeps(orgs: Seq<OrganismView>)
    requires
        ids_distinct(orgs),
    ensures
        forall|k: int| 0 <= k < alive(orgs).len() ==> exists|i: int| 0 <= i < orgs.len() && orgs[i] == #[trigger] alive(orgs)[k],
        ids_distinct(alive(orgs)),
        alive(orgs).len() <= orgs.len(),
    decreases orgs.len(),
{
    if orgs.len() > 0 {
        let init = orgs.drop_last();
        assert forall|i: int, j: int| 0 <= i < init.len() && 0 <= j < init.len() && i != j implies init[i].id != init[j].id by {
            assert(init[i] == orgs[i] && init[j] == orgs[j]);
        }
        lemma_alive_keeps(init);
        let a = alive(orgs);
        assert forall|k: int| 0 <= k < a.len() implies exists|i: int| 0 <= i < orgs.len() && orgs[i] == #[trigger] a[k] by {
            if k < alive(init).len() {
                assert(a[k] == alive(init)[k]);
                let i = choose|i: int| 0 <= i < init.len() && init[i] == alive(init)[k];
                assert(orgs[i] == init[i]);
            } else {
                assert(orgs[orgs.len() - 1] == a[k]);
            }
        }
        if orgs.last().energy > 0 {
            assert forall|i: int, j: int| 0 <= i < a.len() && 0 <= j < a.len() && i != j implies a[i].id != a[j].id by {
                if i < alive(init).len() && j < alive(init).len() {
                    assert(a[i] == alive(init)[i] && a[j] == alive(init)[j]);
                } else if i < alive(init).len() {
                    let x = choose|x: int| 0 <= x < init.len() && init[x] == alive(init)[i];
                    assert(orgs[x] == init[x]);
                    assert(a[j] == orgs[orgs.len() - 1]);
                } else {
                    let x = choose|x: int| 0 <= x < init.len() && init[x] == alive(init)[j];
                    assert(orgs[x] == init[x]);
                    assert(a[i] == orgs[orgs.len() - 1]);
                }
            }
        }
    }
}

/// A lineage with no organism has no metrics.
pub proof fn lemma_metrics_of_absent(orgs: Seq<OrganismView>, l: LineageId)
    requires
        forall|j: int| 0 <= j < orgs.len() ==> orgs[j].lineage_id != l,
    ensures
        metrics_of(orgs, l) == Seq::<FitnessMetrics>::empty(),
    decreases orgs.len(),
{
    if orgs.len() > 0 {
        lemma_metrics_of_absent(orgs.drop_last(), l);
    }
}

/// Recording net energies keeps a state consistent.
pub proof fn lemma_finalized_keeps(v: SimView)
    requires
        sim_wf(v),
    ensures
        sim_wf(SimView { organisms: finalized_all(v.organisms, v.config.energy_config.initial_energy as int), ..v }),
{
    let f = finalized_all(v.organisms, v.config.energy_config.initial_energy as int);
    assert forall|i: int, j: int| 0 <= i < f.len() && 0 <= j < f.len() && i != j implies f[i].id != f[j].id by {
        assert(f[i].id == v.organisms[i].id && f[j].id == v.organisms[j].id);
    }
    let w = SimView { organisms: f, ..v };
    assert forall|k: int| 0 <= k < f.len() implies in_grid(w, (#[trigger] f[k]).position) by {
        assert(f[k].position == v.organisms[k].position);
    }
    assert forall|k: int| 0 <= k < f.len() implies (#[trigger] f[k]).genome.functions.len() < usize::MAX by {
        assert(f[k].genome == v.organisms[k].genome);
    }
}

/// Closed neighbours before `j` do not change the first open one.
pub proof fn lemma_first_open_slot(v: SimView, p: Position, i: int, j: int)
    requires
        0 <= i <= j,
        forall|m: int| i <= m < j ==> !slot_open(v, p, m),
    ensures
        first_open_slot(v, p, i) == first_open_slot(v, p, j),
    decreases j - i,
{
    if i < j {
        lemma_first_open_slot(v, p, i + 1, j);
    }
}

/// With distinct identifiers, an organism is found at its own index.
pub proof fn lemma_index_of(orgs: Seq<OrganismView>, i: int)
    requires
        ids_distinct(orgs),
        0 <= i < orgs.len(),
    ensures
        index_of(orgs, orgs[i].id) == i,
{
}

/// An identifier that no organism has is not found.
pub proof fn lemma_index_of_absent(orgs: Seq<OrganismView>, id: OrganismId)
    requires
        forall|i: int| 0 <= i < orgs.len() ==> orgs[i].id != id,
    ensures
        index_of(orgs, id) == -1,
{
}

/// Replacing one organism replaces its view.
pub proof fn lemma_orgs_view_update(s: Seq<Organism>, k: int, o: Organism)
    requires
        0 <= k < s.len(),
    ensures
        orgs_view(s.update(k, o)) == orgs_view(s).update(k, o@),
{
    assert(orgs_view(s.update(k, o)) =~= orgs_view(s).update(k, o@));
}

/// Appending one organism appends its view.
pub proof fn lemma_orgs_view_push(s: Seq<Organism>, o: Organism)
    ensures
        orgs_view(s.push(o)) == orgs_view(s).push(o@),
{
    assert(orgs_view(s.push(o)) =~= orgs_view(s).push(o@));
}

/// An in-grid position has a cell inside the grid, and wrapping leaves it
/// in place when it can be done.
pub proof fn lemma_in_grid_cell(v: SimView, p: Position)
    requires
        in_grid(v, p),
    ensures
        0 <= cell(v, p) < v.width * v.height,
        wraps(v, p) ==> wrapped(v, p) == p,
{
    assert(0 <= p.y * v.width + p.x < v.width * v.height) by (nonlinear_arith)
        requires 0 <= p.x < v.width, 0 <= p.y < v.height;
    if wraps(v, p) {
        crate::arith::lemma_wrap_is_euclid_mod(p.x as int, v.width as int);
        crate::arith::lemma_wrap_is_euclid_mod(p.y as int, v.height as int);
        vstd::arithmetic::div_mod::lemma_small_mod(p.x as nat, v.width as nat);
        vstd::arithmetic::div_mod::lemma_small_mod(p.y as nat, v.height as nat);
    }
}

/// A wrapped position lies inside a grid with positive dimensions.
pub proof fn lemma_wrapped_in_grid(v: SimView, p: Position)
    requires
        v.width > 0,
        v.height > 0,
        wraps(v, p),
    ensures
        in_grid(v, wrapped(v, p)),
{
    crate::arith::lemma_wrap_is_euclid_mod(p.x as int, v.width as int);
    crate::arith::lemma_wrap_is_euclid_mod(p.y as int, v.height as int);
}

/// Whether a position wraps without overflow.
fn position_wraps(p: Position, width: i32, height: i32) -> (r: bool)
    ensures
        r == p.wrap_ok(width as int, height as int),
{
    p.wraps_in(width, height)
}

/// A reproduction of organism `k` on `energy` goes ahead and finds a free
/// neighbouring cell: only then is the generator drawn from (for the
/// child's mutation and identifier).
pub open spec fn reproduction_draws(v: SimView, k: int, energy: int) -> bool {
    !repro_blocked(v, energy) && first_open_slot(v, v.organisms[k].position, 0) >= 0
}

/// A hundred cells of the grid were tried for a spawn and none could take
/// an organism.
pub open spec fn no_spawn_found(v: SimView) -> bool {
    exists|tried: Seq<Position>| {
        &&& tried.len() == 100
        &&& forall|i: int| 0 <= i < 100 ==> in_grid(v, #[trigger] tried[i]) && !place_open(v, tried[i])
    }
}

/// The message of a spawn that found no cell.
pub open spec fn spawn_failed_message() -> Seq<char> {
    "Failed to find spawn position"@
}

/// The error of an arithmetic overflow, where unchecked arithmetic would
/// panic.
fn overflow_error() -> (r: Error)
    ensures
        r is Other,
{
    Error::Other("arithmetic overflow".to_string())
}

impl Simulation {
    /// The consistency invariant.
    pub open spec fn wf(&self) -> bool {
        sim_wf(self@)
    }

    /// The cell index of an in-grid position.
    fn cell_index(&self, p: Position) -> (r: usize)
        requires
            sim_wf(self@),
            in_grid(self@, p),
        ensures
            r == cell(self@, p),
            r < self.occupants@.len(),
    {
        proof { lemma_in_grid_cell(self@, p); }
        (p.y * self.grid.width + p.x) as usize
    }

    /// Whether a position wraps into the grid without overflow.
    fn wraps(&self, p: Position) -> (r: bool)
        ensures
            r == wraps(self@, p),
    {
        position_wraps(p, self.grid.width, self.grid.height)
    }

    /// Replace organism `k` by a new value.
    fn put_organism(&mut self, k: usize, o: Organism)
        requires
            k < old(self).organisms@.len(),
        ensures
            final(self)@ == with_org(old(self)@, k as int, o@),
    {
        proof { lemma_orgs_view_update(self.organisms@, k as int, o); }
        self.organisms.set(k, o);
    }

    /// The index of the organism with an identifier.
    fn find_organism(&self, id: OrganismId) -> (r: Option<usize>)
        requires
            sim_wf(self@),
        ensures
            r matches Some(i) ==> i < self@.organisms.len() && i == index_of(self@.organisms, id),
            r is None ==> index_of(self@.organisms, id) == -1,
    {
        let mut i: usize = 0;
        while i < self.organisms.len()
            invariant
                sim_wf(self@),
                i <= self.organisms@.len(),
                forall|j: int| 0 <= j < i ==> self@.organisms[j].id != id,
            decreases self.organisms@.len() - i,
        {
            if self.organisms[i].id == id {
                proof { lemma_index_of(self@.organisms, i as int); }
                return Some(i);
            }
            i += 1;
        }
        proof { lemma_index_of_absent(self@.organisms, id); }
        None
    }

    /// Whether every position within one step of an in-grid position wraps.
    fn nbhd_fits(&self, pos: Position) -> (r: bool)
        requires
            sim_wf(self@),
            in_grid(self@, pos),
        ensures
            r == nbhd_wraps(self@, pos),
    {
        let mut ok = true;
        let mut b: i32 = -1;
        while b <= 1
            invariant
                sim_wf(self@),
                in_grid(self@, pos),
                -1 <= b <= 2,
                ok == forall|a: int, c: int| -1 <= a <= 1 && -1 <= c < b ==> wraps(self@, #[trigger] pos.spec_add(a, c)),
            decreases 2 - b,
        {
            let mut a: i32 = -1;
            while a <= 1
                invariant
                    sim_wf(self@),
                    in_grid(self@, pos),
                    -1 <= b <= 1,
                    -1 <= a <= 2,
                    ok == ((forall|x: int, c: int| -1 <= x <= 1 && -1 <= c < b ==> wraps(self@, #[trigger] pos.spec_add(x, c)))
                        && (forall|x: int| -1 <= x < a ==> wraps(self@, #[trigger] pos.spec_add(x, b as int)))),
                decreases 2 - a,
            {
                let q = pos.add(a, b);
                if !self.wraps(q) {
                    ok = false;
                }
                a += 1;
            }
            b += 1;
        }
        ok
    }

    /// Organism `k` eats (see `spec_eat`).
    fn do_eat(&mut self, k: usize) -> (r: Result<(), Error>)
        requires
            sim_wf(old(self)@),
            k < old(self)@.organisms.len(),
        ensures
            r is Err <==> eat_fails(old(self)@, k as int),
            r is Err ==> r matches Err(Error::Other(_)),
            r is Ok ==> final(self)@ == spec_eat(old(self)@, k as int),
            r is Ok ==> sim_wf(final(self)@),
            final(self).rng == old(self).rng,
    {
        let ghost v = self@;
        let p = self.organisms[k].position;
        assert(p == v.organisms[k as int].position);
        if !self.wraps(p) {
            return Err(overflow_error());
        }
        proof { lemma_in_grid_cell(v, p); }
        let c = self.cell_index(p);
        let t = self.grid.tiles[c];
        if t.tile_type == TileType::Resource && t.resource_amount > 0 {
            let consumed = if t.resource_amount < MAX_BITE { t.resource_amount } else { MAX_BITE };
            let gain = self.config.energy_config.eat_gain[consumed as usize];
            if self.organisms[k].energy.checked_add(gain).is_none() || self.organisms[k].metrics.times_eaten == u32::MAX {
                return Err(overflow_error());
            }
            self.grid.tiles.set(c, Tile { resource_amount: t.resource_amount - consumed, ..t });
            self.organisms[k].add_energy(gain);
            self.organisms[k].record_meal();
            proof {
                assert(orgs_view(self.organisms@) =~= v.organisms.update(k as int, v.organisms[k as int].gained(gain as int).ate()));
            }
        }
        Ok(())
    }

    /// Organism `k` attacks (see `spec_attack`).
    fn do_attack(&mut self, k: usize, pos: Position, energy: i32, amount: i32) -> (r: Result<(), Error>)
        requires
            sim_wf(old(self)@),
            k < old(self)@.organisms.len(),
            in_grid(old(self)@, pos),
        ensures
            r is Err <==> attack_fails(old(self)@, k as int, pos, energy as int, amount as int),
            r is Err ==> r matches Err(Error::Other(_)),
            r is Ok ==> final(self)@ == spec_attack(old(self)@, k as int, pos, energy as int, amount as int),
            r is Ok ==> sim_wf(final(self)@),
            final(self).rng == old(self).rng,
    {
        let ghost v = self@;
        let cost = self.config.energy_config.attack_cost;
        if energy < cost {
            return Ok(());
        }
        if !self.nbhd_fits(pos) {
            return Err(overflow_error());
        }
        let tp = pos.add(-1, -1);
        if tp.x < 0 || tp.y < 0 {
            return Ok(());
        }
        let tc = self.cell_index(tp);
        let tid = match self.occupants[tc] {
            Some(id) => id,
            None => return Ok(()),
        };
        let ghost ti = attack_victim(v, pos);
        let mut died = false;
        match self.find_organism(tid) {
            Some(i) => {
                let te = self.organisms[i].energy;
                if self.organisms[i].metrics.damage_received.checked_add(amount as i64).is_none()
                    || (te >= amount && te.checked_sub(amount).is_none()) {
                    return Err(overflow_error());
                }
                self.organisms[i].record_damage_received(amount);
                self.organisms[i].consume_energy(amount);
                died = self.organisms[i].energy <= 0;
                proof {
                    assert(orgs_view(self.organisms@) =~= v.organisms.update(i as int, v.organisms[i as int].received(amount as int).consumed(amount as int)));
                }
            },
            None => {},
        }
        let ghost v1 = self@;
        assert(v1 == after_hit(v, pos, amount as int));
        assert(died == victim_died(v, pos, amount as int));
        let ae = self.organisms[k].energy;
        if (ae >= cost && ae.checked_sub(cost).is_none())
            || self.organisms[k].metrics.damage_dealt.checked_add(amount as i64).is_none()
            || (died && self.organisms[k].metrics.kills == u32::MAX) {
            return Err(overflow_error());
        }
        self.organisms[k].consume_energy(cost);
        self.organisms[k].record_damage_dealt(amount);
        if died {
            self.organisms[k].record_kill();
        }
        proof {
            let a = v1.organisms[k as int].consumed(cost as int).dealt(amount as int);
            assert(orgs_view(self.organisms@) =~= v1.organisms.update(k as int, if died { a.killed() } else { a }));
        }
        Ok(())
    }

    /// Apply one action of organism `k`, decided on the cell `pos` and the
    /// energy it had when its actions began (see `action_step`). From the
    /// organism's own cell it keeps one organism per cell.
    pub fn apply_action(&mut self, k: usize, action: Action, pos: Position, energy: i32) -> (r: Result<(), Error>)
        requires
            sim_wf(old(self)@),
            k < old(self)@.organisms.len(),
            in_grid(old(self)@, pos),
        ensures
            r is Err <==> action_fails(old(self)@, k as int, action, pos, energy as int),
            r is Err ==> r matches Err(Error::Other(_)),
            r is Ok ==> action_step(old(self)@, k as int, action, pos, energy as int, final(self)@),
            r is Ok ==> sim_wf(final(self)@) && k < final(self)@.organisms.len(),
            r is Ok && occupancy_ok(old(self)@) && pos == old(self)@.organisms[k as int].position
                ==> occupancy_ok(final(self)@),
            !(action is Reproduce && old(self)@.config.dynamic_rules.allow_reproduction
                && reproduction_draws(old(self)@, k as int, energy as int))
                ==> final(self).rng == old(self).rng,
            r is Ok && occupancy_ok(old(self)@)
                && (move_taken(old(self)@, action, pos, energy as int) ==> no_other_on(old(self)@, k as int, pos))
                ==> occupancy_ok(final(self)@),
    {
        let ghost v = self@;
        let r = match action {
            Action::Move { dx, dy } => self.do_move(k, pos, energy, dx, dy),
            Action::Eat => self.do_eat(k),
            Action::Attack { target_slot: _, amount } => {
                if self.config.dynamic_rules.allow_combat {
                    self.do_attack(k, pos, energy, amount)
                } else {
                    Ok(())
                }
            },
            Action::Reproduce => {
                if self.config.dynamic_rules.allow_reproduction {
                    self.do_reproduce(k, energy)
                } else {
                    Ok(())
                }
            },
            _ => Ok(()),
        };
        proof {
            if occupancy_ok(v) && pos == v.organisms[k as int].position {
                lemma_own_cell_alone(v, k as int);
            }
            if r is Ok && occupancy_ok(v) && (move_taken(v, action, pos, energy as int) ==> no_other_on(v, k as int, pos)) {
                lemma_action_keeps_occupancy(v, k as int, action, pos, energy as int, self@);
            }
        }
        r
    }

    /// Start organism `k`'s turn (see `spec_start`): whether it runs.
    pub fn start_turn(&mut self, k: usize) -> (r: Result<bool, Error>)
        requires
            sim_wf(old(self)@),
            k < old(self)@.organisms.len(),
        ensures
            r is Err <==> start_fails(old(self)@, k as int),
            r is Err ==> r matches Err(Error::Other(_)),
            r matches Ok(runs) ==> (final(self)@, runs) == spec_start(old(self)@, k as int) && sim_wf(final(self)@),
            r is Ok && occupancy_ok(old(self)@) ==> occupancy_ok(final(self)@),
            r is Ok && records_ok(old(self)@) ==> records_ok(final(self)@),
    {
        let ghost v = self@;
        let basal = self.config.energy_config.basal_cost;
        let e = self.organisms[k].energy;
        if (e >= basal && e.checked_sub(basal).is_none()) || (e >= basal && self.organisms[k].age == u64::MAX) {
            return Err(overflow_error());
        }
        if !self.organisms[k].consume_energy(basal) {
            let initial = self.config.energy_config.initial_energy;
            self.organisms[k].finalize_metrics(initial);
            proof {
                assert(orgs_view(self.organisms@) =~= v.organisms.update(k as int, v.organisms[k as int].consumed(basal as int).finalized(initial as int)));
                if occupancy_ok(v) { lemma_start_keeps_occupancy(v, k as int); }
                if records_ok(v) { lemma_start_keeps_records(v, k as int); }
            }
            return Ok(false);
        }
        self.organisms[k].tick();
        proof {
            assert(orgs_view(self.organisms@) =~= v.organisms.update(k as int, v.organisms[k as int].consumed(basal as int).ticked()));
            if occupancy_ok(v) { lemma_start_keeps_occupancy(v, k as int); }
                if records_ok(v) { lemma_start_keeps_records(v, k as int); }
        }
        Ok(true)
    }

    /// Finish organism `k`'s turn after its step used `fuel_used` and
    /// queued `actions`: it pays for the fuel, then applies the actions in
    /// order, each from the cell it stands on at that moment and decided on
    /// the energy it had after paying. On success the final state ends a run
    /// of all the actions, and one organism per cell still holds; on failure
    /// the payment or one action along such a run failed.
    #[verifier::spinoff_prover]
    pub fn finish_turn(&mut self, k: usize, fuel_used: u64, actions: &Vec<Action>) -> (r: Result<(), Error>)
        requires
            sim_wf(old(self)@),
            k < old(self)@.organisms.len(),
        ensures
            r is Ok ==> exists|trace: Seq<SimView>| {
                &&& #[trigger] actions_trace(
                    after_cost(old(self)@, k as int, fuel_used),
                    k as int,
                    actions@,
                    energy_after_consume(old(self)@.organisms[k as int].energy as int, instruction_cost(old(self)@, fuel_used)),
                    trace,
                )
                &&& trace.len() == actions@.len() + 1
                &&& trace.last() == final(self)@
            },
            r is Ok ==> sim_wf(final(self)@) && k < final(self)@.organisms.len(),
            r is Ok && occupancy_ok(old(self)@) ==> occupancy_ok(final(self)@),
            r is Ok && occupancy_ok(old(self)@) && records_ok(old(self)@) && births_fresh(old(self)@, final(self)@)
                ==> records_ok(final(self)@),
            r is Err ==> r matches Err(Error::Other(_)),
            r is Err ==> cost_fails(old(self)@, k as int, fuel_used) || exists|trace: Seq<SimView>| {
                &&& #[trigger] actions_trace(
                    after_cost(old(self)@, k as int, fuel_used),
                    k as int,
                    actions@,
                    energy_after_consume(old(self)@.organisms[k as int].energy as int, instruction_cost(old(self)@, fuel_used)),
                    trace,
                )
                &&& trace.len() <= actions@.len()
                &&& action_fails(
                    trace.last(),
                    k as int,
                    actions@[trace.len() - 1],
                    trace.last().organisms[k as int].position,
                    energy_after_consume(old(self)@.organisms[k as int].energy as int, instruction_cost(old(self)@, fuel_used)),
                )
            },
    {
        let ghost v = self@;
        let per_k = self.config.energy_config.instruction_cost_per_k;
        let units = (fuel_used / 1000) as i32;
        let cost = match units.checked_mul(per_k) {
            Some(c) => c,
            None => return Err(overflow_error()),
        };
        assert(cost == instruction_cost(v, fuel_used));
        let e = self.organisms[k].energy;
        if e >= cost && e.checked_sub(cost).is_none() {
            return Err(overflow_error());
        }
        self.organisms[k].consume_energy(cost);
        proof {
            assert(orgs_view(self.organisms@) =~= v.organisms.update(k as int, v.organisms[k as int].consumed(cost as int)));
        }
        let energy = self.organisms[k].energy;
        let ghost v0 = self@;
        assert(v0 == after_cost(v, k as int, fuel_used));
        let ghost mut trace: Seq<SimView> = seq![v0];
        let mut i: usize = 0;
        while i < actions.len()
            invariant
                i <= actions@.len(),
                trace.len() == i + 1,
                actions_trace(v0, k as int, actions@, energy as int, trace),
                trace.last() == self@,
                sim_wf(self@),
                k < self@.organisms.len(),
                v0 == after_cost(v, k as int, fuel_used),
                energy == energy_after_consume(v.organisms[k as int].energy as int, instruction_cost(v, fuel_used)),
                old(self)@ == v,
                !cost_fails(v, k as int, fuel_used),
            decreases actions@.len() - i,
        {
            let ghost before = self@;
            let a = actions[i];
            let pos = self.organisms[k].position;
            assert(pos == before.organisms[k as int].position);
            let res = self.apply_action(k, a, pos, energy);
            if res.is_err() {
                proof {
                    assert(action_fails(trace.last(), k as int, actions@[trace.len() - 1], trace.last().organisms[k as int].position, energy as int));
                    assert(actions_trace(v0, k as int, actions@, energy as int, trace));
                }
                return res;
            }
            proof {
                let t2 = trace.push(self@);
                assert forall|j: int| 0 <= j < t2.len() implies sim_wf(#[trigger] t2[j]) && k < t2[j].organisms.len() by {
                    if j < trace.len() { assert(t2[j] == trace[j]); }
                }
                assert forall|j: int| 0 <= j < t2.len() - 1 implies {
                    &&& !action_fails(#[trigger] t2[j], k as int, actions@[j], t2[j].organisms[k as int].position, energy as int)
                    &&& action_step(t2[j], k as int, actions@[j], t2[j].organisms[k as int].position, energy as int, t2[j + 1])
                } by {
                    if j < trace.len() - 1 {
                        assert(t2[j] == trace[j]);
                        assert(t2[j + 1] == trace[j + 1]);
                    } else {
                        assert(t2[j] == before);
                    }
                }
                trace = t2;
            }
            i += 1;
        }
        proof {
            if occupancy_ok(v) {
                lemma_cost_keeps_occupancy(v, k as int, fuel_used);
                lemma_turn_keeps_occupancy(v0, k as int, actions@, energy as int, trace);
                if records_ok(v) && births_fresh(v, self@) {
                    lemma_cost_keeps_records(v, k as int, fuel_used);
                    lemma_turn_keeps_records(v0, k as int, actions@, energy as int, trace);
                }
            }
        }
        Ok(())
    }

    /// Every organism recorded on a hazard cell takes the hazard damage,
    /// once per record (see `hazards_upto`). Fails if a lookup or a
    /// payment overflows.
    #[verifier::spinoff_prover]
    pub fn apply_hazards(&mut self) -> (r: Result<(), Error>)
        requires
            sim_wf(old(self)@),
        ensures
            r is Err <==> exists|c: int| 0 <= c < old(self)@.occupants.len() && #[trigger] hazard_fails_at(old(self)@, c),
            r is Err ==> r matches Err(Error::Other(_)),
            r is Ok ==> final(self)@ == (SimView {
                organisms: hazards_upto(old(self)@, old(self)@.occupants.len() as int),
                ..old(self)@
            }),
            r is Ok ==> sim_wf(final(self)@),
            r is Ok && occupancy_ok(old(self)@) ==> occupancy_ok(final(self)@),
            r is Ok && records_ok(old(self)@) ==> records_ok(final(self)@),
    {
        let ghost v = self@;
        let damage = self.config.world_config.hazard_damage;
        let n = self.occupants.len();
        let mut c: usize = 0;
        while c < n
            invariant
                n == v.occupants.len(),
                c <= n,
                self@ == (SimView { organisms: hazards_upto(v, c as int), ..v }),
                sim_wf(v),
                sim_wf(self@),
                damage == v.config.world_config.hazard_damage,
                forall|i: int| 0 <= i < v.organisms.len() ==> (#[trigger] self@.organisms[i]).id == v.organisms[i].id,
                self@.organisms.len() == v.organisms.len(),
                forall|j: int| 0 <= j < c ==> !#[trigger] hazard_fails_at(v, j),
                old(self)@ == v,
            decreases n - c,
        {
            let ghost before = self@;
            if let Some(id) = self.occupants[c] {
                proof {
                    assert(v.width > 0 && v.height > 0) by (nonlinear_arith)
                        requires 0 <= c < v.width * v.height, v.width >= 0, v.height >= 0;
                    crate::world::grid::lemma_cell_of_index(c as int, v.width as int, v.height as int);
                }
                let p = self.grid.index_to_pos(c);
                assert(p == cell_position(v, c as int));
                if !self.wraps(p) {
                    assert(hazard_fails_at(v, c as int));
                    return Err(overflow_error());
                }
                proof {
                    lemma_in_grid_cell(v, p);
                    assert(cell(v, p) == c) by (nonlinear_arith)
                        requires
                            p.x == (c as int) % (v.width as int),
                            p.y == (c as int) / (v.width as int),
                            v.width > 0,
                            cell(v, p) == p.y * v.width + p.x;
                    vstd::arithmetic::div_mod::lemma_fundamental_div_mod(c as int, v.width as int);
                }
                let hazardous = self.grid.get(p).tile_type == TileType::Hazard;
                if hazardous {
                    let found = self.find_organism(id);
                    proof {
                        assert forall|i: int| 0 <= i < self@.organisms.len() implies (self@.organisms[i].id == id <==> v.organisms[i].id == id) by {}
                        if index_of(v.organisms, id) >= 0 {
                            lemma_index_of(self@.organisms, index_of(v.organisms, id));
                        } else {
                            lemma_index_of_absent(self@.organisms, id);
                        }
                        assert(index_of(self@.organisms, id) == index_of(v.organisms, id));
                    }
                    if let Some(i) = found {
                        let e = self.organisms[i].energy;
                        if e >= damage && e.checked_sub(damage).is_none() {
                            assert(hazard_fails_at(v, c as int));
                            return Err(overflow_error());
                        }
                        self.organisms[i].consume_energy(damage);
                        proof {
                            assert(orgs_view(self.organisms@) =~= before.organisms.update(i as int, before.organisms[i as int].consumed(damage as int)));
                        }
                    }
                }
            }
            proof {
                assert(!hazard_fails_at(v, c as int));
                assert(hazards_upto(v, c + 1) == if hazard_hit(v, c as int) && index_of(v.organisms, v.occupants[c as int]->0) >= 0 {
                    hazards_upto(v, c as int).update(
                        index_of(v.organisms, v.occupants[c as int]->0),
                        hazards_upto(v, c as int)[index_of(v.organisms, v.occupants[c as int]->0)].consumed(damage as int),
                    )
                } else {
                    hazards_upto(v, c as int)
                });
            }
            c += 1;
        }
        proof {
            if occupancy_ok(v) { lemma_hazards_keep_occupancy(v); }
            if records_ok(v) { lemma_hazards_keep_records(v); }
        }
        Ok(())
    }

    /// Remove the organisms without energy, in order, and clear the
    /// records of the cells they stand on; the removed organisms are
    /// handed back.
    #[verifier::spinoff_prover]
    pub fn remove_dead_organisms(&mut self) -> (r: Vec<Organism>)
        requires
            sim_wf(old(self)@),
        ensures
            orgs_view(r@) == dead(old(self)@.organisms),
            final(self)@ == (SimView {
                organisms: alive(old(self)@.organisms),
                occupants: Seq::new(
                    old(self)@.occupants.len(),
                    |c: int| if dead_cell(old(self)@, c) { None } else { old(self)@.occupants[c] },
                ),
                ..old(self)@
            }),
            sim_wf(final(self)@),
            occupancy_ok(old(self)@) ==> occupancy_ok(final(self)@),
            records_ok(old(self)@) ==> records_ok(final(self)@),
    {
        let ghost v = self@;
        let mut all: Vec<Organism> = Vec::new();
        std::mem::swap(&mut all, &mut self.organisms);
        assert(same_but_population(self@, v));
        let ghost orig = all@;
        let n = all.len();
        assert(orgs_view(orig) == v.organisms);
        // Reverse the organisms, so that popping yields them in order.
        let mut rev: Vec<Organism> = Vec::new();
        while all.len() > 0
            invariant
                all@ == orig.subrange(0, all@.len() as int),
                n == orig.len(),
                rev@.len() == n - all@.len(),
                forall|j: int| 0 <= j < rev@.len() ==> #[trigger] rev@[j] == orig[n - 1 - j],
            decreases all@.len(),
        {
            let o = all.pop().unwrap();
            rev.push(o);
        }
        let mut living: Vec<Organism> = Vec::new();
        let mut removed: Vec<Organism> = Vec::new();
        let mut t: usize = 0;
        while rev.len() > 0
            invariant
                n == orig.len(),
                rev@.len() == n - t,
                t <= n,
                forall|j: int| 0 <= j < rev@.len() ==> #[trigger] rev@[j] == orig[n - 1 - j],
                orgs_view(living@) == alive(v.organisms.take(t as int)),
                orgs_view(removed@) == dead(v.organisms.take(t as int)),
                orgs_view(orig) == v.organisms,
                sim_wf(v),
                self.organisms@.len() == 0,
                same_but_population(self@, v),
                self.occupants@.len() == v.occupants.len(),
                forall|c: int| 0 <= c < v.occupants.len() ==> #[trigger] self.occupants@[c] == (
                    if exists|i: int| 0 <= i < t && v.organisms[i].energy <= 0 && cell(v, v.organisms[i].position) == c {
                        None
                    } else {
                        v.occupants[c]
                    }),
            decreases rev@.len(),
        {
            let o = rev.pop().unwrap();
            assert(o == orig[t as int]);
            assert(o@ == v.organisms[t as int]);
            proof {
                assert(v.organisms.take(t + 1).drop_last() =~= v.organisms.take(t as int));
                assert(v.organisms.take(t + 1).last() == v.organisms[t as int]);
            }
            if o.energy > 0 {
                proof { lemma_orgs_view_push(living@, o); }
                living.push(o);
                proof {
                    assert forall|c: int| 0 <= c < v.occupants.len() implies #[trigger] self.occupants@[c] == (
                        if exists|i: int| 0 <= i < t + 1 && v.organisms[i].energy <= 0 && cell(v, v.organisms[i].position) == c {
                            None
                        } else {
                            v.occupants[c]
                        }) by {
                        if exists|i: int| 0 <= i < t + 1 && v.organisms[i].energy <= 0 && cell(v, v.organisms[i].position) == c {
                            let i = choose|i: int| 0 <= i < t + 1 && v.organisms[i].energy <= 0 && cell(v, v.organisms[i].position) == c;
                            assert(i < t);
                        }
                    }
                }
            } else {
                proof {
                    lemma_in_grid_cell(v, o.position);
                    assert(0 <= o.position.y * v.width <= o.position.y * v.width + o.position.x) by (nonlinear_arith)
                        requires 0 <= o.position.y, 0 <= o.position.x, v.width >= 0;
                }
                let pc = (o.position.y * self.grid.width + o.position.x) as usize;
                self.occupants.set(pc, None);
                proof { lemma_orgs_view_push(removed@, o); }
                removed.push(o);
                proof {
                    assert forall|c: int| 0 <= c < v.occupants.len() implies #[trigger] self.occupants@[c] == (
                        if exists|i: int| 0 <= i < t + 1 && v.organisms[i].energy <= 0 && cell(v, v.organisms[i].position) == c {
                            None
                        } else {
                            v.occupants[c]
                        }) by {
                        if c == pc {
                            assert(v.organisms[t as int].energy <= 0 && cell(v, v.organisms[t as int].position) == c);
                        } else if exists|i: int| 0 <= i < t + 1 && v.organisms[i].energy <= 0 && cell(v, v.organisms[i].position) == c {
                            let i = choose|i: int| 0 <= i < t + 1 && v.organisms[i].energy <= 0 && cell(v, v.organisms[i].position) == c;
                            assert(i < t);
                        }
                    }
                }
            }
            t += 1;
        }
        self.organisms = living;
        proof {
            assert(v.organisms.take(n as int) =~= v.organisms);
            assert(self@.occupants =~= Seq::new(
                v.occupants.len(),
                |c: int| if dead_cell(v, c) { None } else { v.occupants[c] },
            ));
            lemma_alive_keeps(v.organisms);
            let a = self@.organisms;
            assert forall|k: int| 0 <= k < a.len() implies in_grid(self@, (#[trigger] a[k]).position) by {
                let i = choose|i: int| 0 <= i < v.organisms.len() && v.organisms[i] == a[k];
            }
            assert forall|k: int| 0 <= k < a.len() implies (#[trigger] a[k]).genome.functions.len() < usize::MAX by {
                let i = choose|i: int| 0 <= i < v.organisms.len() && v.organisms[i] == a[k];
            }
            if occupancy_ok(v) { lemma_removal_keeps_occupancy(v); }
            if records_ok(v) { lemma_removal_keeps_records(v); }
        }
        removed
    }

    /// A new simulation: the world laid out from the configuration with a
    /// generator seeded from it, default compiler and mutator, and one
    /// organism spawned per genome, in order. Fails when a genome cannot
    /// be placed.
    pub fn new(config: JobConfig, genomes: Vec<(LineageId, Program)>) -> (r: Result<Simulation, Error>)
        requires
            0 <= config.world_config.width,
            0 <= config.world_config.height,
            config.world_config.width * config.world_config.height <= i32::MAX,
            genomes@.len() > 0 ==> config.world_config.width > 0 && config.world_config.height > 0,
            forall|i: int| 0 <= i < genomes@.len() ==> (#[trigger] genomes@[i]).1@.functions.len() < usize::MAX,
        ensures
            r matches Ok(sim) ==> {
                &&& sim_wf(sim@)
                &&& exists|trace: Seq<SimView>| {
                    &&& #[trigger] spawn_trace(genome_views(genomes@), trace)
                    &&& trace[0] == fresh_state(config, trace[0].tiles)
                    &&& trace[0].tiles.len() == config.world_config.width * config.world_config.height
                    &&& forall|c: int| 0 <= c < trace[0].tiles.len() ==> drawn_tile(#[trigger] trace[0].tiles[c], config.world_config)
                    &&& trace.last() == sim@
                }
            },
            r matches Ok(sim) ==> occupancy_ok(sim@),
            r matches Ok(sim) ==> (sim@.organisms.len() == genomes@.len() ==> records_ok(sim@)),
            genomes@.len() == 0 ==> r is Ok,
            r is Err ==> (r matches Err(Error::Other(m)) && m@ == spawn_failed_message()),
            r is Err ==> exists|trace: Seq<SimView>| {
                &&& 1 <= trace.len() <= genomes@.len()
                &&& #[trigger] spawn_trace(genome_views(genomes@).take(trace.len() - 1), trace)
                &&& trace[0] == fresh_state(config, trace[0].tiles)
                &&& trace[0].tiles.len() == config.world_config.width * config.world_config.height
                &&& forall|c: int| 0 <= c < trace[0].tiles.len() ==> drawn_tile(#[trigger] trace[0].tiles[c], config.world_config)
                &&& no_spawn_found(trace.last())
            },
    {
        let mut rng = rng_from_seed(config.seed);
        let grid = Grid::from_config(&config.world_config, &mut rng);
        let mut occupants: Vec<Option<OrganismId>> = Vec::new();
        let size = grid.tiles.len();
        let mut c: usize = 0;
        while c < size
            invariant
                c <= size,
                occupants@ == Seq::new(c as nat, |i: int| None::<OrganismId>),
            decreases size - c,
        {
            occupants.push(None);
            c += 1;
            assert(occupants@ =~= Seq::new(c as nat, |i: int| None::<OrganismId>));
        }
        let mut sim = Simulation {
            grid,
            organisms: Vec::new(),
            occupants,
            compiler: Compiler::new(CompilerConfig::default()),
            mutator: Mutator::new(MutationConfig::default()),
            config,
            rng,
            tick: 0,
            reproduction_attempts: 0,
            reproduction_successes: 0,
            total_offspring_born: 0,
        };
        let ghost v0 = sim@;
        proof {
            assert(orgs_view(sim.organisms@) =~= Seq::<OrganismView>::empty());
            assert(v0 == fresh_state(config, v0.tiles));
            assert(0 <= config.world_config.width * config.world_config.height) by (nonlinear_arith)
                requires 0 <= config.world_config.width, 0 <= config.world_config.height;
        }
        // Reverse the genomes, so that popping yields them in order.
        let ghost gs = genomes@;
        let n = genomes.len();
        let mut all = genomes;
        let mut rev: Vec<(LineageId, Program)> = Vec::new();
        while all.len() > 0
            invariant
                all@ == gs.subrange(0, all@.len() as int),
                n == gs.len(),
                rev@.len() == n - all@.len(),
                forall|j: int| 0 <= j < rev@.len() ==> #[trigger] rev@[j] == gs[n - 1 - j],
            decreases all@.len(),
        {
            let e = all.pop().unwrap();
            rev.push(e);
        }
        let ghost mut trace: Seq<SimView> = seq![v0];
        let mut i: usize = 0;
        while rev.len() > 0
            invariant
                n == gs.len(),
                gs == genomes@,
                rev@.len() == n - i,
                i <= n,
                forall|j: int| 0 <= j < rev@.len() ==> #[trigger] rev@[j] == gs[n - 1 - j],
                forall|j: int| 0 <= j < gs.len() ==> (#[trigger] gs[j]).1@.functions.len() < usize::MAX,
                n > 0 ==> sim@.width > 0 && sim@.height > 0,
                sim_wf(sim@),
                trace.len() == i + 1,
                trace[0] == v0,
                trace.last() == sim@,
                v0 == fresh_state(config, v0.tiles),
                v0.tiles.len() == config.world_config.width * config.world_config.height,
                sim@.organisms.len() <= i,
                sim@.organisms.len() == i ==> records_ok(sim@),
                forall|c: int| 0 <= c < v0.tiles.len() ==> drawn_tile(#[trigger] v0.tiles[c], config.world_config),
                forall|j: int| 0 <= j < i ==> #[trigger] spawn_step(trace[j], genome_views(gs)[j].0, genome_views(gs)[j].1, trace[j + 1]),
            decreases rev@.len(),
        {
            let (lineage, genome) = rev.pop().unwrap();
            assert((lineage, genome) == gs[i as int]);
            let ghost before = sim@;
            let res = sim.spawn_organism(lineage, genome);
            if res.is_err() {
                proof {
                    assert(genome_views(gs).take(i as int).len() == i);
                    assert forall|j: int| 0 <= j < i implies #[trigger] spawn_step(
                        trace[j], genome_views(gs).take(i as int)[j].0, genome_views(gs).take(i as int)[j].1, trace[j + 1]) by {
                        assert(genome_views(gs).take(i as int)[j] == genome_views(gs)[j]);
                    }
                    assert(spawn_trace(genome_views(gs).take(trace.len() - 1), trace));
                }
                return Err(res.unwrap_err());
            }
            proof {
                let t2 = trace.push(sim@);
                assert(genome_views(gs)[i as int] == (lineage, genome@));
                assert forall|j: int| 0 <= j < i + 1 implies #[trigger] spawn_step(t2[j], genome_views(gs)[j].0, genome_views(gs)[j].1, t2[j + 1]) by {
                    if j < i {
                        assert(t2[j] == trace[j] && t2[j + 1] == trace[j + 1]);
                    } else {
                        assert(t2[j] == before);
                    }
                }
                trace = t2;
            }
            i += 1;
        }
        proof {
            assert(spawn_trace(genome_views(gs), trace));
            lemma_spawned_world_occupancy(genome_views(gs), trace);
        }
        Ok(sim)
    }

    /// Place an organism of a lineage with a genome on the cell of `pos`,
    /// with a fresh identifier, when the cell can take it (see
    /// `place_open`); otherwise nothing changes. Returns whether it did.
    pub fn place_at(&mut self, lineage_id: LineageId, genome: Program, pos: Position) -> (r: bool)
        requires
            sim_wf(old(self)@),
            genome@.functions.len() < usize::MAX,
        ensures
            r == place_open(old(self)@, pos),
            r ==> placed_at(old(self)@, lineage_id, genome@, pos, final(self)@) && sim_wf(final(self)@),
            !r ==> final(self)@ == old(self)@,
            r ==> spawn_step(old(self)@, lineage_id, genome@, final(self)@),
            r && occupancy_ok(old(self)@) ==> occupancy_ok(final(self)@),
            final(self)@.organisms.len() <= old(self)@.organisms.len() + 1,
            r && records_ok(old(self)@) && final(self)@.organisms.len() == old(self)@.organisms.len() + 1
                ==> records_ok(final(self)@),
    {
        let ghost v = self@;
        let ghost g = genome@;
        if pos.x < 0 || pos.y < 0 || pos.x >= self.grid.width || pos.y >= self.grid.height {
            return false;
        }
        let c = self.cell_index(pos);
        if self.occupants[c].is_some() || self.grid.tiles[c].tile_type == TileType::Obstacle {
            return false;
        }
        let o = Organism::new_with_birth_tick(
            lineage_id,
            pos,
            self.config.energy_config.initial_energy,
            genome,
            self.tick,
        );
        let ghost ov = o@;
        let id = o.id;
        self.occupants.set(c, Some(id));
        self.insert_organism(o);
        proof {
            assert(spawned(v, lineage_id, g, ov, pos));
            assert(spawn_step(v, lineage_id, g, self@));
            if occupancy_ok(v) {
                lemma_spawn_keeps_occupancy(v, lineage_id, g, self@);
            }
            if records_ok(v) && self@.organisms.len() == v.organisms.len() + 1 {
                lemma_spawn_keeps_records(v, lineage_id, g, self@);
            }
        }
        true
    }

    /// Spawn an organism of a lineage with a genome on a random free cell:
    /// up to a hundred random cells of the grid are tried (see `place_at`),
    /// and the first that can take it does. Fails, changing nothing, when
    /// none of them could.
    pub fn spawn_organism(&mut self, lineage_id: LineageId, genome: Program) -> (r: Result<(), Error>)
        requires
            sim_wf(old(self)@),
            old(self)@.width > 0,
            old(self)@.height > 0,
            genome@.functions.len() < usize::MAX,
        ensures
            r is Ok ==> spawn_step(old(self)@, lineage_id, genome@, final(self)@) && sim_wf(final(self)@),
            r is Err ==> final(self)@ == old(self)@,
            r is Err ==> (r matches Err(Error::Other(m)) && m@ == spawn_failed_message()),
            r is Err ==> no_spawn_found(old(self)@),
            world_full(old(self)@) ==> r is Err,
            r is Ok && occupancy_ok(old(self)@) ==> occupancy_ok(final(self)@),
            final(self)@.organisms.len() <= old(self)@.organisms.len() + 1,
            r is Ok && records_ok(old(self)@) && final(self)@.organisms.len() == old(self)@.organisms.len() + 1
                ==> records_ok(final(self)@),
    {
        let ghost v = self@;
        let ghost g = genome@;
        let w = self.grid.width;
        let h = self.grid.height;
        let ghost mut tried: Seq<Position> = Seq::empty();
        let mut attempt: u32 = 0;
        while attempt < 100
            invariant
                self@ == v,
                old(self)@ == v,
                sim_wf(v),
                v.width == w && v.height == h,
                w > 0 && h > 0,
                g == genome@,
                g.functions.len() < usize::MAX,
                tried.len() == attempt,
                attempt <= 100,
                forall|i: int| 0 <= i < attempt ==> in_grid(v, #[trigger] tried[i]) && !place_open(v, tried[i]),
            decreases 100 - attempt,
        {
            let x = gen_range_i32(&mut self.rng, 0, w);
            let y = gen_range_i32(&mut self.rng, 0, h);
            let pos = Position::new(x, y);
            if pos.x >= 0 && pos.y >= 0 && pos.x < w && pos.y < h {
                let c = self.cell_index(pos);
                if self.occupants[c].is_none() && self.grid.tiles[c].tile_type != TileType::Obstacle {
                    let placed = self.place_at(lineage_id, genome, pos);
                    assert(placed);
                    proof {
                        if occupancy_ok(v) { assert(occupancy_ok(self@)); }
                    }
                    return Ok(());
                }
            }
            proof {
                let t2 = tried.push(pos);
                assert forall|i: int| 0 <= i < attempt + 1 implies in_grid(v, #[trigger] t2[i]) && !place_open(v, t2[i]) by {
                    if i < attempt { assert(t2[i] == tried[i]); }
                }
                tried = t2;
            }
            attempt += 1;
        }
        proof {
            if world_full(v) {
            }
        }
        Err(Error::Other(String::from_str("Failed to find spawn position")))
    }

    /// The statistics of the organisms, or of those born after the first
    /// tick (see `spec_tally`).
    pub fn tally(&self, only_late: bool) -> (r: Tally)
        ensures
            r == spec_tally(self@.organisms, only_late),
    {
        let ghost orgs = self@.organisms;
        let n = self.organisms.len();
        let mut t = Tally {
            count: 0,
            born_late: 0,
            parents: 0,
            energy_sum: 0,
            age_sum: 0,
            offspring_sum: 0,
            max_energy: 0,
            min_energy: 0,
            max_age: 0,
            max_offspring: 0,
        };
        let mut i: usize = 0;
        assert(orgs.take(0) =~= Seq::<OrganismView>::empty());
        while i < n
            invariant
                n == orgs.len(),
                orgs == self@.organisms,
                i <= n,
                t == spec_tally(orgs.take(i as int), only_late),
                tally_bounded(t, i as int),
            decreases n - i,
        {
            let o = &self.organisms[i];
            proof {
                assert(orgs.take(i + 1).drop_last() =~= orgs.take(i as int));
                assert(orgs.take(i + 1).last() == orgs[i as int]);
                assert(o@ == orgs[i as int]);
            }
            if !(only_late && o.birth_tick <= 1) {
                let first = t.count == 0;
                proof {
                    assert(t.energy_sum + o.energy <= 0x7fff_ffff * (t.count + 1)) by (nonlinear_arith)
                        requires t.energy_sum <= 0x7fff_ffff * t.count, o.energy <= 0x7fff_ffff;
                    assert(t.energy_sum + o.energy >= -0x8000_0000 * (t.count + 1)) by (nonlinear_arith)
                        requires t.energy_sum >= -0x8000_0000 * t.count, o.energy >= -0x8000_0000;
                    assert(t.age_sum + o.age <= 0xffff_ffff_ffff_ffff * (t.count + 1)) by (nonlinear_arith)
                        requires t.age_sum <= 0xffff_ffff_ffff_ffff * t.count, o.age <= 0xffff_ffff_ffff_ffff;
                    assert(t.offspring_sum + o.metrics.offspring_count <= 0xffff_ffff * (t.count + 1)) by (nonlinear_arith)
                        requires t.offspring_sum <= 0xffff_ffff * t.count, o.metrics.offspring_count <= 0xffff_ffff;
                    assert(0xffff_ffff_ffff_ffff * (t.count + 1) <= 0xffff_ffff_ffff_ffff * 0x1_0000_0000_0000_0000) by (nonlinear_arith)
                        requires t.count + 1 <= 0x1_0000_0000_0000_0000;
                    assert(0x7fff_ffff * (t.count + 1) <= 0x7fff_ffff * 0x1_0000_0000_0000_0000) by (nonlinear_arith)
                        requires t.count + 1 <= 0x1_0000_0000_0000_0000;
                    assert(-0x8000_0000 * (t.count + 1) >= -0x8000_0000 * 0x1_0000_0000_0000_0000) by (nonlinear_arith)
                        requires t.count + 1 <= 0x1_0000_0000_0000_0000;
                    assert(0xffff_ffff * (t.count + 1) <= 0xffff_ffff * 0x1_0000_0000_0000_0000) by (nonlinear_arith)
                        requires t.count + 1 <= 0x1_0000_0000_0000_0000;
                }
                t = Tally {
                    count: t.count + 1,
                    born_late: t.born_late + (if o.birth_tick > 1 { 1 } else { 0 }),
                    parents: t.parents + (if o.metrics.offspring_count > 0 { 1 } else { 0 }),
                    energy_sum: t.energy_sum + o.energy as i128,
                    age_sum: t.age_sum + o.age as u128,
                    offspring_sum: t.offspring_sum + o.metrics.offspring_count as u128,
                    max_energy: if first || o.energy > t.max_energy { o.energy } else { t.max_energy },
                    min_energy: if first || o.energy < t.min_energy { o.energy } else { t.min_energy },
                    max_age: if first || o.age > t.max_age { o.age } else { t.max_age },
                    max_offspring: if first || o.metrics.offspring_count > t.max_offspring {
                        o.metrics.offspring_count
                    } else {
                        t.max_offspring
                    },
                };
            }
            i += 1;
        }
        assert(orgs.take(n as int) =~= orgs);
        t
    }

    /// Set the current tick.
    pub fn set_tick(&mut self, tick: u64)
        ensures
            final(self)@ == (SimView { tick, ..old(self)@ }),
    {
        self.tick = tick;
    }

    /// Regrow the resource of one cell by an amount that the caller computed
    /// (see `Tile::grow`).
    pub fn regrow_tile(&mut self, index: usize, growth: i32)
        requires
            index < old(self)@.tiles.len(),
            old(self)@.tiles[index as int].growth_fits(growth as int),
        ensures
            final(self)@ == (SimView {
                tiles: old(self)@.tiles.update(index as int, old(self)@.tiles[index as int].spec_grown(growth as int)),
                ..old(self)@
            }),
    {
        self.grid.grow_tile(index, growth);
    }

    /// The order in which the organisms act this tick: a random
    /// permutation of their indices.
    pub fn turn_order(&mut self) -> (r: Vec<usize>)
        ensures
            final(self)@ == old(self)@,
            r@.len() == old(self)@.organisms.len(),
            r@.to_multiset() == Seq::new(old(self)@.organisms.len(), |i: int| i as usize).to_multiset(),
            forall|i: int| 0 <= i < r@.len() ==> #[trigger] r@[i] < old(self)@.organisms.len(),
    {
        let n = self.organisms.len();
        let mut order: Vec<usize> = Vec::new();
        let mut i: usize = 0;
        while i < n
            invariant
                i <= n,
                order@ == Seq::new(i as nat, |j: int| j as usize),
            decreases n - i,
        {
            order.push(i);
            i += 1;
            assert(order@ =~= Seq::new(i as nat, |j: int| j as usize));
        }
        let ghost ids = order@;
        shuffle(&mut self.rng, &mut order);
        proof {
            assert forall|i: int| 0 <= i < order@.len() implies #[trigger] order@[i] < n by {
                vstd::seq_lib::to_multiset_contains(order@, order@[i]);
                vstd::seq_lib::to_multiset_contains(ids, order@[i]);
                assert(order@.contains(order@[i]));
                let j = choose|j: int| 0 <= j < ids.len() && ids[j] == order@[i];
            }
        }
        order
    }

    /// A seed for a new instance's `init`: the next 64 bits of the
    /// simulation's stream.
    pub fn draw_init_seed(&mut self) -> (r: u64)
        ensures
            final(self)@ == old(self)@,
    {
        gen_u64(&mut self.rng)
    }

    /// The WebAssembly module of organism `k`'s genome.
    pub fn compile_genome(&self, k: usize) -> (r: Result<Vec<u8>, Error>)
        requires
            k < self@.organisms.len(),
        ensures
            compilable(self@.organisms[k as int].genome) ==> (r matches Ok(bytes)
                && bytes@ == encode_module(module_model(self@.organisms[k as int].genome, self@.compiler))),
            !compilable(self@.organisms[k as int].genome) ==> r matches Err(Error::Wasm(_)),
    {
        let genome = &self.organisms[k].genome;
        if !program_compilable(genome) {
            return Err(Error::Wasm("program too large to encode".to_string()));
        }
        self.compiler.compile(genome)
    }

    /// Record the net energy of every organism and gather the results:
    /// the metrics grouped by lineage (in order within each lineage), the
    /// survivors' data in order, and the tick reached.
    pub fn collect_results(&mut self) -> (r: SimulationResult)
        requires
            sim_wf(old(self)@),
        ensures
            final(self)@ == (SimView {
                organisms: finalized_all(old(self)@.organisms, old(self)@.config.energy_config.initial_energy as int),
                ..old(self)@
            }),
            sim_wf(final(self)@),
            occupancy_ok(old(self)@) ==> occupancy_ok(final(self)@),
            records_ok(old(self)@) ==> records_ok(final(self)@),
            r.total_ticks == old(self)@.tick,
            r.survivors@.len() == final(self)@.organisms.len(),
            forall|i: int| 0 <= i < r.survivors@.len() ==> #[trigger] r.survivors@[i].describes(final(self)@.organisms[i]),
            forall|g: int, h: int| 0 <= g < h < r.lineage_stats@.len() ==> r.lineage_stats@[g].0 != r.lineage_stats@[h].0,
            forall|g: int| 0 <= g < r.lineage_stats@.len() ==>
                (#[trigger] r.lineage_stats@[g]).1@ == metrics_of(final(self)@.organisms, r.lineage_stats@[g].0),
            forall|i: int| 0 <= i < final(self)@.organisms.len() ==>
                has_group(r.lineage_stats@, (#[trigger] final(self)@.organisms[i]).lineage_id),
    {
        let ghost v = self@;
        let initial = self.config.energy_config.initial_energy;
        let ghost f = finalized_all(v.organisms, initial as int);
        let n = self.organisms.len();
        let mut keys: Vec<LineageId> = Vec::new();
        let mut lists: Vec<Vec<FitnessMetrics>> = Vec::new();
        let mut survivors: Vec<OrganismData> = Vec::new();
        let mut i: usize = 0;
        assert(f.take(0) + v.organisms.skip(0) =~= v.organisms);
        while i < n
            invariant
                n == v.organisms.len(),
                n == self.organisms@.len(),
                i <= n,
                sim_wf(v),
                initial == v.config.energy_config.initial_energy,
                f == finalized_all(v.organisms, initial as int),
                self@ == (SimView { organisms: f.take(i as int) + v.organisms.skip(i as int), ..v }),
                keys@.len() == lists@.len(),
                forall|g: int, h: int| 0 <= g < h < keys@.len() ==> keys@[g] != keys@[h],
                forall|g: int| 0 <= g < keys@.len() ==> (#[trigger] lists@[g])@ == metrics_of(f.take(i as int), keys@[g]),
                forall|j: int| 0 <= j < i ==> has_key(keys@, (#[trigger] f[j]).lineage_id),
                survivors@.len() == i,
                forall|j: int| 0 <= j < i ==> #[trigger] survivors@[j].describes(f[j]),
            decreases n - i,
        {
            let ghost before = self@;
            proof {
                assert(before.organisms[i as int] == (f.take(i as int) + v.organisms.skip(i as int))[i as int]);
                assert(before.organisms[i as int] == v.organisms[i as int]);
            }
            let ghost raw_before = self.organisms@;
            self.organisms[i].finalize_metrics(initial);
            proof {
                assert(self.organisms@ == raw_before.update(i as int, self.organisms@[i as int]));
                lemma_orgs_view_update(raw_before, i as int, self.organisms@[i as int]);
                assert(orgs_view(self.organisms@) =~= f.take(i + 1) + v.organisms.skip(i + 1));
                assert(f.take(i + 1).drop_last() =~= f.take(i as int));
                assert(f.take(i + 1).last() == f[i as int]);
            }
            let l = self.organisms[i].lineage_id;
            let m = self.organisms[i].metrics;
            assert(l == f[i as int].lineage_id && m == f[i as int].metrics);
            let mut g: usize = 0;
            let mut found = false;
            while g < keys.len() && !found
                invariant
                    g <= keys@.len(),
                    found ==> g < keys@.len() && keys@[g as int] == l,
                    !found ==> forall|h: int| 0 <= h < g ==> keys@[h] != l,
                decreases keys@.len() - g + (if found { 0int } else { 1int }),
            {
                if keys[g] == l {
                    found = true;
                } else {
                    g += 1;
                }
            }
            let ghost old_lists = lists@;
            let ghost old_keys = keys@;
            if found {
                let mut list: Vec<FitnessMetrics> = Vec::new();
                std::mem::swap(&mut list, &mut lists[g]);
                list.push(m);
                lists.set(g, list);
            } else {
                proof { lemma_metrics_of_absent(f.take(i as int), l); }
                let mut list: Vec<FitnessMetrics> = Vec::new();
                list.push(m);
                keys.push(l);
                lists.push(list);
            }
            proof {
                assert forall|h: int| 0 <= h < keys@.len() implies (#[trigger] lists@[h])@ == metrics_of(f.take(i + 1), keys@[h]) by {
                    if h < old_keys.len() {
                        assert(keys@[h] == old_keys[h]);
                        if found && h == g {
                        } else {
                            assert(lists@[h] == old_lists[h]);
                        }
                    } else {
                        assert(lists@[h]@ =~= seq![m]);
                    }
                }
                assert forall|j: int| 0 <= j < i + 1 implies has_key(keys@, (#[trigger] f[j]).lineage_id) by {
                    if j < i {
                        assert(has_key(old_keys, f[j].lineage_id));
                        let h = choose|h: int| 0 <= h < old_keys.len() && old_keys[h] == f[j].lineage_id;
                        assert(keys@[h] == old_keys[h]);
                    } else if found {
                        assert(keys@[g as int] == l);
                    } else {
                        assert(keys@[old_keys.len() as int] == l);
                    }
                }
            }
            let data = OrganismData::from(&self.organisms[i]);
            assert(self.organisms@[i as int]@ == f[i as int]);
            survivors.push(data);
            proof {
                assert forall|j: int| 0 <= j < i + 1 implies #[trigger] survivors@[j].describes(f[j]) by {}
            }
            i += 1;
        }
        proof {
            assert(f.take(n as int) + v.organisms.skip(n as int) =~= f);
            assert(f.take(n as int) =~= f);
            if occupancy_ok(v) { lemma_finalized_keeps_occupancy(v); }
            if records_ok(v) { lemma_finalized_keeps_records(v); }
        }
        assert(i == n);
        let ghost keys_before = keys@;
        let mut stats: Vec<(LineageId, Vec<FitnessMetrics>)> = Vec::new();
        let mut g: usize = 0;
        while g < keys.len()
            invariant
                g <= keys@.len(),
                keys@.len() == lists@.len(),
                stats@.len() == g,
                forall|h: int| 0 <= h < g ==> (#[trigger] stats@[h]).0 == keys@[h],
                forall|h: int| 0 <= h < g ==> (#[trigger] stats@[h]).1@ == metrics_of(f, keys@[h]),
                forall|h: int| g <= h < keys@.len() ==> (#[trigger] lists@[h])@ == metrics_of(f, keys@[h]),
                forall|j: int| 0 <= j < n ==> has_key(keys@, (#[trigger] f[j]).lineage_id),
                forall|a: int, b: int| 0 <= a < b < keys@.len() ==> keys@[a] != keys@[b],
                n == f.len(),
                keys@ == keys_before,
            decreases keys@.len() - g,
        {
            let mut list: Vec<FitnessMetrics> = Vec::new();
            std::mem::swap(&mut list, &mut lists[g]);
            stats.push((keys[g], list));
            g += 1;
        }
        proof {
            assert(self@.organisms == f);
            lemma_finalized_keeps(v);
            assert forall|j: int| 0 <= j < f.len() implies has_group(stats@, (#[trigger] f[j]).lineage_id) by {
                assert(has_key(keys@, f[j].lineage_id));
                let h = choose|q: int| 0 <= q < keys@.len() && keys@[q] == f[j].lineage_id;
                assert(stats@[h].0 == keys@[h]);
            }
        }
        SimulationResult { lineage_stats: stats, survivors, total_ticks: self.tick }
    }

    /// Insert an organism by identifier (see `insert_org`).
    fn insert_organism(&mut self, o: Organism)
        requires
            sim_wf(old(self)@),
            in_grid(old(self)@, o.position),
            o@.genome.functions.len() < usize::MAX,
        ensures
            final(self)@ == (SimView { organisms: insert_org(old(self)@.organisms, o@), ..old(self)@ }),
            sim_wf(final(self)@),
            final(self)@.organisms.len() >= old(self)@.organisms.len(),
    {
        let ghost v = self@;
        let ghost ov = o@;
        match self.find_organism(o.id) {
            Some(i) => {
                proof { lemma_orgs_view_update(self.organisms@, i as int, o); }
                self.organisms.set(i, o);
            },
            None => {
                proof { lemma_orgs_view_push(self.organisms@, o); }
                self.organisms.push(o);
            },
        }
        proof {
            let orgs = self@.organisms;
            assert forall|i: int, j: int| 0 <= i < orgs.len() && 0 <= j < orgs.len() && i != j implies orgs[i].id != orgs[j].id by {
                if index_of(v.organisms, ov.id) < 0 {
                    if i == v.organisms.len() as int {
                        lemma_index_of_absent(v.organisms, ov.id);
                    }
                }
            }
        }
    }

    /// Organism `k` tries to reproduce (see `spec_reproduce`).
    #[verifier::spinoff_prover]
    fn do_reproduce(&mut self, k: usize, energy: i32) -> (r: Result<(), Error>)
        requires
            sim_wf(old(self)@),
            k < old(self)@.organisms.len(),
        ensures
            r is Err <==> reproduce_fails(old(self)@, k as int, energy as int),
            r is Err ==> r matches Err(Error::Other(_)),
            r is Ok ==> spec_reproduce(old(self)@, k as int, energy as int, final(self)@),
            r is Ok ==> sim_wf(final(self)@) && final(self)@.organisms.len() >= old(self)@.organisms.len(),
            !reproduction_draws(old(self)@, k as int, energy as int) ==> final(self).rng == old(self).rng,
    {
        let ghost v = self@;
        if self.reproduction_attempts == u64::MAX {
            return Err(overflow_error());
        }
        self.reproduction_attempts += 1;
        let ec = self.config.energy_config;
        if energy < ec.reproduce_cost || energy < ec.min_reproduce_energy
            || self.organisms.len() >= self.config.dynamic_rules.max_population {
            return Ok(());
        }
        let ghost v0 = self@;
        assert(v0 == with_attempt(v));
        let ppos = self.organisms[k].position;
        assert(ppos == v.organisms[k as int].position);
        if !self.nbhd_fits(ppos) {
            return Err(overflow_error());
        }
        proof {
            assert forall|a: int, b: int| -1 <= a <= 1 && -1 <= b <= 1 implies {
                &&& fits_i32(ppos.x + a)
                &&& fits_i32(ppos.y + b)
                &&& self.grid.pos_ok(#[trigger] ppos.spec_add(a, b))
            } by {
                assert(wraps(v, ppos.spec_add(a, b)));
            }
        }
        let neighbors = self.grid.neighbors(ppos, 1);
        proof {
            lemma_neighbor_offsets();
            assert forall|m: int| 0 <= m < 8 implies {
                &&& #[trigger] neighbors@[m].0 == nb(ppos, m)
                &&& neighbors@[m].1 == v.tiles[cell(v, wrapped(v, nb(ppos, m)))]
            } by {
                let (dx, dy) = neighbor_offset(1, m);
                assert(neighbors@[m].0 == ppos.spec_add(dx, dy));
            }
        }
        let mut j: usize = 0;
        while j < neighbors.len()
            invariant
                self@ == v0,
                v0 == with_attempt(v),
                !repro_blocked(v, energy as int),
                v.reproduction_attempts < u64::MAX,
                sim_wf(v),
                sim_wf(v0),
                k < v.organisms.len(),
                ec == v.config.energy_config,
                old(self)@ == v,
                ppos == v.organisms[k as int].position,
                in_grid(v, ppos),
                nbhd_wraps(v, ppos),
                neighbors@.len() == 8,
                forall|m: int| 0 <= m < 8 ==> {
                    &&& #[trigger] neighbors@[m].0 == nb(ppos, m)
                    &&& neighbors@[m].1 == v.tiles[cell(v, wrapped(v, nb(ppos, m)))]
                },
                j <= 8,
                forall|m: int| 0 <= m < j ==> !slot_open(v, ppos, m),
                self.rng == old(self).rng,
            decreases 8 - j,
        {
            let (np, tile) = neighbors[j];
            assert(np == neighbors@[j as int].0 && tile == neighbors@[j as int].1);
            assert(np == nb(ppos, j as int));
            proof {
                lemma_neighbor_offsets();
                let (dx, dy) = neighbor_offset(1, j as int);
                assert(-1 <= dx <= 1 && -1 <= dy <= 1);
                assert(wraps(v, ppos.spec_add(dx, dy)));
                assert(wraps(v, nb(ppos, j as int)));
                lemma_wrapped_in_grid(v, np);
                assert(self@.width == v.width && self@.height == v.height);
                assert(np.wrap_ok(self.grid.width as int, self.grid.height as int));
            }
            let w = np.wrap(self.grid.width, self.grid.height);
            let wc = self.cell_index(w);
            if tile.tile_type != TileType::Obstacle && self.occupants[wc].is_none() {
                proof {
                    assert(slot_open(v, ppos, j as int));
                    lemma_first_open_slot(v, ppos, 0, j as int);
                    assert(first_open_slot(v, ppos, j as int) == j);
                    assert(first_open_slot(v, ppos, 0) == j);
                }
                let pe = self.organisms[k].energy;
                if (pe >= ec.reproduce_cost && pe.checked_sub(ec.reproduce_cost).is_none())
                    || self.organisms[k].metrics.offspring_count == u32::MAX {
                    return Err(overflow_error());
                }
                if !program_float_free(&self.organisms[k].genome) {
                    return Err(Error::Other("float immediates cannot be mutated".to_string()));
                }
                let parent_birth = self.organisms[k].birth_tick;
                let lineage = self.organisms[k].lineage_id;
                self.organisms[k].consume_energy(ec.reproduce_cost);
                self.organisms[k].record_offspring();
                let ghost v1 = self@;
                proof {
                    assert(orgs_view(self.organisms@) =~= v.organisms.update(k as int, parent_after(v, k as int)));
                    assert(v1 == with_org(with_attempt(v), k as int, parent_after(v, k as int)));
                }
                let mut genome = self.organisms[k].genome.clone();
                assert(genome@ == v.organisms[k as int].genome);
                self.mutator.mutate(&mut genome, &mut self.rng);
                assert(self@ == v1);
                let pe2 = self.organisms[k].energy;
                assert(self.organisms@[k as int]@ == v1.organisms[k as int]);
                assert(pe2 == v1.organisms[k as int].energy);
                assert(v1.organisms[k as int] == parent_after(v, k as int));
                if parent_birth > 1 && pe2.checked_add(1000).is_none() {
                    assert(!fits_i32(parent_after(v, k as int).energy + 1000));
                    assert(reproduce_fails(v, k as int, energy as int));
                    return Err(overflow_error());
                }
                let oe = if parent_birth > 1 { ec.boosted_offspring_energy } else { ec.offspring_energy };
                let offspring = Organism::new_with_birth_tick(lineage, w, oe, genome, self.tick);
                let ghost ov = offspring@;
                let oid = offspring.id;
                if parent_birth > 1 {
                    self.organisms[k].add_energy(1000);
                    proof {
                        assert(orgs_view(self.organisms@) =~= v1.organisms.update(k as int, v1.organisms[k as int].gained(1000)));
                    }
                }
                let ghost v2 = self@;
                self.occupants.set(wc, Some(oid));
                self.insert_organism(offspring);
                self.reproduction_successes += 1;
                self.total_offspring_born += 1;
                proof {
                    let p1 = parent_after(v, k as int);
                    let p2 = if parent_birth > 1 { p1.gained(1000) } else { p1 };
                    if parent_birth <= 1 {
                        assert(v1.organisms.update(k as int, p2) =~= v1.organisms);
                        assert(v2.organisms == v1.organisms);
                    } else {
                        assert(v2.organisms == v1.organisms.update(k as int, v1.organisms[k as int].gained(1000)));
                        assert(v1.organisms[k as int] == p1);
                    }
                    assert(v2.organisms == v1.organisms.update(k as int, p2));
                    assert(offspring_of(ov, v, k as int, w));
                    assert(self@ == (SimView {
                        organisms: insert_org(v1.organisms.update(k as int, p2), ov),
                        occupants: v.occupants.update(cell(v, w), Some(ov.id)),
                        reproduction_successes: (v.reproduction_successes + 1) as u64,
                        total_offspring_born: (v.total_offspring_born + 1) as u64,
                        ..v1
                    }));
                }
                return Ok(());
            }
            proof {
                assert(!slot_open(v, ppos, j as int));
            }
            j += 1;
        }
        proof {
            lemma_first_open_slot(v, ppos, 0, 8);
        }
        Ok(())
    }

    /// Organism `k` moves, if it can (see `spec_move`).
    fn do_move(&mut self, k: usize, pos: Position, energy: i32, dx: i32, dy: i32) -> (r: Result<(), Error>)
        requires
            sim_wf(old(self)@),
            k < old(self)@.organisms.len(),
            in_grid(old(self)@, pos),
        ensures
            r is Err <==> move_fails(old(self)@, k as int, pos, energy as int, dx as int, dy as int),
            r is Err ==> r matches Err(Error::Other(_)),
            r is Ok ==> final(self)@ == spec_move(old(self)@, k as int, pos, energy as int, dx as int, dy as int),
            r is Ok ==> sim_wf(final(self)@),
            final(self).rng == old(self).rng,
    {
        let ghost v = self@;
        if energy < self.config.energy_config.move_cost {
            return Ok(());
        }
        let (nx, ny) = match (pos.x.checked_add(dx), pos.y.checked_add(dy)) {
            (Some(nx), Some(ny)) => (nx, ny),
            _ => return Err(overflow_error()),
        };
        let u = Position::new(nx, ny);
        assert(u == pos.spec_add(dx as int, dy as int));
        if !self.wraps(u) {
            return Err(overflow_error());
        }
        proof { lemma_in_grid_cell(v, pos); }
        let t = u.wrap(self.grid.width, self.grid.height);
        proof { lemma_wrapped_in_grid(v, u); }
        let tc = self.cell_index(t);
        if self.occupants[tc].is_some() {
            return Ok(());
        }
        if !self.wraps(t) {
            return Err(overflow_error());
        }
        let passable = self.grid.get(t).tile_type != TileType::Obstacle;
        proof { lemma_in_grid_cell(v, t); }
        if !passable {
            return Ok(());
        }
        let e = self.organisms[k].energy;
        let cost = self.config.energy_config.move_cost;
        if e >= cost && e.checked_sub(cost).is_none() {
            return Err(overflow_error());
        }
        let pc = self.cell_index(pos);
        let id = self.organisms[k].id;
        self.occupants.set(pc, None);
        self.occupants.set(tc, Some(id));
        self.organisms[k].move_to(t);
        self.organisms[k].consume_energy(cost);
        proof {
            assert(orgs_view(self.organisms@) =~= v.organisms.update(k as int, v.organisms[k as int].moved(t).consumed(cost as int)));
            assert(self@ == spec_move(v, k as int, pos, energy as int, dx as int, dy as int));
        }
        Ok(())
    }
}

} // verus!
