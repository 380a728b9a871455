//! The rules of the world, stated as what each step does to an organism,
//! its cell and the tiles: where a move takes it and what it costs, what
//! eating takes from a tile and gives, what a turn's start costs, and what
//! a refused or successful reproduction changes.

use vstd::prelude::*;
use crate::config::MAX_BITE;
use crate::runtime::context::Action;
use crate::types::{Position, TileType};
use crate::world::simulation::{SimView, action_step, action_fails, cell, spec_start, first_open_slot, nb, wrapped};

verus! {

/// A move from the organism's cell by `(dx, dy)` goes to the cell
/// `(x + dx, y + dy)` wrapped onto the torus when the organism has the move
/// cost (by the energy its actions are decided on), nobody is recorded on
/// that cell and it is not an obstacle: the organism stands there, pays the
/// move cost (down to zero at most), is recorded there and no longer on its
/// old cell; every other organism and every tile stay. Otherwise nothing
/// changes.
pub proof fn lemma_move_rule(v: SimView, k: int, dx: i32, dy: i32, energy: int, post: SimView)
    requires
        crate::world::simulation::sim_wf(v),
        0 <= k < v.organisms.len(),
        !action_fails(v, k, Action::Move { dx, dy }, v.organisms[k].position, energy),
        action_step(v, k, Action::Move { dx, dy }, v.organisms[k].position, energy, post),
    ensures
        ({
            let o = v.organisms[k];
            let to = o.position.spec_add(dx as int, dy as int).spec_wrap(v.width as int, v.height as int);
            let cost = v.config.energy_config.move_cost as int;
            if energy >= cost && v.occupants[cell(v, to)] is None && v.tiles[cell(v, to)].tile_type != TileType::Obstacle {
                &&& post.organisms.len() == v.organisms.len()
                &&& post.organisms[k].position == to
                &&& post.organisms[k].energy == (if o.energy >= cost { o.energy - cost } else { 0 })
                &&& post.organisms[k].id == o.id
                &&& post.occupants[cell(v, to)] == Some(o.id)
                &&& (cell(v, o.position) != cell(v, to) ==> post.occupants[cell(v, o.position)] is None)
                &&& forall|j: int| 0 <= j < v.organisms.len() && j != k ==> post.organisms[j] == v.organisms[j]
                &&& post.tiles == v.tiles
            } else {
                post == v
            }
        }),
{
    let o = v.organisms[k];
    let cost = v.config.energy_config.move_cost as int;
    let to = wrapped(v, o.position.spec_add(dx as int, dy as int));
    if energy >= cost {
        crate::world::simulation::lemma_wrapped_in_grid(v, o.position.spec_add(dx as int, dy as int));
        crate::world::simulation::lemma_in_grid_cell(v, to);
        crate::world::simulation::lemma_in_grid_cell(v, o.position);
    }
}

/// Eating takes from the tile the organism stands on, when it is a
/// resource tile with something left: at most `MAX_BITE` units leave the
/// tile, the organism gains the configured gain for that many units and
/// counts one more meal; nothing else changes. On any other tile nothing
/// changes.
pub proof fn lemma_eat_rule(v: SimView, k: int, energy: int, post: SimView)
    requires
        crate::world::simulation::sim_wf(v),
        0 <= k < v.organisms.len(),
        !action_fails(v, k, Action::Eat, v.organisms[k].position, energy),
        action_step(v, k, Action::Eat, v.organisms[k].position, energy, post),
    ensures
        ({
            let o = v.organisms[k];
            let c = cell(v, o.position);
            let t = v.tiles[c];
            let taken = if t.resource_amount < MAX_BITE { t.resource_amount as int } else { MAX_BITE as int };
            if t.tile_type == TileType::Resource && t.resource_amount > 0 {
                &&& post.tiles[c].resource_amount == t.resource_amount - taken
                &&& post.tiles[c].tile_type == TileType::Resource
                &&& post.tiles[c].max_resource == t.max_resource
                &&& forall|d: int| 0 <= d < v.tiles.len() && d != c ==> post.tiles[d] == v.tiles[d]
                &&& post.organisms[k].energy == o.energy + v.config.energy_config.eat_gain@[taken]
                &&& post.organisms[k].metrics.times_eaten == o.metrics.times_eaten + 1
                &&& post.organisms[k].position == o.position
                &&& forall|j: int| 0 <= j < v.organisms.len() && j != k ==> post.organisms[j] == v.organisms[j]
                &&& post.occupants == v.occupants
            } else {
                post == v
            }
        }),
{
    let o = v.organisms[k];
    let c = cell(v, o.position);
    let t = v.tiles[c];
    if t.tile_type == TileType::Resource && t.resource_amount > 0 {
        crate::world::simulation::lemma_in_grid_cell(v, o.position);
    }
}

/// The start of a turn charges the basal cost: with enough energy the
/// organism pays it, ages by one tick and runs; otherwise its energy drops
/// to zero, its net energy is recorded, and it does not run. Nothing but
/// that organism changes.
pub proof fn lemma_start_rule(v: SimView, k: int)
    requires
        0 <= k < v.organisms.len(),
        !crate::world::simulation::start_fails(v, k),
    ensures
        ({
            let o = v.organisms[k];
            let b = v.config.energy_config.basal_cost as int;
            let (post, runs) = spec_start(v, k);
            &&& runs == (o.energy >= b)
            &&& (runs ==> post.organisms[k].energy == o.energy - b && post.organisms[k].age == o.age + 1)
            &&& (!runs ==> post.organisms[k].energy == 0 && post.organisms[k].age == o.age
                && post.organisms[k].metrics.net_energy == 0 - v.config.energy_config.initial_energy)
            &&& post.organisms.len() == v.organisms.len()
            &&& forall|j: int| 0 <= j < v.organisms.len() && j != k ==> post.organisms[j] == v.organisms[j]
            &&& post.occupants == v.occupants
            &&& post.tiles == v.tiles
        }),
{
}

/// Reproduction: when the rules allow it, every attempt is counted. It
/// does nothing more when the energy the organism's actions are decided on
/// is below the cost or the minimum, or the population is full, or no
/// neighbouring cell can take a child. Otherwise, when the child's random
/// identifier is new, one child is born on a neighbouring cell (one step
/// or none on each axis, not the parent's own, wrapped) on which nobody
/// was recorded and that is not an obstacle: it joins the organisms
/// last, belongs to the parent's lineage, has not aged, starts with the
/// configured offspring energy (boosted for a parent born after the first
/// tick) and is recorded on its cell; the parent stays where it is, pays
/// the cost (down to zero at most), gets 1000 back when it was born after
/// the first tick, and counts one more child; one more success is
/// counted.
pub proof fn lemma_reproduce_rule(v: SimView, k: int, energy: int, post: SimView)
    requires
        crate::world::simulation::sim_wf(v),
        0 <= k < v.organisms.len(),
        v.config.dynamic_rules.allow_reproduction,
        !action_fails(v, k, Action::Reproduce, v.organisms[k].position, energy),
        action_step(v, k, Action::Reproduce, v.organisms[k].position, energy, post),
    ensures
        post.reproduction_attempts == v.reproduction_attempts + 1,
        ({
            let ec = v.config.energy_config;
            let o = v.organisms[k];
            let blocked = energy < ec.reproduce_cost || energy < ec.min_reproduce_energy
                || v.organisms.len() >= v.config.dynamic_rules.max_population;
            let j = first_open_slot(v, o.position, 0);
            if blocked || j < 0 {
                &&& post.organisms == v.organisms
                &&& post.occupants == v.occupants
                &&& post.reproduction_successes == v.reproduction_successes
            } else if post.organisms.len() == v.organisms.len() + 1 {
                let child = post.organisms[v.organisms.len() as int];
                let paid = if o.energy >= ec.reproduce_cost { o.energy - ec.reproduce_cost } else { 0 };
                &&& exists|a: int, b: int| -1 <= a <= 1 && -1 <= b <= 1 && !(a == 0 && b == 0)
                    && child.position == #[trigger] wrapped(v, o.position.spec_add(a, b))
                &&& v.occupants[cell(v, child.position)] is None
                &&& v.tiles[cell(v, child.position)].tile_type != TileType::Obstacle
                &&& post.occupants[cell(v, child.position)] == Some(child.id)
                &&& child.lineage_id == o.lineage_id
                &&& child.age == 0
                &&& child.energy == (if o.birth_tick > 1 { ec.boosted_offspring_energy } else { ec.offspring_energy })
                &&& post.organisms[k].position == o.position
                &&& post.organisms[k].energy == (if o.birth_tick > 1 { paid + 1000 } else { paid })
                &&& post.organisms[k].metrics.offspring_count == o.metrics.offspring_count + 1
                &&& post.reproduction_successes == v.reproduction_successes + 1
            } else {
                post.reproduction_successes == v.reproduction_successes + 1
            }
        }),
{
    let ec = v.config.energy_config;
    let o = v.organisms[k];
    let j = first_open_slot(v, o.position, 0);
    if !crate::world::simulation::repro_blocked(v, energy) && j >= 0 {
        crate::world::occupancy::lemma_first_open_slot_open(v, o.position, 0);
        crate::world::occupancy::lemma_birth_cell(v, k, energy);
        crate::world::grid::lemma_neighbor_offsets();
        let (a, b) = crate::world::grid::neighbor_offset(1, j);
        assert(-1 <= a <= 1 && -1 <= b <= 1);
        assert(!(a == 0 && b == 0));
        assert(nb(o.position, j) == o.position.spec_add(a, b));
        if post.organisms.len() == v.organisms.len() + 1 {
            let p1 = crate::world::simulation::parent_after(v, k);
            let v1 = crate::world::simulation::with_org(crate::world::simulation::with_attempt(v), k, p1);
            let w = wrapped(v, nb(o.position, j));
            let p2 = if o.birth_tick > 1 { p1.gained(1000) } else { p1 };
            let c = choose|c: crate::world::organism::OrganismView| #[trigger] crate::world::simulation::offspring_of(c, v, k, w) && post == (SimView {
                organisms: crate::world::simulation::insert_org(v1.organisms.update(k, p2), c),
                occupants: v.occupants.update(cell(v, w), Some(c.id)),
                reproduction_successes: (v.reproduction_successes + 1) as u64,
                total_offspring_born: (v.total_offspring_born + 1) as u64,
                ..v1
            });
            let orgs = v1.organisms.update(k, p2);
            assert(crate::world::simulation::index_of(orgs, c.id) < 0);
            assert(post.organisms[v.organisms.len() as int] == c);
            assert(post.organisms[k] == p2);
        }
    }
}

} // verus!
