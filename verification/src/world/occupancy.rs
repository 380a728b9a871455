//! One organism per cell: every organism is recorded on the cell it stands
//! on, so no two organisms share a cell. A new world starts so and every
//! step of the engine keeps it: a turn's actions each start from the cell
//! the organism stands on at that moment. Records also never go stale:
//! every record is of an organism standing on that cell, as long as the
//! random identifiers of newborn organisms are not already taken.

use vstd::prelude::*;
use crate::runtime::context::Action;
use crate::types::Position;
use crate::world::organism::OrganismView;
use crate::world::simulation::{
    SimView, sim_wf, cell, in_grid, wraps, index_of, insert_org, spawned, spawn_step, spawn_trace, spec_start,
    after_cost, action_step, action_fails, actions_trace, spec_move, move_target, move_opens, spec_reproduce,
    repro_blocked, with_attempt, parent_after, with_org, first_open_slot, slot_open, offspring_of, nb, wrapped,
    hazards_upto, alive, dead_cell, lemma_alive_keeps, lemma_in_grid_cell, lemma_wrapped_in_grid,
};
use crate::world::grid::{neighbor_offset, lemma_neighbor_offsets};

verus! {

/// Every organism is recorded on the cell it stands on.
pub open spec fn occupancy_ok(v: SimView) -> bool {
    forall|i: int| 0 <= i < v.organisms.len() ==>
        v.occupants[cell(v, (#[trigger] v.organisms[i]).position)] == Some(v.organisms[i].id)
}

/// No organism but the `k`-th stands on the cell of `pos`.
pub open spec fn no_other_on(v: SimView, k: int, pos: Position) -> bool {
    forall|j: int| 0 <= j < v.organisms.len() && j != k ==> cell(v, (#[trigger] v.organisms[j]).position) != cell(v, pos)
}

/// The grid has one record per cell and every organism stands inside it.
pub open spec fn cells_ok(v: SimView) -> bool {
    &&& 0 <= v.width
    &&& 0 <= v.height
    &&& v.occupants.len() == v.width * v.height
    &&& forall|i: int| 0 <= i < v.organisms.len() ==> in_grid(v, (#[trigger] v.organisms[i]).position)
}

/// The action is a move from `pos` that takes place in `v`: enough energy
/// and an open target.
pub open spec fn move_taken(v: SimView, a: Action, pos: Position, energy: int) -> bool {
    match a {
        Action::Move { dx, dy } => energy >= v.config.energy_config.move_cost
            && move_opens(v, move_target(v, pos, dx as int, dy as int)),
        _ => false,
    }
}

/// At most one organism per cell: where every organism is recorded on its
/// own cell, no two organisms share a cell or a position.
pub proof fn lemma_one_organism_per_cell(v: SimView)
    requires
        sim_wf(v),
        occupancy_ok(v),
    ensures
        forall|i: int, j: int| 0 <= i < v.organisms.len() && 0 <= j < v.organisms.len() && i != j ==> {
            &&& cell(v, v.organisms[i].position) != cell(v, v.organisms[j].position)
            &&& v.organisms[i].position != v.organisms[j].position
        },
{
    assert forall|i: int, j: int| 0 <= i < v.organisms.len() && 0 <= j < v.organisms.len() && i != j implies {
        &&& cell(v, v.organisms[i].position) != cell(v, v.organisms[j].position)
        &&& v.organisms[i].position != v.organisms[j].position
    } by {
        assert(v.occupants[cell(v, v.organisms[i].position)] == Some(v.organisms[i].id));
        assert(v.occupants[cell(v, v.organisms[j].position)] == Some(v.organisms[j].id));
    }
}

/// A state whose organisms stand where those of `v` stood, with the same
/// identifiers and records, keeps every organism on its own record.
proof fn lemma_same_places(v: SimView, post: SimView)
    requires
        occupancy_ok(v),
        post.width == v.width,
        post.occupants == v.occupants,
        post.organisms.len() == v.organisms.len(),
        forall|i: int| 0 <= i < v.organisms.len() ==> (#[trigger] post.organisms[i]).position == v.organisms[i].position
            && post.organisms[i].id == v.organisms[i].id,
    ensures
        occupancy_ok(post),
{
    assert forall|i: int| 0 <= i < post.organisms.len() implies
        post.occupants[cell(post, (#[trigger] post.organisms[i]).position)] == Some(post.organisms[i].id) by {
        assert(v.occupants[cell(v, v.organisms[i].position)] == Some(v.organisms[i].id));
    }
}

/// Inserting an organism recorded on a cell where nobody was recorded
/// keeps every organism on its own record.
proof fn lemma_insert_places(v: SimView, orgs: Seq<OrganismView>, o: OrganismView, post: SimView)
    requires
        v.occupants.len() == v.width * v.height,
        in_grid(v, o.position),
        forall|i: int| 0 <= i < orgs.len() ==> in_grid(v, (#[trigger] orgs[i]).position)
            && v.occupants[cell(v, orgs[i].position)] == Some(orgs[i].id),
        v.occupants[cell(v, o.position)] is None,
        post.width == v.width,
        post.height == v.height,
        post.organisms == insert_org(orgs, o),
        post.occupants == v.occupants.update(cell(v, o.position), Some(o.id)),
    ensures
        occupancy_ok(post),
        forall|i: int| 0 <= i < post.organisms.len() ==> in_grid(post, (#[trigger] post.organisms[i]).position),
{
    let idx = index_of(orgs, o.id);
    lemma_in_grid_cell(v, o.position);
    assert forall|i: int| 0 <= i < post.organisms.len() implies
        post.occupants[cell(post, (#[trigger] post.organisms[i]).position)] == Some(post.organisms[i].id)
        && in_grid(post, post.organisms[i].position) by {
        if (idx >= 0 && i == idx) || (idx < 0 && i == orgs.len()) {
            assert(post.organisms[i] == o);
        } else {
            assert(post.organisms[i] == orgs[i]);
            assert(in_grid(v, orgs[i].position));
            lemma_in_grid_cell(v, orgs[i].position);
            assert(v.occupants[cell(v, orgs[i].position)] == Some(orgs[i].id));
        }
    }
}

/// Spawning an organism keeps every organism on its own record.
pub proof fn lemma_spawn_keeps_occupancy(v: SimView, l: crate::types::LineageId, g: crate::ir::program::ProgramModel, post: SimView)
    requires
        occupancy_ok(v),
        cells_ok(v),
        spawn_step(v, l, g, post),
    ensures
        occupancy_ok(post),
        cells_ok(post),
{
    let (o, p) = choose|o: OrganismView, p: Position| #[trigger] spawned(v, l, g, o, p)
        && post == (SimView {
            organisms: insert_org(v.organisms, o),
            occupants: v.occupants.update(cell(v, p), Some(o.id)),
            ..v
        });
    lemma_cell_in_range(v, p);
    lemma_insert_places(v, v.organisms, o, post);
}

/// A new world keeps every organism on its own record: spawning organisms
/// one after the other into a world without any.
pub proof fn lemma_spawned_world_occupancy(genomes: Seq<(crate::types::LineageId, crate::ir::program::ProgramModel)>, trace: Seq<SimView>)
    requires
        spawn_trace(genomes, trace),
        trace[0].organisms.len() == 0,
        0 <= trace[0].width,
        0 <= trace[0].height,
        trace[0].occupants.len() == trace[0].width * trace[0].height,
    ensures
        occupancy_ok(trace.last()),
{
    lemma_spawned_prefix(genomes, trace, trace.len() - 1);
}

proof fn lemma_spawned_prefix(genomes: Seq<(crate::types::LineageId, crate::ir::program::ProgramModel)>, trace: Seq<SimView>, n: int)
    requires
        spawn_trace(genomes, trace),
        trace[0].organisms.len() == 0,
        0 <= trace[0].width,
        0 <= trace[0].height,
        trace[0].occupants.len() == trace[0].width * trace[0].height,
        0 <= n < trace.len(),
    ensures
        occupancy_ok(trace[n]),
        cells_ok(trace[n]),
    decreases n,
{
    if n > 0 {
        let i = n - 1;
        lemma_spawned_prefix(genomes, trace, i);
        assert(spawn_step(trace[i], genomes[i].0, genomes[i].1, trace[i + 1]));
        lemma_spawn_keeps_occupancy(trace[i], genomes[i].0, genomes[i].1, trace[i + 1]);
    }
}

/// The start of a turn keeps every organism on its own record.
pub proof fn lemma_start_keeps_occupancy(v: SimView, k: int)
    requires
        occupancy_ok(v),
        0 <= k < v.organisms.len(),
    ensures
        occupancy_ok(spec_start(v, k).0),
{
    lemma_same_places(v, spec_start(v, k).0);
}

/// Paying for fuel keeps every organism on its own record.
pub proof fn lemma_cost_keeps_occupancy(v: SimView, k: int, fuel: u64)
    requires
        occupancy_ok(v),
        0 <= k < v.organisms.len(),
    ensures
        occupancy_ok(after_cost(v, k, fuel)),
{
    lemma_same_places(v, after_cost(v, k, fuel));
}

/// The record cells of the grid's positions lie within the records.
proof fn lemma_cell_in_range(v: SimView, p: Position)
    requires
        v.occupants.len() == v.width * v.height,
        in_grid(v, p),
    ensures
        0 <= cell(v, p) < v.occupants.len(),
{
    lemma_in_grid_cell(v, p);
}

/// A move keeps every organism on its own record unless it leaves a cell
/// on which another organism stands.
proof fn lemma_move_keeps_occupancy(v: SimView, k: int, pos: Position, energy: int, dx: int, dy: int)
    requires
        sim_wf(v),
        occupancy_ok(v),
        0 <= k < v.organisms.len(),
        in_grid(v, pos),
        !crate::world::simulation::move_fails(v, k, pos, energy, dx, dy),
        (energy >= v.config.energy_config.move_cost && move_opens(v, move_target(v, pos, dx, dy)))
            ==> no_other_on(v, k, pos),
    ensures
        occupancy_ok(spec_move(v, k, pos, energy, dx, dy)),
{
    let post = spec_move(v, k, pos, energy, dx, dy);
    if energy >= v.config.energy_config.move_cost && move_opens(v, move_target(v, pos, dx, dy)) {
        let t = move_target(v, pos, dx, dy);
        lemma_wrapped_in_grid(v, pos.spec_add(dx, dy));
        lemma_cell_in_range(v, t);
        lemma_cell_in_range(v, pos);
        assert forall|i: int| 0 <= i < post.organisms.len() implies
            post.occupants[cell(post, (#[trigger] post.organisms[i]).position)] == Some(post.organisms[i].id) by {
            if i != k {
                assert(post.organisms[i] == v.organisms[i]);
                assert(in_grid(v, v.organisms[i].position));
                lemma_cell_in_range(v, v.organisms[i].position);
                assert(v.occupants[cell(v, v.organisms[i].position)] == Some(v.organisms[i].id));
                assert(cell(v, v.organisms[i].position) != cell(v, pos));
            }
        }
    }
}

/// The first open neighbour, when there is one, is open and one of the
/// eight.
pub proof fn lemma_first_open_slot_open(v: SimView, p: Position, j: int)
    requires
        first_open_slot(v, p, j) >= 0,
    ensures
        slot_open(v, p, first_open_slot(v, p, j)),
        first_open_slot(v, p, j) < 8,
    decreases 8 - j,
{
    if 0 <= j < 8 && !slot_open(v, p, j) {
        lemma_first_open_slot_open(v, p, j + 1);
    }
}

/// The cell a birth takes: where the first open neighbour lies, inside
/// the grid, with nobody recorded on it.
pub proof fn lemma_birth_cell(v: SimView, k: int, energy: int)
    requires
        sim_wf(v),
        0 <= k < v.organisms.len(),
        !crate::world::simulation::reproduce_fails(v, k, energy),
        !repro_blocked(v, energy),
        first_open_slot(v, v.organisms[k].position, 0) >= 0,
    ensures
        ({
            let w = wrapped(v, nb(v.organisms[k].position, first_open_slot(v, v.organisms[k].position, 0)));
            &&& in_grid(v, w)
            &&& 0 <= cell(v, w) < v.occupants.len()
            &&& v.occupants[cell(v, w)] is None
        }),
{
    let pp = v.organisms[k].position;
    let j = first_open_slot(v, pp, 0);
    lemma_first_open_slot_open(v, pp, 0);
    lemma_neighbor_offsets();
    assert(-1 <= neighbor_offset(1, j).0 <= 1 && -1 <= neighbor_offset(1, j).1 <= 1);
    assert(wraps(v, pp.spec_add(neighbor_offset(1, j).0, neighbor_offset(1, j).1)));
    assert(in_grid(v, pp));
    lemma_wrapped_in_grid(v, nb(pp, j));
    lemma_cell_in_range(v, wrapped(v, nb(pp, j)));
}

/// An action keeps every organism on its own record, unless it is a move
/// that leaves a cell on which another organism stands.
pub proof fn lemma_action_keeps_occupancy(v: SimView, k: int, a: Action, pos: Position, energy: int, post: SimView)
    requires
        sim_wf(v),
        occupancy_ok(v),
        0 <= k < v.organisms.len(),
        in_grid(v, pos),
        !action_fails(v, k, a, pos, energy),
        action_step(v, k, a, pos, energy, post),
        move_taken(v, a, pos, energy) ==> no_other_on(v, k, pos),
    ensures
        occupancy_ok(post),
{
    match a {
        Action::Move { dx, dy } => {
            lemma_move_keeps_occupancy(v, k, pos, energy, dx as int, dy as int);
        },
        Action::Eat => {
            lemma_same_places(v, post);
        },
        Action::Attack { amount, .. } => {
            if v.config.dynamic_rules.allow_combat {
                lemma_same_places(v, post);
            }
        },
        Action::Reproduce => {
            if v.config.dynamic_rules.allow_reproduction {
                lemma_reproduce_keeps_occupancy(v, k, energy, post);
            }
        },
        _ => {},
    }
}

/// Reproduction keeps every organism on its own record.
proof fn lemma_reproduce_keeps_occupancy(v: SimView, k: int, energy: int, post: SimView)
    requires
        sim_wf(v),
        occupancy_ok(v),
        0 <= k < v.organisms.len(),
        !crate::world::simulation::reproduce_fails(v, k, energy),
        spec_reproduce(v, k, energy, post),
    ensures
        occupancy_ok(post),
{
    let v0 = with_attempt(v);
    if repro_blocked(v, energy) {
        lemma_same_places(v, post);
    } else {
        let p1 = parent_after(v, k);
        let v1 = with_org(v0, k, p1);
        let pp = v.organisms[k].position;
        let j = first_open_slot(v, pp, 0);
        if j < 0 {
            lemma_same_places(v, post);
        } else {
            let w = wrapped(v, nb(pp, j));
            let p2 = if v.organisms[k].birth_tick > 1 { p1.gained(1000) } else { p1 };
            let o = choose|o: OrganismView| #[trigger] offspring_of(o, v, k, w) && post == (SimView {
                organisms: insert_org(v1.organisms.update(k, p2), o),
                occupants: v.occupants.update(cell(v, w), Some(o.id)),
                reproduction_successes: (v.reproduction_successes + 1) as u64,
                total_offspring_born: (v.total_offspring_born + 1) as u64,
                ..v1
            });
            lemma_birth_cell(v, k, energy);
            let orgs = v1.organisms.update(k, p2);
            assert forall|i: int| 0 <= i < orgs.len() implies in_grid(v, (#[trigger] orgs[i]).position)
                && v.occupants[cell(v, orgs[i].position)] == Some(orgs[i].id) by {
                assert(in_grid(v, v.organisms[i].position));
                assert(v.occupants[cell(v, v.organisms[i].position)] == Some(v.organisms[i].id));
            }
            lemma_insert_places(v, orgs, o, post);
        }
    }
}

/// Where every organism is recorded on its own cell, no other organism
/// stands on the cell of the `k`-th.
pub proof fn lemma_own_cell_alone(v: SimView, k: int)
    requires
        sim_wf(v),
        occupancy_ok(v),
        0 <= k < v.organisms.len(),
    ensures
        no_other_on(v, k, v.organisms[k].position),
{
    assert forall|j: int| 0 <= j < v.organisms.len() && j != k implies
        cell(v, (#[trigger] v.organisms[j]).position) != cell(v, v.organisms[k].position) by {
        assert(v.occupants[cell(v, v.organisms[j].position)] == Some(v.organisms[j].id));
        assert(v.occupants[cell(v, v.organisms[k].position)] == Some(v.organisms[k].id));
        assert(v.organisms[j].id != v.organisms[k].id);
    }
}

/// The runs of a turn keep every organism on its own record up to step `n`.
proof fn lemma_trace_prefix(v0: SimView, k: int, actions: Seq<Action>, energy: int, trace: Seq<SimView>, n: int)
    requires
        actions_trace(v0, k, actions, energy, trace),
        0 <= k,
        occupancy_ok(v0),
        0 <= n < trace.len(),
    ensures
        occupancy_ok(trace[n]),
    decreases n,
{
    if n > 0 {
        let i = n - 1;
        lemma_trace_prefix(v0, k, actions, energy, trace, i);
        let t = trace[i];
        let pos = t.organisms[k].position;
        assert(sim_wf(t) && k < t.organisms.len());
        assert(in_grid(t, pos));
        assert(!action_fails(t, k, actions[i], pos, energy));
        assert(action_step(t, k, actions[i], pos, energy, trace[i + 1]));
        lemma_own_cell_alone(t, k);
        lemma_action_keeps_occupancy(t, k, actions[i], pos, energy, trace[i + 1]);
    }
}

/// A turn keeps every organism recorded on its own cell: each of its
/// actions starts from the cell the organism stands on.
pub proof fn lemma_turn_keeps_occupancy(v0: SimView, k: int, actions: Seq<Action>, energy: int, trace: Seq<SimView>)
    requires
        actions_trace(v0, k, actions, energy, trace),
        0 <= k,
        occupancy_ok(v0),
    ensures
        occupancy_ok(trace.last()),
{
    lemma_trace_prefix(v0, k, actions, energy, trace, trace.len() - 1);
}

/// Recording the organisms' net energies keeps every organism on its own
/// record.
pub proof fn lemma_finalized_keeps_occupancy(v: SimView)
    requires
        occupancy_ok(v),
    ensures
        occupancy_ok(SimView {
            organisms: crate::world::simulation::finalized_all(v.organisms, v.config.energy_config.initial_energy as int),
            ..v
        }),
{
    lemma_same_places(v, SimView {
        organisms: crate::world::simulation::finalized_all(v.organisms, v.config.energy_config.initial_energy as int),
        ..v
    });
}

/// The hazard damage changes energies only.
proof fn lemma_hazards_places(v: SimView, n: int)
    ensures
        hazards_upto(v, n).len() == v.organisms.len(),
        forall|i: int| 0 <= i < v.organisms.len() ==> (#[trigger] hazards_upto(v, n)[i]).position == v.organisms[i].position
            && hazards_upto(v, n)[i].id == v.organisms[i].id,
    decreases n,
{
    if n > 0 {
        lemma_hazards_places(v, n - 1);
    }
}

/// Hazard damage keeps every organism on its own record.
pub proof fn lemma_hazards_keep_occupancy(v: SimView)
    requires
        occupancy_ok(v),
    ensures
        occupancy_ok(SimView { organisms: hazards_upto(v, v.occupants.len() as int), ..v }),
{
    lemma_hazards_places(v, v.occupants.len() as int);
    lemma_same_places(v, SimView { organisms: hazards_upto(v, v.occupants.len() as int), ..v });
}

/// The living organisms have energy left.
proof fn lemma_alive_have_energy(orgs: Seq<OrganismView>)
    ensures
        forall|a: int| 0 <= a < alive(orgs).len() ==> (#[trigger] alive(orgs)[a]).energy > 0,
    decreases orgs.len(),
{
    if orgs.len() > 0 {
        lemma_alive_have_energy(orgs.drop_last());
        assert forall|a: int| 0 <= a < alive(orgs).len() implies (#[trigger] alive(orgs)[a]).energy > 0 by {
            if a < alive(orgs.drop_last()).len() {
                assert(alive(orgs)[a] == alive(orgs.drop_last())[a]);
            }
        }
    }
}

/// Removing the dead, and the records on the cells they stand on, keeps
/// every organism on its own record.
pub proof fn lemma_removal_keeps_occupancy(v: SimView)
    requires
        sim_wf(v),
        occupancy_ok(v),
    ensures
        occupancy_ok(SimView {
            organisms: alive(v.organisms),
            occupants: Seq::new(v.occupants.len(), |c: int| if dead_cell(v, c) { None } else { v.occupants[c] }),
            ..v
        }),
{
    let post = SimView {
        organisms: alive(v.organisms),
        occupants: Seq::new(v.occupants.len(), |c: int| if dead_cell(v, c) { None } else { v.occupants[c] }),
        ..v
    };
    lemma_alive_keeps(v.organisms);
    lemma_alive_have_energy(v.organisms);
    assert forall|a: int| 0 <= a < post.organisms.len() implies
        post.occupants[cell(post, (#[trigger] post.organisms[a]).position)] == Some(post.organisms[a].id) by {
        let o = alive(v.organisms)[a];
        let i = choose|i: int| 0 <= i < v.organisms.len() && v.organisms[i] == o;
        let c = cell(v, o.position);
        assert(v.occupants[cell(v, v.organisms[i].position)] == Some(v.organisms[i].id));
        assert(in_grid(v, v.organisms[i].position));
        lemma_in_grid_cell(v, o.position);
        if dead_cell(v, c) {
            let x = choose|x: int| 0 <= x < v.organisms.len() && v.organisms[x].energy <= 0
                && cell(v, v.organisms[x].position) == c;
            assert(v.occupants[cell(v, v.organisms[x].position)] == Some(v.organisms[x].id));
            assert(x == i);
            assert(false);
        }
    }
}

// ---------------------------------------------------------------------------
// No stale records.

/// Some organism with the identifier recorded on cell `c` stands on it.
pub open spec fn recorded_here(v: SimView, c: int) -> bool {
    exists|i: int| 0 <= i < v.organisms.len() && (#[trigger] v.organisms[i]).id == v.occupants[c]->0
        && cell(v, v.organisms[i].position) == c
}

/// Every record on a cell is of an organism standing on that cell.
pub open spec fn records_ok(v: SimView) -> bool {
    forall|c: int| 0 <= c < v.occupants.len() && (#[trigger] v.occupants[c]) is Some ==> recorded_here(v, c)
}

/// Every birth from `v` to `post` added an organism: newborn identifiers
/// were not taken (a random identifier equal to a living one replaces
/// that organism instead).
pub open spec fn births_fresh(v: SimView, post: SimView) -> bool {
    post.organisms.len() - v.organisms.len() == post.reproduction_successes - v.reproduction_successes
}

/// Exactly one record per organism: where every organism is recorded on its
/// own cell and every record is of an organism standing there, the cells
/// recording an organism's identifier are exactly the cell it stands on.
pub proof fn lemma_one_record_per_organism(v: SimView)
    requires
        sim_wf(v),
        occupancy_ok(v),
        records_ok(v),
    ensures
        forall|k: int, c: int| #![trigger v.organisms[k], v.occupants[c]] 0 <= k < v.organisms.len() && 0 <= c < v.occupants.len() ==>
            (v.occupants[c] == Some(v.organisms[k].id) <==> c == cell(v, v.organisms[k].position)),
{
    assert forall|k: int, c: int| #![trigger v.organisms[k], v.occupants[c]] 0 <= k < v.organisms.len() && 0 <= c < v.occupants.len() implies
        (v.occupants[c] == Some(v.organisms[k].id) <==> c == cell(v, v.organisms[k].position)) by {
        assert(v.occupants[cell(v, v.organisms[k].position)] == Some(v.organisms[k].id));
        if v.occupants[c] == Some(v.organisms[k].id) {
            assert(recorded_here(v, c));
            let i = choose|i: int| 0 <= i < v.organisms.len() && (#[trigger] v.organisms[i]).id == v.occupants[c]->0
                && cell(v, v.organisms[i].position) == c;
            assert(v.organisms[i].id == v.organisms[k].id);
        }
    }
}

/// A state with the same records whose first organisms stand where those
/// of `v` stood, with the same identifiers, keeps every record of a
/// standing organism.
proof fn lemma_same_records(v: SimView, post: SimView)
    requires
        records_ok(v),
        post.width == v.width,
        post.occupants == v.occupants,
        post.organisms.len() >= v.organisms.len(),
        forall|i: int| 0 <= i < v.organisms.len() ==> (#[trigger] post.organisms[i]).position == v.organisms[i].position
            && post.organisms[i].id == v.organisms[i].id,
    ensures
        records_ok(post),
{
    assert forall|c: int| 0 <= c < post.occupants.len() && (#[trigger] post.occupants[c]) is Some implies recorded_here(post, c) by {
        assert(v.occupants[c] is Some);
        assert(recorded_here(v, c));
        let i = choose|i: int| 0 <= i < v.organisms.len() && (#[trigger] v.organisms[i]).id == v.occupants[c]->0
            && cell(v, v.organisms[i].position) == c;
        assert(post.organisms[i].id == post.occupants[c]->0);
    }
}

/// The start of a turn keeps every record of a standing organism.
pub proof fn lemma_start_keeps_records(v: SimView, k: int)
    requires
        records_ok(v),
        0 <= k < v.organisms.len(),
    ensures
        records_ok(spec_start(v, k).0),
{
    lemma_same_records(v, spec_start(v, k).0);
}

/// Paying for fuel keeps every record of a standing organism.
pub proof fn lemma_cost_keeps_records(v: SimView, k: int, fuel: u64)
    requires
        records_ok(v),
        0 <= k < v.organisms.len(),
    ensures
        records_ok(after_cost(v, k, fuel)),
{
    lemma_same_records(v, after_cost(v, k, fuel));
}

/// An action never removes an organism, and adds one only with a birth.
proof fn lemma_action_counts(v: SimView, k: int, a: Action, pos: Position, energy: int, post: SimView)
    requires
        sim_wf(v),
        0 <= k < v.organisms.len(),
        !action_fails(v, k, a, pos, energy),
        action_step(v, k, a, pos, energy, post),
    ensures
        v.organisms.len() <= post.organisms.len(),
        v.reproduction_successes <= post.reproduction_successes,
        post.organisms.len() - v.organisms.len() <= post.reproduction_successes - v.reproduction_successes,
{
    match a {
        Action::Reproduce => {
            if v.config.dynamic_rules.allow_reproduction && !repro_blocked(v, energy) {
                let pp = v.organisms[k].position;
                let j = first_open_slot(v, pp, 0);
                if j >= 0 {
                    let p1 = parent_after(v, k);
                    let v1 = with_org(with_attempt(v), k, p1);
                    let w = wrapped(v, nb(pp, j));
                    let p2 = if v.organisms[k].birth_tick > 1 { p1.gained(1000) } else { p1 };
                    let o = choose|o: OrganismView| #[trigger] offspring_of(o, v, k, w) && post == (SimView {
                        organisms: insert_org(v1.organisms.update(k, p2), o),
                        occupants: v.occupants.update(cell(v, w), Some(o.id)),
                        reproduction_successes: (v.reproduction_successes + 1) as u64,
                        total_offspring_born: (v.total_offspring_born + 1) as u64,
                        ..v1
                    });
                    assert(v.reproduction_attempts < u64::MAX);
                }
            }
        },
        _ => {},
    }
}

/// An action from the acting organism's own cell, whose births added
/// organisms, keeps every record of a standing organism.
pub proof fn lemma_action_keeps_records(v: SimView, k: int, a: Action, pos: Position, energy: int, post: SimView)
    requires
        sim_wf(v),
        occupancy_ok(v),
        records_ok(v),
        0 <= k < v.organisms.len(),
        pos == v.organisms[k].position,
        !action_fails(v, k, a, pos, energy),
        action_step(v, k, a, pos, energy, post),
        births_fresh(v, post),
    ensures
        records_ok(post),
{
    match a {
        Action::Move { dx, dy } => {
            let t = move_target(v, pos, dx as int, dy as int);
            if energy >= v.config.energy_config.move_cost && move_opens(v, t) {
                lemma_wrapped_in_grid(v, pos.spec_add(dx as int, dy as int));
                lemma_cell_in_range(v, t);
                lemma_cell_in_range(v, pos);
                assert(v.occupants[cell(v, pos)] == Some(v.organisms[k].id));
                assert forall|c: int| 0 <= c < post.occupants.len() && (#[trigger] post.occupants[c]) is Some
                    implies recorded_here(post, c) by {
                    if c == cell(v, t) {
                        assert(post.organisms[k].position == t);
                        assert(cell(post, post.organisms[k].position) == c);
                    } else {
                        assert(c != cell(v, pos));
                        assert(post.occupants[c] == v.occupants[c]);
                        assert(recorded_here(v, c));
                        let i = choose|i: int| 0 <= i < v.organisms.len() && (#[trigger] v.organisms[i]).id == v.occupants[c]->0
                            && cell(v, v.organisms[i].position) == c;
                        if i == k {
                            assert(false);
                        }
                        assert(post.organisms[i] == v.organisms[i]);
                    }
                }
            }
        },
        Action::Eat => {
            lemma_same_records(v, post);
        },
        Action::Attack { amount, .. } => {
            lemma_same_records(v, post);
        },
        Action::Reproduce => {
            if v.config.dynamic_rules.allow_reproduction {
                let pp = v.organisms[k].position;
                let j = first_open_slot(v, pp, 0);
                if repro_blocked(v, energy) || j < 0 {
                    lemma_same_records(v, post);
                } else {
                    let p1 = parent_after(v, k);
                    let v1 = with_org(with_attempt(v), k, p1);
                    let w = wrapped(v, nb(pp, j));
                    let p2 = if v.organisms[k].birth_tick > 1 { p1.gained(1000) } else { p1 };
                    let o = choose|o: OrganismView| #[trigger] offspring_of(o, v, k, w) && post == (SimView {
                        organisms: insert_org(v1.organisms.update(k, p2), o),
                        occupants: v.occupants.update(cell(v, w), Some(o.id)),
                        reproduction_successes: (v.reproduction_successes + 1) as u64,
                        total_offspring_born: (v.total_offspring_born + 1) as u64,
                        ..v1
                    });
                    lemma_birth_cell(v, k, energy);
                    let orgs = v1.organisms.update(k, p2);
                    assert(v.reproduction_attempts < u64::MAX);
                    assert(index_of(orgs, o.id) < 0);
                    assert(post.organisms == orgs.push(o));
                    assert forall|c: int| 0 <= c < post.occupants.len() && (#[trigger] post.occupants[c]) is Some
                        implies recorded_here(post, c) by {
                        if c == cell(v, w) {
                            assert(post.organisms[orgs.len() as int] == o);
                            assert(cell(post, o.position) == c);
                        } else {
                            assert(post.occupants[c] == v.occupants[c]);
                            assert(recorded_here(v, c));
                            let i = choose|i: int| 0 <= i < v.organisms.len() && (#[trigger] v.organisms[i]).id == v.occupants[c]->0
                                && cell(v, v.organisms[i].position) == c;
                            assert(post.organisms[i] == orgs[i]);
                            assert(orgs[i].position == v.organisms[i].position && orgs[i].id == v.organisms[i].id);
                        }
                    }
                }
            } else {
                lemma_same_records(v, post);
            }
        },
        _ => {
            lemma_same_records(v, post);
        },
    }
}

/// Along a run of a turn, births and additions only grow: the surplus of
/// births over additions never shrinks.
proof fn lemma_trace_surplus(v0: SimView, k: int, actions: Seq<Action>, energy: int, trace: Seq<SimView>, i: int, m: int)
    requires
        actions_trace(v0, k, actions, energy, trace),
        0 <= k,
        0 <= i <= m < trace.len(),
    ensures
        trace[i].reproduction_successes - trace[i].organisms.len()
            <= trace[m].reproduction_successes - trace[m].organisms.len(),
        trace[i].organisms.len() <= trace[m].organisms.len(),
        trace[i].reproduction_successes <= trace[m].reproduction_successes,
    decreases m - i,
{
    if i < m {
        lemma_trace_surplus(v0, k, actions, energy, trace, i, m - 1);
        let t = trace[m - 1];
        assert(sim_wf(t) && k < t.organisms.len());
        assert(!action_fails(t, k, actions[m - 1], t.organisms[k].position, energy));
        assert(action_step(t, k, actions[m - 1], t.organisms[k].position, energy, trace[m]));
        lemma_action_counts(t, k, actions[m - 1], t.organisms[k].position, energy, trace[m]);
    }
}

/// The runs of a turn whose births all added organisms keep every record of
/// a standing organism, up to step `n`.
proof fn lemma_trace_records(v0: SimView, k: int, actions: Seq<Action>, energy: int, trace: Seq<SimView>, n: int)
    requires
        actions_trace(v0, k, actions, energy, trace),
        0 <= k,
        occupancy_ok(v0),
        records_ok(v0),
        births_fresh(v0, trace.last()),
        0 <= n < trace.len(),
    ensures
        records_ok(trace[n]),
    decreases n,
{
    if n > 0 {
        let i = n - 1;
        lemma_trace_records(v0, k, actions, energy, trace, i);
        lemma_trace_prefix(v0, k, actions, energy, trace, i);
        let t = trace[i];
        let pos = t.organisms[k].position;
        assert(sim_wf(t) && k < t.organisms.len());
        assert(!action_fails(t, k, actions[i], pos, energy));
        assert(action_step(t, k, actions[i], pos, energy, trace[n]));
        lemma_trace_surplus(v0, k, actions, energy, trace, 0, i);
        lemma_trace_surplus(v0, k, actions, energy, trace, n, trace.len() - 1);
        lemma_action_counts(t, k, actions[i], pos, energy, trace[n]);
        lemma_action_keeps_records(t, k, actions[i], pos, energy, trace[n]);
    }
}

/// A turn whose births all added organisms keeps every record of a
/// standing organism.
pub proof fn lemma_turn_keeps_records(v0: SimView, k: int, actions: Seq<Action>, energy: int, trace: Seq<SimView>)
    requires
        actions_trace(v0, k, actions, energy, trace),
        0 <= k,
        occupancy_ok(v0),
        records_ok(v0),
        births_fresh(v0, trace.last()),
    ensures
        records_ok(trace.last()),
{
    lemma_trace_records(v0, k, actions, energy, trace, trace.len() - 1);
}

/// Every organism with energy left is among the living.
proof fn lemma_alive_contains(orgs: Seq<OrganismView>, i: int)
    requires
        0 <= i < orgs.len(),
        orgs[i].energy > 0,
    ensures
        exists|a: int| 0 <= a < alive(orgs).len() && #[trigger] alive(orgs)[a] == orgs[i],
    decreases orgs.len(),
{
    let init = orgs.drop_last();
    if i == orgs.len() - 1 {
        assert(alive(orgs) == alive(init).push(orgs.last()));
        assert(alive(orgs)[alive(init).len() as int] == orgs[i]);
    } else {
        assert(init[i] == orgs[i]);
        lemma_alive_contains(init, i);
        let a = choose|a: int| 0 <= a < alive(init).len() && #[trigger] alive(init)[a] == init[i];
        assert(alive(orgs)[a] == alive(init)[a]);
    }
}

/// Removing the dead, and the records on the cells they stand on, keeps
/// every record of a standing organism.
pub proof fn lemma_removal_keeps_records(v: SimView)
    requires
        records_ok(v),
    ensures
        records_ok(SimView {
            organisms: alive(v.organisms),
            occupants: Seq::new(v.occupants.len(), |c: int| if dead_cell(v, c) { None } else { v.occupants[c] }),
            ..v
        }),
{
    let post = SimView {
        organisms: alive(v.organisms),
        occupants: Seq::new(v.occupants.len(), |c: int| if dead_cell(v, c) { None } else { v.occupants[c] }),
        ..v
    };
    assert forall|c: int| 0 <= c < post.occupants.len() && (#[trigger] post.occupants[c]) is Some implies recorded_here(post, c) by {
        assert(!dead_cell(v, c));
        assert(v.occupants[c] is Some);
        assert(recorded_here(v, c));
        let i = choose|i: int| 0 <= i < v.organisms.len() && (#[trigger] v.organisms[i]).id == v.occupants[c]->0
            && cell(v, v.organisms[i].position) == c;
        if v.organisms[i].energy <= 0 {
            assert(dead_cell(v, c));
        }
        lemma_alive_contains(v.organisms, i);
        let a = choose|a: int| 0 <= a < alive(v.organisms).len() && #[trigger] alive(v.organisms)[a] == v.organisms[i];
        assert(post.organisms[a] == v.organisms[i]);
    }
}

/// Placing a newborn organism under a fresh identifier on a cell where
/// nobody is recorded keeps every record of a standing organism.
proof fn lemma_insert_records(v: SimView, o: OrganismView, post: SimView)
    requires
        records_ok(v),
        in_grid(v, o.position),
        v.occupants.len() == v.width * v.height,
        index_of(v.organisms, o.id) < 0,
        post.width == v.width,
        post.organisms == v.organisms.push(o),
        post.occupants == v.occupants.update(cell(v, o.position), Some(o.id)),
    ensures
        records_ok(post),
{
    lemma_cell_in_range(v, o.position);
    assert forall|c: int| 0 <= c < post.occupants.len() && (#[trigger] post.occupants[c]) is Some implies recorded_here(post, c) by {
        if c == cell(v, o.position) {
            assert(post.organisms[v.organisms.len() as int] == o);
        } else {
            assert(v.occupants[c] is Some);
            assert(recorded_here(v, c));
            let i = choose|i: int| 0 <= i < v.organisms.len() && (#[trigger] v.organisms[i]).id == v.occupants[c]->0
                && cell(v, v.organisms[i].position) == c;
            assert(post.organisms[i] == v.organisms[i]);
        }
    }
}

/// Spawning an organism under a fresh identifier keeps every record of a
/// standing organism.
pub proof fn lemma_spawn_keeps_records(v: SimView, l: crate::types::LineageId, g: crate::ir::program::ProgramModel, post: SimView)
    requires
        records_ok(v),
        v.occupants.len() == v.width * v.height,
        spawn_step(v, l, g, post),
        post.organisms.len() == v.organisms.len() + 1,
    ensures
        records_ok(post),
{
    let (o, p) = choose|o: OrganismView, p: Position| #[trigger] spawned(v, l, g, o, p) && post == (SimView {
        organisms: insert_org(v.organisms, o),
        occupants: v.occupants.update(cell(v, p), Some(o.id)),
        ..v
    });
    assert(index_of(v.organisms, o.id) < 0);
    lemma_insert_records(v, o, post);
}

/// Recording the organisms' net energies keeps every record of a standing
/// organism.
pub proof fn lemma_finalized_keeps_records(v: SimView)
    requires
        records_ok(v),
    ensures
        records_ok(SimView {
            organisms: crate::world::simulation::finalized_all(v.organisms, v.config.energy_config.initial_energy as int),
            ..v
        }),
{
    let post = SimView {
        organisms: crate::world::simulation::finalized_all(v.organisms, v.config.energy_config.initial_energy as int),
        ..v
    };
    lemma_same_records(v, post);
}

/// Hazard damage keeps every record of a standing organism.
pub proof fn lemma_hazards_keep_records(v: SimView)
    requires
        records_ok(v),
    ensures
        records_ok(SimView { organisms: hazards_upto(v, v.occupants.len() as int), ..v }),
{
    lemma_hazards_places(v, v.occupants.len() as int);
    lemma_same_records(v, SimView { organisms: hazards_upto(v, v.occupants.len() as int), ..v });
}

} // verus!
