use evo_wasm::config::{JobConfig, WorldConfig};
use evo_wasm::error::Error;
use evo_wasm::ir::instruction::{Instruction, Register, Value};
use evo_wasm::ir::program::{Function, Program, ReturnType};
use evo_wasm::runtime::context::{host_response, tile_code, Action, HostCall, SensorData};
use evo_wasm::types::{LineageId, OrganismId, Position, Tile, TileType};
use evo_wasm::world::simulation::Simulation;

fn create_test_genome() -> Program {
    let mut program = Program::new();

    // Simple init function
    let mut init = Function::new("init".to_string(), 1, ReturnType::Void);
    init.get_block_mut(0).unwrap().add_instruction(Instruction::return_void());
    program.add_function(init);

    // Simple step function that just returns
    let mut step = Function::new("step".to_string(), 1, ReturnType::Int);
    step.get_block_mut(0).unwrap().add_instruction(Instruction::load_const(Register(0), Value::Int(0)));
    step.get_block_mut(0).unwrap().add_instruction(Instruction::return_value(Register(0)));
    program.add_function(step);

    program
}

#[test]
fn test_simulation_creation() {
    let config = JobConfig { num_ticks: 100, seed: 42, ..Default::default() };

    let genome = create_test_genome();
    let genomes = vec![(LineageId::new(), genome)];

    let sim = Simulation::new(config, genomes);
    assert!(sim.is_ok());
}

/// A job on an empty `w` x `h` world.
fn empty_world(w: i32, h: i32) -> JobConfig {
    JobConfig {
        num_ticks: 10,
        seed: 7,
        world_config: WorldConfig {
            width: w,
            height: h,
            obstacle_threshold: 0,
            hazard_threshold: 0,
            resource_threshold: 0,
            ..Default::default()
        },
        ..Default::default()
    }
}

fn cell(sim: &Simulation, p: Position) -> usize {
    (p.y * sim.grid.width + p.x) as usize
}

/// Move organism `k` to `p`, keeping the records consistent.
fn place(sim: &mut Simulation, k: usize, p: Position) {
    let old = sim.organisms[k].position;
    let oc = cell(sim, old);
    sim.occupants[oc] = None;
    sim.organisms[k].position = p;
    let nc = cell(sim, p);
    sim.occupants[nc] = Some(sim.organisms[k].id);
}

fn sim_with(n: usize, w: i32, h: i32) -> Simulation {
    let genomes: Vec<(LineageId, Program)> = (0..n).map(|_| (LineageId::new(), create_test_genome())).collect();
    Simulation::new(empty_world(w, h), genomes).unwrap()
}

#[test]
fn new_spawns_each_genome_on_its_own_cell() {
    let sim = sim_with(5, 6, 6);
    assert_eq!(sim.organisms.len(), 5);
    assert_eq!(sim.tick, 0);
    let mut cells: Vec<usize> = sim.organisms.iter().map(|o| cell(&sim, o.position)).collect();
    for o in &sim.organisms {
        assert_eq!(sim.occupants[cell(&sim, o.position)], Some(o.id));
        assert_eq!(o.energy, 1500);
        assert_eq!(o.birth_tick, 0);
    }
    cells.sort();
    cells.dedup();
    assert_eq!(cells.len(), 5);
    assert_eq!(sim.occupants.iter().filter(|c| c.is_some()).count(), 5);
}

#[test]
fn spawning_into_a_full_world_fails() {
    let mut config = empty_world(2, 2);
    config.world_config.obstacle_threshold = 0x100_0000;
    let r = Simulation::new(config, vec![(LineageId::new(), create_test_genome())]);
    assert!(matches!(r, Err(Error::Other(_))));
    let mut sim = sim_with(4, 2, 2);
    match sim.spawn_organism(LineageId::new(), create_test_genome()) {
        Err(Error::Other(m)) => assert_eq!(m, "Failed to find spawn position"),
        other => panic!("unexpected {:?}", other),
    }
    assert_eq!(sim.organisms.len(), 4);
}

#[test]
fn placing_takes_only_free_open_cells_of_the_grid() {
    let mut sim = sim_with(1, 4, 4);
    place(&mut sim, 0, Position::new(0, 0));
    sim.grid.set(Position::new(1, 0), Tile::obstacle());
    let l = LineageId::new();
    assert!(!sim.place_at(l, create_test_genome(), Position::new(0, 0)));
    assert!(!sim.place_at(l, create_test_genome(), Position::new(1, 0)));
    assert!(!sim.place_at(l, create_test_genome(), Position::new(4, 0)));
    assert!(!sim.place_at(l, create_test_genome(), Position::new(0, -1)));
    assert_eq!(sim.organisms.len(), 1);
    assert!(sim.place_at(l, create_test_genome(), Position::new(2, 3)));
    assert_eq!(sim.organisms.len(), 2);
    let o = &sim.organisms[1];
    assert_eq!(o.position, Position::new(2, 3));
    assert_eq!(o.lineage_id, l);
    assert_eq!(o.energy, 1500);
    assert_eq!(sim.occupants[cell(&sim, Position::new(2, 3))], Some(o.id));
}

#[test]
fn a_simulation_without_genomes_starts_empty() {
    let sim = Simulation::new(empty_world(3, 3), Vec::new()).unwrap();
    assert_eq!(sim.organisms.len(), 0);
    assert!(sim.occupants.iter().all(|c| c.is_none()));
}

#[test]
fn moving_pays_and_moves_the_record() {
    let mut sim = sim_with(1, 5, 5);
    place(&mut sim, 0, Position::new(4, 2));
    let p = sim.organisms[0].position;
    let e = sim.organisms[0].energy;
    sim.apply_action(0, Action::Move { dx: 1, dy: -3 }, p, e).unwrap();
    assert_eq!(sim.organisms[0].position, Position::new(0, 4));
    assert_eq!(sim.organisms[0].energy, e - 3);
    assert_eq!(sim.organisms[0].metrics.tiles_explored, 2);
    assert_eq!(sim.occupants[cell(&sim, Position::new(4, 2))], None);
    assert_eq!(sim.occupants[cell(&sim, Position::new(0, 4))], Some(sim.organisms[0].id));
    // Too little energy: nothing happens.
    let q = sim.organisms[0].position;
    sim.apply_action(0, Action::Move { dx: 1, dy: 0 }, q, 2).unwrap();
    assert_eq!(sim.organisms[0].position, q);
}

#[test]
fn moves_are_blocked_by_records_and_obstacles() {
    let mut sim = sim_with(2, 5, 5);
    place(&mut sim, 0, Position::new(1, 1));
    place(&mut sim, 1, Position::new(2, 1));
    sim.apply_action(0, Action::Move { dx: 1, dy: 0 }, Position::new(1, 1), 1500).unwrap();
    assert_eq!(sim.organisms[0].position, Position::new(1, 1));
    assert_eq!(sim.organisms[0].energy, 1500);
    let oc = cell(&sim, Position::new(1, 2));
    sim.grid.tiles[oc] = Tile::obstacle();
    sim.apply_action(0, Action::Move { dx: 0, dy: 1 }, Position::new(1, 1), 1500).unwrap();
    assert_eq!(sim.organisms[0].position, Position::new(1, 1));
}

#[test]
fn a_move_that_overflows_fails() {
    let mut sim = sim_with(1, 5, 5);
    place(&mut sim, 0, Position::new(3, 3));
    let r = sim.apply_action(0, Action::Move { dx: i32::MAX, dy: 0 }, Position::new(3, 3), 1500);
    assert!(matches!(r, Err(Error::Other(_))));
}

#[test]
fn eating_takes_at_most_a_bite() {
    let mut sim = sim_with(1, 5, 5);
    place(&mut sim, 0, Position::new(2, 2));
    let c = cell(&sim, Position::new(2, 2));
    sim.grid.tiles[c] = Tile::resource(250, 1000);
    sim.apply_action(0, Action::Eat, Position::new(2, 2), 1500).unwrap();
    assert_eq!(sim.grid.tiles[c].resource_amount, 150);
    assert_eq!(sim.organisms[0].energy, 1500 + 150);
    assert_eq!(sim.organisms[0].metrics.times_eaten, 1);
    sim.grid.tiles[c] = Tile::resource(7, 1000);
    sim.apply_action(0, Action::Eat, Position::new(2, 2), 1500).unwrap();
    assert_eq!(sim.grid.tiles[c].resource_amount, 0);
    assert_eq!(sim.organisms[0].energy, 1650 + 10);
    // Nothing left to eat.
    sim.apply_action(0, Action::Eat, Position::new(2, 2), 1500).unwrap();
    assert_eq!(sim.organisms[0].metrics.times_eaten, 2);
}

#[test]
fn attacks_hit_the_cell_up_and_left() {
    let mut sim = sim_with(2, 6, 6);
    place(&mut sim, 0, Position::new(3, 3));
    place(&mut sim, 1, Position::new(2, 2));
    sim.apply_action(0, Action::Attack { target_slot: 5, amount: 40 }, Position::new(3, 3), 1500).unwrap();
    assert_eq!(sim.organisms[1].energy, 1460);
    assert_eq!(sim.organisms[1].metrics.damage_received, 40);
    assert_eq!(sim.organisms[0].energy, 1490);
    assert_eq!(sim.organisms[0].metrics.damage_dealt, 40);
    assert_eq!(sim.organisms[0].metrics.kills, 0);
    // A killing blow.
    sim.apply_action(0, Action::Attack { target_slot: 0, amount: 2000 }, Position::new(3, 3), 1500).unwrap();
    assert_eq!(sim.organisms[1].energy, 0);
    assert_eq!(sim.organisms[0].metrics.kills, 1);
    // Nobody there: no cost.
    sim.apply_action(1, Action::Attack { target_slot: 0, amount: 5 }, Position::new(2, 2), 1500).unwrap();
    assert_eq!(sim.organisms[1].metrics.damage_dealt, 0);
    // From the grid's edge nothing is found.
    place(&mut sim, 1, Position::new(0, 4));
    sim.apply_action(1, Action::Attack { target_slot: 0, amount: 5 }, Position::new(0, 4), 1500).unwrap();
    assert_eq!(sim.organisms[1].metrics.damage_dealt, 0);
}

#[test]
fn combat_can_be_forbidden() {
    let mut sim = sim_with(2, 6, 6);
    sim.config.dynamic_rules.allow_combat = false;
    place(&mut sim, 0, Position::new(3, 3));
    place(&mut sim, 1, Position::new(2, 2));
    sim.apply_action(0, Action::Attack { target_slot: 0, amount: 40 }, Position::new(3, 3), 1500).unwrap();
    assert_eq!(sim.organisms[1].energy, 1500);
    assert_eq!(sim.organisms[0].energy, 1500);
}

#[test]
fn reproduction_places_an_offspring_next_to_the_parent() {
    let mut sim = sim_with(1, 5, 5);
    place(&mut sim, 0, Position::new(2, 2));
    sim.tick = 3;
    sim.apply_action(0, Action::Reproduce, Position::new(2, 2), 1500).unwrap();
    assert_eq!(sim.reproduction_attempts, 1);
    assert_eq!(sim.reproduction_successes, 1);
    assert_eq!(sim.total_offspring_born, 1);
    assert_eq!(sim.organisms.len(), 2);
    let parent = &sim.organisms[0];
    let child = &sim.organisms[1];
    assert_eq!(parent.energy, 1200);
    assert_eq!(parent.metrics.offspring_count, 1);
    assert_eq!(child.position, Position::new(1, 1));
    assert_eq!(child.energy, 750);
    assert_eq!(child.birth_tick, 3);
    assert_eq!(child.lineage_id, parent.lineage_id);
    assert_eq!(sim.occupants[cell(&sim, Position::new(1, 1))], Some(child.id));
    // A parent born later gets a bonus and a boosted child.
    let (cpos, cid) = (child.position, child.id);
    sim.organisms[1].birth_tick = 3;
    sim.apply_action(1, Action::Reproduce, cpos, 1500).unwrap();
    assert_eq!(sim.organisms.len(), 3);
    assert_eq!(sim.organisms[1].id, cid);
    assert_eq!(sim.organisms[1].energy, 750 - 300 + 1000);
    assert_eq!(sim.organisms[2].energy, 3750);
    assert_eq!(sim.organisms[2].position, Position::new(0, 0));
}

#[test]
fn reproduction_can_be_refused() {
    let mut sim = sim_with(1, 5, 5);
    sim.apply_action(0, Action::Reproduce, sim.organisms[0].position, 350).unwrap();
    assert_eq!(sim.reproduction_attempts, 1);
    assert_eq!(sim.reproduction_successes, 0);
    assert_eq!(sim.organisms.len(), 1);
    assert_eq!(sim.organisms[0].energy, 1500);
    sim.config.dynamic_rules.max_population = 1;
    sim.apply_action(0, Action::Reproduce, sim.organisms[0].position, 1500).unwrap();
    assert_eq!(sim.reproduction_attempts, 2);
    assert_eq!(sim.organisms.len(), 1);
    sim.config.dynamic_rules.allow_reproduction = false;
    sim.apply_action(0, Action::Reproduce, sim.organisms[0].position, 1500).unwrap();
    assert_eq!(sim.reproduction_attempts, 2);
}

#[test]
fn a_surrounded_parent_neither_pays_nor_counts() {
    let mut sim = sim_with(1, 1, 1);
    let rng_before = sim.rng.clone();
    sim.apply_action(0, Action::Reproduce, Position::new(0, 0), 1500).unwrap();
    assert!(sim.rng == rng_before);
    assert_eq!(sim.organisms.len(), 1);
    assert_eq!(sim.organisms[0].energy, 1500);
    assert_eq!(sim.organisms[0].metrics.offspring_count, 0);
    assert_eq!(sim.reproduction_attempts, 1);
    assert_eq!(sim.reproduction_successes, 0);
}

#[test]
fn signals_and_idling_change_nothing() {
    let mut sim = sim_with(1, 4, 4);
    let before = (sim.organisms[0].energy, sim.organisms[0].position);
    sim.apply_action(0, Action::EmitSignal { channel: 1, value: 2 }, before.1, before.0).unwrap();
    sim.apply_action(0, Action::Idle, before.1, before.0).unwrap();
    assert_eq!((sim.organisms[0].energy, sim.organisms[0].position), before);
}

#[test]
fn turns_pay_basal_and_fuel_costs_then_act() {
    let mut sim = sim_with(1, 5, 5);
    place(&mut sim, 0, Position::new(2, 2));
    assert_eq!(sim.start_turn(0), Ok(true));
    assert_eq!(sim.organisms[0].energy, 1499);
    assert_eq!(sim.organisms[0].age, 1);
    assert_eq!(sim.organisms[0].metrics.lifetime, 1);
    let actions = vec![Action::Move { dx: 1, dy: 0 }, Action::Move { dx: 0, dy: 1 }];
    sim.finish_turn(0, 2500, &actions).unwrap();
    // 2 for the fuel, then two moves, each from the cell the organism
    // stands on, decided with energy 1497.
    assert_eq!(sim.organisms[0].energy, 1497 - 3 - 3);
    assert_eq!(sim.organisms[0].position, Position::new(3, 3));
    let id = sim.organisms[0].id;
    assert_eq!(sim.occupants[cell(&sim, Position::new(3, 3))], Some(id));
    assert_eq!(sim.occupants[cell(&sim, Position::new(3, 2))], None);
    assert_eq!(sim.occupants[cell(&sim, Position::new(2, 2))], None);
    // Exactly one cell records the organism.
    assert_eq!(sim.occupants.iter().filter(|c| **c == Some(id)).count(), 1);
}

#[test]
fn an_exhausted_organism_does_not_run() {
    let mut sim = sim_with(1, 3, 3);
    sim.organisms[0].energy = 0;
    assert_eq!(sim.start_turn(0), Ok(false));
    assert_eq!(sim.organisms[0].metrics.net_energy, -1500);
    assert_eq!(sim.organisms[0].age, 0);
}

#[test]
fn hazards_hurt_and_the_dead_are_removed() {
    let mut sim = sim_with(3, 5, 5);
    place(&mut sim, 0, Position::new(0, 0));
    place(&mut sim, 1, Position::new(1, 0));
    place(&mut sim, 2, Position::new(2, 0));
    sim.grid.tiles[0] = Tile::hazard();
    sim.organisms[1].energy = 0;
    sim.apply_hazards().unwrap();
    assert_eq!(sim.organisms[0].energy, 1490);
    assert_eq!(sim.organisms[2].energy, 1500);
    let dead_id = sim.organisms[1].id;
    let removed = sim.remove_dead_organisms();
    assert_eq!(removed.len(), 1);
    assert_eq!(removed[0].id, dead_id);
    assert_eq!(sim.organisms.len(), 2);
    assert_eq!(sim.occupants[1], None);
    assert!(sim.occupants[0].is_some() && sim.occupants[2].is_some());
}

#[test]
fn results_group_metrics_by_lineage() {
    let l1 = LineageId::new();
    let l2 = LineageId::new();
    let genomes = vec![(l1, create_test_genome()), (l2, create_test_genome()), (l1, create_test_genome())];
    let mut sim = Simulation::new(empty_world(6, 6), genomes).unwrap();
    sim.organisms[0].energy = 1600;
    sim.tick = 9;
    let r = sim.collect_results();
    assert_eq!(r.total_ticks, 9);
    assert_eq!(r.survivors.len(), 3);
    assert_eq!(r.lineage_stats.len(), 2);
    let (k1, m1) = &r.lineage_stats[0];
    assert_eq!(*k1, l1);
    assert_eq!(m1.len(), 2);
    assert_eq!(m1[0].net_energy, 100);
    assert_eq!(m1[1].net_energy, 0);
    assert_eq!(r.lineage_stats[1].0, l2);
    assert_eq!(r.survivors[2].lineage_id, l1);
}

#[test]
fn tallies_count_and_bound() {
    let mut sim = sim_with(3, 6, 6);
    sim.organisms[0].energy = -5;
    sim.organisms[1].energy = 40;
    sim.organisms[2].energy = 10;
    sim.organisms[2].birth_tick = 2;
    sim.organisms[2].age = 8;
    sim.organisms[2].metrics.offspring_count = 3;
    let all = sim.tally(false);
    assert_eq!(all.count, 3);
    assert_eq!(all.born_late, 1);
    assert_eq!(all.parents, 1);
    assert_eq!(all.energy_sum, 45);
    assert_eq!(all.max_energy, 40);
    assert_eq!(all.min_energy, -5);
    assert_eq!(all.max_age, 8);
    assert_eq!(all.offspring_sum, 3);
    let late = sim.tally(true);
    assert_eq!(late.count, 1);
    assert_eq!(late.energy_sum, 10);
    assert_eq!(late.max_offspring, 3);
    let empty = sim_with(0, 2, 2).tally(false);
    assert_eq!((empty.count, empty.max_energy, empty.min_energy), (0, 0, 0));
}

#[test]
fn turn_order_is_a_permutation() {
    let mut sim = sim_with(6, 5, 5);
    let mut order = sim.turn_order();
    assert_eq!(order.len(), 6);
    order.sort();
    assert_eq!(order, vec![0, 1, 2, 3, 4, 5]);
}

#[test]
fn genomes_compile_to_the_compilers_module() {
    let sim = sim_with(1, 3, 3);
    let bytes = sim.compile_genome(0).unwrap();
    assert_eq!(bytes, sim.compiler.compile(&create_test_genome()).unwrap());
}

#[test]
fn host_calls_queue_actions() {
    let s = SensorData::new(77, Position::new(1, 2));
    assert_eq!(host_response(HostCall::GetEnergy, &s, 9), (None, 77));
    assert_eq!(host_response(HostCall::GetAge, &s, 9), (None, 0));
    assert_eq!(host_response(HostCall::EnvRead { x: 3, y: 4 }, &s, 2), (None, 2));
    assert_eq!(host_response(HostCall::MoveDir { dx: 1, dy: -1 }, &s, 0), (Some(Action::Move { dx: 1, dy: -1 }), 1));
    assert_eq!(host_response(HostCall::Eat, &s, 0), (Some(Action::Eat), 1));
    assert_eq!(
        host_response(HostCall::Attack { slot: 2, amount: 9 }, &s, 0),
        (Some(Action::Attack { target_slot: 2, amount: 9 }), 1)
    );
    assert_eq!(host_response(HostCall::SenseNeighbor { slot: 1 }, &s, 0), (None, 0));
    assert_eq!(host_response(HostCall::TryReproduce, &s, 0), (Some(Action::Reproduce), 1));
    assert_eq!(
        host_response(HostCall::EmitSignal { channel: 1, value: 5 }, &s, 0),
        (Some(Action::EmitSignal { channel: 1, value: 5 }), 0)
    );
    assert_eq!(tile_code(TileType::Empty), 0);
    assert_eq!(tile_code(TileType::Resource), 1);
    assert_eq!(tile_code(TileType::Obstacle), 2);
    assert_eq!(tile_code(TileType::Hazard), 3);
    let _ = OrganismId::new();
}

/// Every organism is recorded on its own cell, and no two share one.
fn one_per_cell(sim: &Simulation) -> bool {
    let recorded = sim.organisms.iter().all(|o| sim.occupants[cell(sim, o.position)] == Some(o.id));
    let mut cells: Vec<usize> = sim.organisms.iter().map(|o| cell(sim, o.position)).collect();
    cells.sort();
    cells.dedup();
    recorded && cells.len() == sim.organisms.len()
}

#[test]
fn a_tick_keeps_one_organism_per_cell() {
    let mut sim = sim_with(8, 6, 6);
    assert!(one_per_cell(&sim));
    for _ in 0..3 {
        for k in sim.turn_order() {
            if sim.start_turn(k).unwrap() {
                let actions = vec![Action::Reproduce, Action::Move { dx: 1, dy: -1 }, Action::Eat];
                sim.finish_turn(k, 1000, &actions).unwrap();
                assert!(one_per_cell(&sim));
            }
        }
        sim.apply_hazards().unwrap();
        sim.remove_dead_organisms();
        assert!(one_per_cell(&sim));
    }
    sim.collect_results();
    assert!(one_per_cell(&sim));
}

#[test]
fn a_move_after_a_birth_starts_from_the_new_cell() {
    let mut sim = sim_with(1, 8, 8);
    place(&mut sim, 0, Position::new(3, 3));
    // Block the neighbours above the cell moved to, so that the child is
    // born on the cell the parent left.
    for x in 3..6 {
        sim.grid.set(Position::new(x, 2), Tile::obstacle());
    }
    let actions = vec![Action::Move { dx: 1, dy: 0 }, Action::Reproduce, Action::Move { dx: 0, dy: 1 }];
    sim.finish_turn(0, 0, &actions).unwrap();
    assert_eq!(sim.organisms.len(), 2);
    assert_eq!(sim.organisms[1].position, Position::new(3, 3));
    assert_eq!(sim.organisms[0].position, Position::new(4, 4));
    assert_eq!(sim.occupants[cell(&sim, Position::new(3, 3))], Some(sim.organisms[1].id));
    assert_eq!(sim.occupants[cell(&sim, Position::new(4, 4))], Some(sim.organisms[0].id));
    assert_eq!(sim.occupants[cell(&sim, Position::new(4, 3))], None);
    assert!(one_per_cell(&sim));
}
