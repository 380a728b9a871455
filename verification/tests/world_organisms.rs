use evo_wasm::config::{EnergyConfig, ExecutionConfig, JobConfig, WorldConfig};
use evo_wasm::fitness::{FitnessMetrics, LineageStats};
use evo_wasm::ir::program::Program;
use evo_wasm::types::{LineageId, Position, Tile, TileType};
use evo_wasm::world::grid::Grid;
use evo_wasm::world::organism::{Organism, OrganismData};
use rand::Rng;
use rand::SeedableRng;
use rand_chacha::ChaCha8Rng;

/// The threshold of a chance `p`: the number of 24-bit draws `k` with
/// `k * 2^-24 < p`.
fn threshold(p: f32) -> u32 {
    ((p as f64) * 16777216.0).ceil().clamp(0.0, 16777216.0) as u32
}

#[test]
fn test_default_configs() {
    let world_config = WorldConfig::default();
    assert_eq!(world_config.width, 256);
    assert_eq!(world_config.height, 256);

    let energy_config = EnergyConfig::default();
    assert_eq!(energy_config.initial_energy, 1500);

    let exec_config = ExecutionConfig::default();
    assert_eq!(exec_config.max_fuel_per_step, 10_000);

    let job_config = JobConfig::default();
    assert_eq!(job_config.num_ticks, 10_000);
}

#[test]
fn default_thresholds_are_those_of_the_float_densities() {
    let c = WorldConfig::default();
    assert_eq!(c.obstacle_threshold, threshold(0.05));
    assert_eq!(c.hazard_threshold, threshold(0.05f32 + 0.02f32));
    assert_eq!(c.resource_threshold, threshold(0.05f32 + 0.02f32 + 0.3f32));
    let e = EnergyConfig::default();
    for c in 0..=100usize {
        assert_eq!(e.eat_gain[c], (c as f32 * 1.5f32) as i32);
    }
    assert_eq!(e.offspring_energy, ((e.initial_energy / 2) as f32 * 1.0) as i32);
    assert_eq!(e.boosted_offspring_energy, ((e.initial_energy / 2) as f32 * 5.0) as i32);
}

#[test]
fn test_dominance() {
    let mut m1 = FitnessMetrics::new();
    m1.lifetime = 100;
    m1.net_energy = 500;
    m1.offspring_count = 5;

    let mut m2 = FitnessMetrics::new();
    m2.lifetime = 50;
    m2.net_energy = 300;
    m2.offspring_count = 3;

    assert!(m1.dominates(&m2));
    assert!(!m2.dominates(&m1));
}

#[test]
fn dominance_needs_no_worse_objective() {
    let mut a = FitnessMetrics::new();
    a.lifetime = 10;
    a.tiles_explored = 1;
    let mut b = FitnessMetrics::new();
    b.lifetime = 5;
    b.tiles_explored = 2;
    assert!(!a.dominates(&b));
    assert!(!b.dominates(&a));
    assert!(!a.dominates(&a));
    // Kills and damage do not count.
    let mut c = a;
    c.kills = 7;
    c.damage_dealt = 100;
    assert!(!c.dominates(&a));
    let mut d = a;
    d.net_energy = 1;
    assert!(d.dominates(&a));
    assert!(d.dominates(&b) == false);
}

#[test]
fn lineage_stats_start_empty() {
    let id = LineageId::new();
    let s = LineageStats::new(id);
    assert_eq!(s.lineage_id, id);
    assert_eq!(s.total_organisms, 0);
    assert_eq!(s.avg_fitness, FitnessMetrics::new());
    assert_eq!(s.best_fitness, FitnessMetrics::default());
    assert_eq!(s.generation, 0);
}

#[test]
fn identifiers_are_version_4_uuids() {
    for _ in 0..20 {
        let id = LineageId::new();
        assert_eq!((id.0 >> 76) & 0xf, 4);
        assert_eq!((id.0 >> 62) & 0x3, 2);
    }
    assert_ne!(LineageId::new(), LineageId::new());
}

#[test]
fn test_grid_from_config() {
    let mut rng = ChaCha8Rng::seed_from_u64(42);
    // resource_density 0.5, obstacle_density 0.1, default hazard density 0.02
    let config = WorldConfig {
        width: 20,
        height: 20,
        obstacle_threshold: threshold(0.1),
        hazard_threshold: threshold(0.1f32 + 0.02f32),
        resource_threshold: threshold(0.1f32 + 0.02f32 + 0.5f32),
        ..Default::default()
    };

    let grid = Grid::from_config(&config, &mut rng);
    assert_eq!(grid.width, 20);
    assert_eq!(grid.height, 20);

    let mut resource_count = 0;
    let mut obstacle_count = 0;

    for (_, tile) in grid.iter() {
        match tile.tile_type {
            TileType::Resource => resource_count += 1,
            TileType::Obstacle => obstacle_count += 1,
            _ => {}
        }
    }

    assert!(resource_count > 0);
    assert!(obstacle_count > 0);
}

#[test]
fn grid_from_config_draws_like_f32_rolls() {
    let config = WorldConfig {
        width: 7,
        height: 3,
        obstacle_threshold: threshold(0.1),
        hazard_threshold: threshold(0.1f32 + 0.2f32),
        resource_threshold: threshold(0.1f32 + 0.2f32 + 0.3f32),
        max_resource_per_tile: 55,
        ..Default::default()
    };
    let grid = Grid::from_config(&config, &mut ChaCha8Rng::seed_from_u64(9));
    let mut rng = ChaCha8Rng::seed_from_u64(9);
    for i in 0..21 {
        let roll = rng.gen::<f32>();
        let expected = if roll < 0.1 {
            Tile::obstacle()
        } else if roll < 0.1f32 + 0.2f32 {
            Tile::hazard()
        } else if roll < 0.1f32 + 0.2f32 + 0.3f32 {
            Tile::resource(55, 55)
        } else {
            Tile::empty()
        };
        assert_eq!(grid.tiles[i], expected);
    }
}

#[test]
fn zero_thresholds_give_an_empty_world() {
    let config = WorldConfig {
        width: 6,
        height: 4,
        obstacle_threshold: 0,
        hazard_threshold: 0,
        resource_threshold: 0,
        ..Default::default()
    };
    let grid = Grid::from_config(&config, &mut ChaCha8Rng::seed_from_u64(1));
    assert_eq!(grid.tiles.len(), 24);
    assert!(grid.tiles.iter().all(|t| *t == Tile::empty()));
}

#[test]
fn tiles_regrow_up_to_their_maximum() {
    let mut t = Tile::resource(50, 100);
    t.grow(0);
    assert_eq!(t.resource_amount, 51);
    t.grow(30);
    assert_eq!(t.resource_amount, 81);
    t.grow(1000);
    assert_eq!(t.resource_amount, 100);
    t.grow(5);
    assert_eq!(t.resource_amount, 100);
    let mut e = Tile::empty();
    e.grow(10);
    assert_eq!(e, Tile::empty());
}

#[test]
fn test_organism_creation() {
    let lineage_id = LineageId::new();
    let position = Position::new(5, 5);
    let energy = 1000;
    let genome = Program::new();

    let organism = Organism::new(lineage_id, position, energy, genome);

    assert_eq!(organism.lineage_id, lineage_id);
    assert_eq!(organism.position, position);
    assert_eq!(organism.energy, energy);
    assert!(organism.is_alive());
}

#[test]
fn test_energy_management() {
    let organism = &mut Organism::new(LineageId::new(), Position::new(0, 0), 100, Program::new());

    assert!(organism.consume_energy(50));
    assert_eq!(organism.energy, 50);

    assert!(!organism.consume_energy(100));
    assert_eq!(organism.energy, 0);
    assert!(!organism.is_alive());
}

#[test]
fn test_movement_tracking() {
    let mut organism = Organism::new(LineageId::new(), Position::new(0, 0), 100, Program::new());

    assert_eq!(organism.visited_tiles.len(), 1);

    organism.move_to(Position::new(1, 1));
    assert_eq!(organism.visited_tiles.len(), 2);
    assert_eq!(organism.metrics.tiles_explored, 2);

    // Move to same tile again
    organism.move_to(Position::new(1, 1));
    assert_eq!(organism.visited_tiles.len(), 2);
}

#[test]
fn distinct_positions_are_distinct_tiles() {
    let mut organism = Organism::new(LineageId::new(), Position::new(0, 0), 100, Program::new());
    organism.move_to(Position::new(-1, 0));
    organism.move_to(Position::new(0, -1));
    organism.move_to(Position::new(1, 0));
    organism.move_to(Position::new(0, 1));
    organism.move_to(Position::new(0, 0));
    assert_eq!(organism.metrics.tiles_explored, 5);
    assert_eq!(organism.position, Position::new(0, 0));
}

#[test]
fn test_metrics_tracking() {
    let mut organism = Organism::new(LineageId::new(), Position::new(0, 0), 1000, Program::new());

    organism.tick();
    assert_eq!(organism.metrics.lifetime, 1);

    organism.record_kill();
    assert_eq!(organism.metrics.kills, 1);

    organism.record_damage_dealt(10);
    assert_eq!(organism.metrics.damage_dealt, 10);

    organism.record_offspring();
    assert_eq!(organism.metrics.offspring_count, 1);
}

#[test]
fn net_energy_is_final_less_initial() {
    let mut organism = Organism::new(LineageId::new(), Position::new(0, 0), 1000, Program::new());
    organism.add_energy(-300);
    organism.record_damage_received(-4);
    organism.record_meal();
    organism.finalize_metrics(1500);
    assert_eq!(organism.metrics.net_energy, -800);
    assert_eq!(organism.metrics.damage_received, -4);
    assert_eq!(organism.metrics.times_eaten, 1);
    let o = Organism::new_with_birth_tick(LineageId::new(), Position::new(2, 3), 7, Program::new(), 42);
    assert_eq!(o.birth_tick, 42);
    assert_eq!(o.age, 0);
    assert_eq!(o.metrics, FitnessMetrics::new());
}

#[test]
fn test_organism_serialization() {
    let organism = Organism::new(LineageId::new(), Position::new(5, 5), 1000, Program::new());

    let data = OrganismData::from(&organism);
    assert_eq!(data.id, organism.id);
    assert_eq!(data.lineage_id, organism.lineage_id);
    assert_eq!(data.position, organism.position);
}
