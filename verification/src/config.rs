//! Configuration of the world, the energy economy, execution limits, jobs,
//! the server and the workers.
//!
//! Chances are held as thresholds for a 24-bit random draw (see
//! `rng::chance`), and the energy gained from eating as a table indexed by
//! the amount eaten: these are the values the simulation reads.

use vstd::prelude::*;

verus! {

/// World configuration parameters.
#[derive(Debug, Clone, Copy, PartialEq, Eq, Structural)]
pub struct WorldConfig {
    /// Width of the world grid.
    pub width: i32,
    /// Height of the world grid.
    pub height: i32,
    /// A tile whose 24-bit draw is below this is an obstacle.
    pub obstacle_threshold: u32,
    /// Otherwise, below this it is a hazard.
    pub hazard_threshold: u32,
    /// Otherwise, below this it is a full resource tile.
    pub resource_threshold: u32,
    /// Maximum resource per tile.
    pub max_resource_per_tile: i32,
    /// Hazard damage per tick.
    pub hazard_damage: i32,
}

impl Default for WorldConfig {
    /// A 256 x 256 world with densities 0.05 (obstacles), 0.02 (hazards)
    /// and 0.3 (resources), as cumulative thresholds of their `f32` sums.
    fn default() -> (r: WorldConfig)
        ensures
            r.width == 256,
            r.height == 256,
            r.obstacle_threshold == 838861,
            r.hazard_threshold == 1174406,
            r.resource_threshold == 6207570,
            r.max_resource_per_tile == 1000,
            r.hazard_damage == 10,
    {
        WorldConfig {
            width: 256,
            height: 256,
            obstacle_threshold: 838861,
            hazard_threshold: 1174406,
            resource_threshold: 6207570,
            max_resource_per_tile: 1000,
            hazard_damage: 10,
        }
    }
}

/// Largest amount of resource eaten at once.
pub const MAX_BITE: i32 = 100;

/// Energy and cost configuration.
#[derive(Debug, Clone, Copy, PartialEq, Eq)]
pub struct EnergyConfig {
    /// Starting energy for new organisms.
    pub initial_energy: i32,
    /// Basal metabolic cost per tick.
    pub basal_cost: i32,
    /// Cost per thousand units of fuel used.
    pub instruction_cost_per_k: i32,
    /// Energy cost to move.
    pub move_cost: i32,
    /// Energy cost to attack.
    pub attack_cost: i32,
    /// Energy cost to reproduce.
    pub reproduce_cost: i32,
    /// Minimum energy required to reproduce.
    pub min_reproduce_energy: i32,
    /// Energy gained from eating `c` units of resource, for `c` up to
    /// `MAX_BITE`.
    pub eat_gain: [i32; 101],
    /// Energy of an offspring whose parent was born at the start.
    pub offspring_energy: i32,
    /// Energy of an offspring whose parent was itself born later.
    pub boosted_offspring_energy: i32,
}

impl Default for EnergyConfig {
    /// Initial energy 1500, costs 1 (basal), 1 (per thousand fuel), 3
    /// (move), 10 (attack) and 300 (reproduce), minimum 400 to reproduce,
    /// eating efficiency 1.5 (so `c * 3 / 2` for `c` eaten), offspring
    /// energy 750, or 3750 when boosted.
    fn default() -> (r: EnergyConfig)
        ensures
            r.initial_energy == 1500,
            r.basal_cost == 1,
            r.instruction_cost_per_k == 1,
            r.move_cost == 3,
            r.attack_cost == 10,
            r.reproduce_cost == 300,
            r.min_reproduce_energy == 400,
            forall|c: int| 0 <= c <= 100 ==> #[trigger] r.eat_gain@[c] == c * 3 / 2,
            r.offspring_energy == 750,
            r.boosted_offspring_energy == 3750,
    {
        let mut eat_gain = [0i32; 101];
        let mut c: usize = 0;
        while c < 101
            invariant
                c <= 101,
                eat_gain@.len() == 101,
                forall|k: int| 0 <= k < c ==> #[trigger] eat_gain@[k] == k * 3 / 2,
            decreases 101 - c,
        {
            let v = (c as i32) * 3 / 2;
            eat_gain[c] = v;
            c += 1;
        }
        EnergyConfig {
            initial_energy: 1500,
            basal_cost: 1,
            instruction_cost_per_k: 1,
            move_cost: 3,
            attack_cost: 10,
            reproduce_cost: 300,
            min_reproduce_energy: 400,
            eat_gain,
            offspring_energy: 750,
            boosted_offspring_energy: 3750,
        }
    }
}

/// Organism execution limits.
#[derive(Debug, Clone, Copy, PartialEq, Eq, Structural)]
pub struct ExecutionConfig {
    /// Maximum fuel (WASM instructions) per step.
    pub max_fuel_per_step: u64,
    /// Maximum memory per organism (bytes).
    pub max_memory_bytes: usize,
    /// Sensor radius (how far organisms can see).
    pub sensor_radius: i32,
    /// Maximum number of signals an organism can emit per step.
    pub max_signals_per_step: usize,
}

impl Default for ExecutionConfig {
    fn default() -> (r: ExecutionConfig)
        ensures
            r.max_fuel_per_step == 10_000,
            r.max_memory_bytes == 65536,
            r.sensor_radius == 3,
            r.max_signals_per_step == 5,
    {
        ExecutionConfig { max_fuel_per_step: 10_000, max_memory_bytes: 65536, sensor_radius: 3, max_signals_per_step: 5 }
    }
}

/// Rules the server may change between jobs.
#[derive(Debug, Clone, Copy, PartialEq, Eq, Structural)]
pub struct DynamicRules {
    /// Allow organisms to attack each other.
    pub allow_combat: bool,
    /// Allow organisms to reproduce.
    pub allow_reproduction: bool,
    /// Maximum number of organisms in the simulation.
    pub max_population: usize,
}

impl Default for DynamicRules {
    fn default() -> (r: DynamicRules)
        ensures
            r.allow_combat,
            r.allow_reproduction,
            r.max_population == 1000,
    {
        DynamicRules { allow_combat: true, allow_reproduction: true, max_population: 1000 }
    }
}

/// Simulation job configuration.
#[derive(Debug, Clone, Copy, PartialEq, Eq)]
pub struct JobConfig {
    /// Number of ticks to run the simulation.
    pub num_ticks: u64,
    /// Random seed for reproducibility.
    pub seed: u64,
    pub world_config: WorldConfig,
    pub energy_config: EnergyConfig,
    pub exec_config: ExecutionConfig,
    pub dynamic_rules: DynamicRules,
}

impl Default for JobConfig {
    fn default() -> (r: JobConfig)
        ensures
            r.num_ticks == 10_000,
            r.seed == 0,
            r.world_config.width == 256,
            r.world_config.height == 256,
            r.energy_config.initial_energy == 1500,
            r.exec_config.max_fuel_per_step == 10_000,
            r.dynamic_rules.max_population == 1000,
    {
        JobConfig {
            num_ticks: 10_000,
            seed: 0,
            world_config: WorldConfig::default(),
            energy_config: EnergyConfig::default(),
            exec_config: ExecutionConfig::default(),
            dynamic_rules: DynamicRules::default(),
        }
    }
}

/// Server configuration.
#[derive(Debug, Clone, PartialEq, Eq)]
pub struct ServerConfig {
    /// Server bind address.
    pub bind_address: String,
    /// Server port.
    pub port: u16,
    /// Database path (SQLite).
    pub database_path: String,
    /// Checkpoint directory.
    pub checkpoint_dir: String,
    /// Checkpoint interval (seconds).
    pub checkpoint_interval_secs: u64,
    /// Telemetry endpoint.
    pub otel_endpoint: Option<String>,
}

impl Default for ServerConfig {
    fn default() -> (r: ServerConfig)
        ensures
            r.bind_address@ == "0.0.0.0"@,
            r.port == 8080,
            r.database_path@ == "./data/evo.db"@,
            r.checkpoint_dir@ == "./data/checkpoints"@,
            r.checkpoint_interval_secs == 300,
            r.otel_endpoint is None,
    {
        ServerConfig {
            bind_address: "0.0.0.0".to_string(),
            port: 8080,
            database_path: "./data/evo.db".to_string(),
            checkpoint_dir: "./data/checkpoints".to_string(),
            checkpoint_interval_secs: 300,
            otel_endpoint: None,
        }
    }
}

/// Worker configuration.
#[derive(Debug, Clone, PartialEq, Eq)]
pub struct WorkerConfig {
    /// Central server URL.
    pub server_url: String,
    /// Worker identifier.
    pub worker_id: Option<String>,
    /// Maximum concurrent jobs.
    pub max_concurrent_jobs: usize,
    /// Poll interval (milliseconds).
    pub poll_interval_ms: u64,
    /// Telemetry endpoint.
    pub otel_endpoint: Option<String>,
}

impl Default for WorkerConfig {
    fn default() -> (r: WorkerConfig)
        ensures
            r.server_url@ == "https://evo-wasm.rackspace.koski.co"@,
            r.worker_id is None,
            r.max_concurrent_jobs == 1,
            r.poll_interval_ms == 5000,
            r.otel_endpoint is None,
    {
        WorkerConfig {
            server_url: "https://evo-wasm.rackspace.koski.co".to_string(),
            worker_id: None,
            max_concurrent_jobs: 1,
            poll_interval_ms: 5000,
            otel_endpoint: None,
        }
    }
}

} // verus!
