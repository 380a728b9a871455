use evo_wasm::error::Error;
use evo_wasm::ir::instruction::{Instruction, Register, Value};
use evo_wasm::ir::mutation::{MutationConfig, Mutator};
use evo_wasm::ir::program::{Function, Program, ReturnType};
use evo_wasm::ir::validation::validate_program;
use evo_wasm::server::api::{ApiError, HealthResponse, StatsResponse, SubmitResponse};
use evo_wasm::server::checkpoint::{
    checkpoints_to_remove, latest_checkpoint, parse_checkpoint_name, Checkpoint, CheckpointData,
};
use evo_wasm::server::evolution::{
    breed, create_initial_genomes, pick_parents, rank_by_fitness, select_for_job, select_survivors, selection_due,
};
use evo_wasm::server::job_manager::{JobManager, JobStats};
use evo_wasm::types::JobId;
use rand::SeedableRng;
use rand_chacha::ChaCha8Rng;

fn init_and_step(value: i32) -> Program {
    let mut program = Program::new();
    let mut init = Function::new("init".to_string(), 1, ReturnType::Void);
    init.get_block_mut(0).unwrap().add_instruction(Instruction::return_void());
    program.add_function(init);
    let mut step = Function::new("step".to_string(), 1, ReturnType::Int);
    step.get_block_mut(0).unwrap().add_instruction(Instruction::load_const(Register(0), Value::Int(value)));
    step.get_block_mut(0).unwrap().add_instruction(Instruction::return_value(Register(0)));
    program.add_function(step);
    program
}

#[test]
fn test_job_manager() {
    let manager: JobManager<u32> = JobManager::new();
    let stats = manager.get_stats();

    assert_eq!(stats.total_jobs, 0);
    assert_eq!(stats.pending_jobs, 0);
    assert_eq!(stats.completed_jobs, 0);
}

#[test]
fn test_pending_jobs_go_last_in_first_out() {
    let mut manager: JobManager<u32> = JobManager::new();
    manager.enqueue_job(JobId(1), 10);
    manager.enqueue_job(JobId(2), 20);
    assert_eq!(manager.assign_pending(100), Some(JobId(2)));
    assert_eq!(manager.assigned_job(JobId(2)), Some(&20));
    assert_eq!(manager.assigned_job(JobId(1)), None);
    assert_eq!(
        manager.get_stats(),
        JobStats { total_jobs: 0, pending_jobs: 2, completed_jobs: 0 }
    );
    assert_eq!(manager.assign_pending(100), Some(JobId(1)));
    assert_eq!(manager.assign_pending(100), None);
}

#[test]
fn test_new_job_counts_and_completes() {
    let mut manager: JobManager<u32> = JobManager::new();
    manager.assign_new(JobId(7), 70, 5);
    assert_eq!(manager.get_stats(), JobStats { total_jobs: 1, pending_jobs: 1, completed_jobs: 0 });
    manager.mark_job_complete(JobId(7));
    assert_eq!(manager.get_stats(), JobStats { total_jobs: 1, pending_jobs: 0, completed_jobs: 1 });
    // Completing an unknown or finished job changes nothing.
    manager.mark_job_complete(JobId(7));
    assert_eq!(manager.get_stats(), JobStats { total_jobs: 1, pending_jobs: 0, completed_jobs: 1 });
}

#[test]
fn test_reassigning_a_job_replaces_its_entry() {
    let mut manager: JobManager<u32> = JobManager::new();
    manager.assign_new(JobId(3), 30, 1);
    manager.enqueue_job(JobId(3), 31);
    assert_eq!(manager.assign_pending(2), Some(JobId(3)));
    assert_eq!(manager.assigned.len(), 1);
    assert_eq!(manager.assigned_job(JobId(3)), Some(&31));
}

#[test]
fn test_timed_out_jobs_return_to_pending() {
    let mut manager: JobManager<u32> = JobManager::new();
    manager.assign_new(JobId(1), 10, 0);
    manager.assign_new(JobId(2), 20, 50);
    manager.assign_new(JobId(3), 30, 10);
    manager.check_timeouts(100, 60);
    // Out for 100 and 90: both beyond 60, in assignment order.
    assert_eq!(manager.pending, vec![(JobId(1), 10), (JobId(3), 30)]);
    assert_eq!(manager.assigned, vec![(JobId(2), 20, 50)]);
    assert_eq!(manager.get_stats().pending_jobs, 3);
    // Exactly the timeout is not beyond it.
    manager.check_timeouts(110, 60);
    assert_eq!(manager.assigned.len(), 1);
    manager.check_timeouts(111, 60);
    assert_eq!(manager.assigned.len(), 0);
    assert_eq!(manager.pending.len(), 3);
}

#[test]
fn test_rank_by_fitness_is_stable_and_descending() {
    let keys = vec![5u64, 9, 5, 1, 9];
    assert_eq!(rank_by_fitness(&keys), vec![1, 4, 0, 2, 3]);
    assert_eq!(rank_by_fitness(&Vec::new()), Vec::<usize>::new());
}

#[test]
fn test_select_survivors_keeps_better_half() {
    let keys = vec![3u64, 8, 1, 7, 5];
    assert_eq!(select_survivors(&keys), vec![1, 3]);
    assert_eq!(select_survivors(&vec![4u64]), Vec::<usize>::new());
}

#[test]
fn test_select_for_job_takes_top_then_random() {
    let mut rng = ChaCha8Rng::seed_from_u64(1);
    let picks = select_for_job(20, 10, &mut rng);
    assert_eq!(picks.len(), 10);
    assert_eq!(&picks[..7], &[0, 1, 2, 3, 4, 5, 6]);
    let random = &picks[7..];
    for (a, x) in random.iter().enumerate() {
        assert!(*x < 20);
        for y in &random[a + 1..] {
            assert_ne!(x, y);
        }
    }
    // Fewer lineages than asked for: all of them as the best, and as many
    // random ones as there are.
    let few = select_for_job(2, 10, &mut rng);
    assert_eq!(few.len(), 4);
    assert_eq!(&few[..2], &[0, 1]);
}

#[test]
fn test_pick_parents_in_range() {
    let mut rng = ChaCha8Rng::seed_from_u64(9);
    for _ in 0..50 {
        let (a, b) = pick_parents(&mut rng, 3);
        assert!(a < 3 && b < 3);
    }
}

#[test]
fn test_initial_genomes_are_valid() {
    let mutator = Mutator::new(MutationConfig::default());
    let mut rng = ChaCha8Rng::seed_from_u64(42);
    let genomes = create_initial_genomes(&mutator, &mut rng, 10);
    assert_eq!(genomes.len(), 10);
    for (lineage, program) in &genomes {
        assert!(validate_program(program).is_ok());
        assert_eq!((lineage.0 >> 76) & 0xF, 4);
    }
    assert_ne!(genomes[0].0, genomes[1].0);
}

#[test]
fn test_breed_crosses_two_parents() {
    let mutator = Mutator::new(MutationConfig::default());
    let mut rng = ChaCha8Rng::seed_from_u64(3);
    let p1 = init_and_step(1);
    let p2 = init_and_step(2);
    let child = breed(&mutator, &p1, &p2, &mut rng).unwrap();
    assert!(child.functions.len() == 2 || child.functions.len() == 3);
    assert_eq!(child.functions[0].name, "init");
    assert_eq!(child.functions[1].name, "step");
    assert!(validate_program(&child).is_ok());
}

#[test]
fn test_breed_returns_the_mutated_child() {
    let mut config = MutationConfig::default();
    config.point_mutation_rate = 0;
    config.insertion_rate = 0;
    config.deletion_rate = 0;
    config.block_duplication_rate = 0;
    config.function_addition_rate = 0x100_0000;
    let mutator = Mutator::new(config);
    let mut rng = ChaCha8Rng::seed_from_u64(3);
    let child = breed(&mutator, &init_and_step(1), &init_and_step(2), &mut rng).unwrap();
    // The crossover gives two functions; the mutation always adds one.
    assert_eq!(child.functions.len(), 3);
    assert!(child.functions[2].name.starts_with("func_"));
    assert!(validate_program(&child).is_ok());
}

#[test]
fn test_breed_refuses_float_genomes() {
    let mutator = Mutator::new(MutationConfig::default());
    let mut rng = ChaCha8Rng::seed_from_u64(3);
    let mut p1 = init_and_step(1);
    p1.functions[1].blocks[0].instructions[0] = Instruction::load_const(Register(0), Value::Float(1.5f32.to_bits()));
    let p2 = init_and_step(2);
    assert!(matches!(breed(&mutator, &p1, &p2, &mut rng), Err(Error::Other(_))));
}

#[test]
fn test_checkpoint_file_name_reads_back() {
    for t in [0i64, 7, 1700000000, -42, i64::MAX, i64::MIN] {
        let checkpoint = Checkpoint::fresh(t);
        assert_eq!(checkpoint.version, 1);
        assert_eq!(checkpoint.data, CheckpointData { num_jobs_created: 0, num_jobs_completed: 0 });
        let name = checkpoint.file_name();
        assert_eq!(name, format!("checkpoint_{}.bin", t));
        assert_eq!(parse_checkpoint_name(&name), Some(t));
    }
}

#[test]
fn test_parse_checkpoint_name_cases() {
    assert_eq!(parse_checkpoint_name("checkpoint_123.bin"), Some(123));
    assert_eq!(parse_checkpoint_name("checkpoint_+5.bin"), Some(5));
    assert_eq!(parse_checkpoint_name("checkpoint_-0.bin"), Some(0));
    assert_eq!(parse_checkpoint_name("checkpoint_007.bin"), Some(7));
    assert_eq!(parse_checkpoint_name("checkpoint_.bin"), None);
    assert_eq!(parse_checkpoint_name("checkpoint_-.bin"), None);
    assert_eq!(parse_checkpoint_name("checkpoint_12a.bin"), None);
    assert_eq!(parse_checkpoint_name("checkpoint_12.bin.tmp"), None);
    assert_eq!(parse_checkpoint_name("snapshot_12.bin"), None);
    assert_eq!(parse_checkpoint_name("checkpoint_12.txt"), None);
    assert_eq!(parse_checkpoint_name("short"), None);
    assert_eq!(parse_checkpoint_name("checkpoint_9223372036854775807.bin"), Some(i64::MAX));
    assert_eq!(parse_checkpoint_name("checkpoint_9223372036854775808.bin"), None);
    assert_eq!(parse_checkpoint_name("checkpoint_-9223372036854775808.bin"), Some(i64::MIN));
    assert_eq!(parse_checkpoint_name("checkpoint_-9223372036854775809.bin"), None);
    assert_eq!(parse_checkpoint_name("checkpoint_99999999999999999999999.bin"), None);
    assert_eq!(parse_checkpoint_name("checkpoint_99999999999999999999999x.bin"), None);
    // The same as the standard parser on the middle part.
    for s in ["1", "-1", "+0", "12 3", "٣", "-", "+", "0x10"] {
        let name = format!("checkpoint_{}.bin", s);
        assert_eq!(parse_checkpoint_name(&name), s.parse::<i64>().ok());
    }
}

#[test]
fn test_latest_checkpoint_first_of_latest() {
    assert_eq!(latest_checkpoint(&vec![]), None);
    assert_eq!(latest_checkpoint(&vec![5, -3, 9, 9, 2]), Some(2));
    assert_eq!(latest_checkpoint(&vec![-7]), Some(0));
}

#[test]
fn test_checkpoints_to_remove_keeps_latest() {
    let times = vec![10i64, 30, -5, 20, 30];
    assert_eq!(checkpoints_to_remove(&times, 2), vec![3, 0, 2]);
    assert_eq!(checkpoints_to_remove(&times, 5), Vec::<usize>::new());
    assert_eq!(checkpoints_to_remove(&times, 0), vec![1, 4, 3, 0, 2]);
}

#[test]
fn test_api_answers() {
    let health = HealthResponse::healthy("0.1.0");
    assert_eq!(health.status, "healthy");
    assert_eq!(health.version, "0.1.0");
    assert!(SubmitResponse::accepted().success);
    let stats = StatsResponse::from_stats(JobStats { total_jobs: 4, pending_jobs: 2, completed_jobs: 1 }, 9);
    assert_eq!(
        stats,
        StatsResponse { total_jobs: 4, pending_jobs: 2, completed_jobs: 1, total_lineages: 9 }
    );
    let internal = ApiError::Internal("boom".to_string());
    let missing = ApiError::NotFound("none".to_string());
    assert_eq!(internal.status_code(), 500);
    assert_eq!(missing.status_code(), 404);
    assert_eq!(internal.message(), "boom");
    assert_eq!(missing.message(), "none");
}

#[test]
fn test_selection_waits_for_twenty_lineages() {
    assert!(!selection_due(0));
    assert!(!selection_due(19));
    assert!(selection_due(20));
    assert!(selection_due(1000));
}
