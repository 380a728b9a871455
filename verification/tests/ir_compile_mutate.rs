use evo_wasm::ir::compiler::{Compiler, CompilerConfig};
use evo_wasm::ir::instruction::{Instruction, Opcode, Operand, Register, Value};
use evo_wasm::ir::mutation::{MutationConfig, Mutator};
use evo_wasm::ir::program::{Function, Program, ReturnType};
use evo_wasm::ir::validation::validate_program;
use rand::SeedableRng;
use rand_chacha::ChaCha8Rng;

fn init_and_step() -> Program {
    let mut program = Program::new();
    let mut init = Function::new("init".to_string(), 1, ReturnType::Void);
    init.get_block_mut(0).unwrap().add_instruction(Instruction::return_void());
    program.add_function(init);
    let mut step = Function::new("step".to_string(), 1, ReturnType::Int);
    step.get_block_mut(0).unwrap().add_instruction(Instruction::load_const(Register(0), Value::Int(0)));
    step.get_block_mut(0).unwrap().add_instruction(Instruction::return_value(Register(0)));
    program.add_function(step);
    program
}

fn wasm_is_valid(bytes: &[u8]) -> bool {
    let engine = wasmtime::Engine::default();
    wasmtime::Module::validate(&engine, bytes).is_ok()
}

#[test]
fn test_compile_empty_program() {
    let _compiler = Compiler::new(CompilerConfig::default());
    let program = Program::new();

    // Empty program won't compile properly, but let's test the structure
    assert_eq!(program.num_functions(), 0);
}

#[test]
fn test_compile_simple_function() {
    let compiler = Compiler::new(CompilerConfig::default());

    let mut func = Function::new("test".to_string(), 0, ReturnType::Int);
    func.get_block_mut(0).unwrap().add_instruction(Instruction::load_const(Register(0), Value::Int(42)));
    func.get_block_mut(0).unwrap().add_instruction(Instruction::return_value(Register(0)));

    let mut program = Program::new();
    program.add_function(func);

    let wasm_bytes = compiler.compile(&program);
    assert!(wasm_bytes.is_ok());
}

#[test]
fn test_compile_init_and_step() {
    let compiler = Compiler::new(CompilerConfig::default());
    let program = init_and_step();

    let wasm_bytes = compiler.compile(&program);
    assert!(wasm_bytes.is_ok(), "Compilation failed: {:?}", wasm_bytes.err());

    let bytes = wasm_bytes.unwrap();
    assert!(wasm_is_valid(&bytes), "WASM validation failed");
}

#[test]
fn compiled_module_starts_with_the_wasm_header() {
    let compiler = Compiler::new(CompilerConfig::default());
    let bytes = compiler.compile(&init_and_step()).unwrap();
    assert_eq!(&bytes[0..8], &[0x00, 0x61, 0x73, 0x6d, 0x01, 0x00, 0x00, 0x00]);
    // Compilation is a function of the program and the configuration.
    assert_eq!(bytes, compiler.compile(&init_and_step()).unwrap());
}

#[test]
fn compiled_module_exports_functions_and_memory() {
    let compiler = Compiler::new(CompilerConfig { max_memory_pages: 2, ..Default::default() });
    let bytes = compiler.compile(&init_and_step()).unwrap();
    let engine = wasmtime::Engine::default();
    let module = wasmtime::Module::new(&engine, &bytes).unwrap();
    let exports: Vec<String> = module.exports().map(|e| e.name().to_string()).collect();
    assert_eq!(exports, vec!["init".to_string(), "step".to_string(), "memory".to_string()]);
    let imports: Vec<String> = module.imports().map(|i| i.name().to_string()).collect();
    assert_eq!(
        imports,
        vec!["env_read", "get_energy", "get_age", "move_dir", "eat", "attack", "sense_neighbor", "try_reproduce", "emit_signal"]
    );
}

#[test]
fn every_opcode_compiles_to_valid_wasm() {
    let compiler = Compiler::new(CompilerConfig::default());
    let mut program = init_and_step();
    let mut body = Function::new("helper".to_string(), 0, ReturnType::Int);
    body.num_locals = 4;
    let regs = |d: u8, a: u8, b: u8| (Register(d), Register(a), Register(b));
    let binary = [
        Opcode::Add, Opcode::Sub, Opcode::Mul, Opcode::Div, Opcode::Mod, Opcode::Min, Opcode::Max,
        Opcode::Eq, Opcode::Ne, Opcode::Lt, Opcode::Le, Opcode::Gt, Opcode::Ge, Opcode::And, Opcode::Or, Opcode::Xor,
    ];
    let block = body.get_block_mut(0).unwrap();
    for op in binary {
        let (d, a, b) = regs(1, 2, 3);
        block.add_instruction(Instruction::arithmetic(op, d, a, b));
    }
    for op in [Opcode::Neg, Opcode::Abs, Opcode::Not] {
        block.add_instruction(Instruction::new(op).with_operand(Operand::Register(Register(2))).with_dest(Register(1)));
    }
    block.add_instruction(Instruction::new(Opcode::GetEnergy).with_dest(Register(0)));
    block.add_instruction(Instruction::new(Opcode::GetAge).with_dest(Register(0)));
    block.add_instruction(Instruction::new(Opcode::Eat).with_dest(Register(0)));
    block.add_instruction(Instruction::new(Opcode::Reproduce).with_dest(Register(0)));
    block.add_instruction(
        Instruction::new(Opcode::Move)
            .with_operand(Operand::Immediate(Value::Int(1)))
            .with_operand(Operand::Immediate(Value::Int(-1))),
    );
    block.add_instruction(
        Instruction::new(Opcode::SenseEnv)
            .with_operand(Operand::Immediate(Value::Int(0)))
            .with_operand(Operand::Immediate(Value::Int(1)))
            .with_dest(Register(2)),
    );
    block.add_instruction(
        Instruction::new(Opcode::Attack)
            .with_operand(Operand::Immediate(Value::Int(0)))
            .with_operand(Operand::Immediate(Value::Int(1)))
            .with_dest(Register(2)),
    );
    block.add_instruction(Instruction::new(Opcode::SenseNeighbor).with_operand(Operand::Immediate(Value::Int(3))).with_dest(Register(2)));
    block.add_instruction(
        Instruction::new(Opcode::EmitSignal)
            .with_operand(Operand::Immediate(Value::Int(2)))
            .with_operand(Operand::Immediate(Value::Bool(true))),
    );
    block.add_instruction(Instruction::load_const(Register(3), Value::Float(1.5f32.to_bits())));
    block.add_instruction(Instruction::return_value(Register(1)));
    program.add_function(body);
    let bytes = compiler.compile(&program).unwrap();
    assert!(wasm_is_valid(&bytes));
}

#[test]
fn test_point_mutation() {
    let mutator = Mutator::new(MutationConfig::default());
    let mut rng = ChaCha8Rng::seed_from_u64(42);

    let mut inst = Instruction::arithmetic(Opcode::Add, Register(0), Register(1), Register(2));

    mutator.point_mutate(&mut inst, &mut rng);
    // Instruction should still be valid
    assert!(inst.operands.len() >= 2);
}

#[test]
fn test_mutate_program() {
    let mutator = Mutator::new(MutationConfig {
        point_mutation_rate: 0x100_0000, // Force mutation
        ..Default::default()
    });
    let mut rng = ChaCha8Rng::seed_from_u64(42);

    let mut func = Function::new("test".to_string(), 0, ReturnType::Int);
    func.get_block_mut(0).unwrap().add_instruction(Instruction::load_const(Register(0), Value::Int(42)));
    func.get_block_mut(0).unwrap().add_instruction(Instruction::return_value(Register(0)));

    let mut program = Program::new();
    program.add_function(func);

    let _instruction_count_before = program.total_instructions();

    mutator.mutate(&mut program, &mut rng);

    // Program should still have functions
    assert!(program.num_functions() > 0);
}

#[test]
fn test_crossover() {
    let mutator = Mutator::new(MutationConfig::default());
    let mut rng = ChaCha8Rng::seed_from_u64(42);

    let mut parent1 = Program::new();
    parent1.add_function(Function::new("func1".to_string(), 0, ReturnType::Int));

    let mut parent2 = Program::new();
    parent2.add_function(Function::new("func2".to_string(), 0, ReturnType::Int));

    let child = mutator.crossover(&parent1, &parent2, &mut rng);

    assert!(child.num_functions() > 0);
}

#[test]
fn test_generate_random_instruction() {
    let mutator = Mutator::new(MutationConfig::default());
    let mut rng = ChaCha8Rng::seed_from_u64(42);

    for _ in 0..10 {
        let inst = mutator.generate_random_instruction(&mut rng);
        // Just ensure it doesn't crash
        assert!(inst.operands.len() <= 3);
    }
}

#[test]
fn mutation_keeps_valid_programs_valid_and_compilable() {
    let mutator = Mutator::new(MutationConfig {
        point_mutation_rate: 0x40_0000,
        insertion_rate: 0x40_0000,
        deletion_rate: 0x40_0000,
        block_duplication_rate: 0x40_0000,
        function_addition_rate: 0x40_0000,
        ..Default::default()
    });
    let compiler = Compiler::new(CompilerConfig::default());
    let mut rng = ChaCha8Rng::seed_from_u64(7);
    let mut program = init_and_step();
    for _ in 0..50 {
        mutator.mutate(&mut program, &mut rng);
        assert!(validate_program(&program).is_ok());
        assert!(program.num_functions() <= 10);
        for f in &program.functions {
            assert!(f.num_locals <= 16);
            for b in &f.blocks {
                assert!(!b.instructions.is_empty());
            }
        }
        assert_eq!(program.functions[0].name, "init");
        assert_eq!(program.functions[1].name, "step");
        assert!(compiler.compile(&program).is_ok());
    }
}

#[test]
fn rate_zero_mutation_changes_nothing_but_may_add_nothing() {
    let mutator = Mutator::new(MutationConfig {
        point_mutation_rate: 0,
        insertion_rate: 0,
        deletion_rate: 0,
        block_duplication_rate: 0,
        function_addition_rate: 0,
        ..Default::default()
    });
    let mut rng = ChaCha8Rng::seed_from_u64(3);
    let mut program = init_and_step();
    let before = program.total_instructions();
    mutator.mutate(&mut program, &mut rng);
    assert_eq!(program.num_functions(), 2);
    assert_eq!(program.total_instructions(), before);
    assert_eq!(program.functions[1].blocks[0].instructions[0], Instruction::load_const(Register(0), Value::Int(0)));
}

#[test]
fn crossover_takes_half_the_functions() {
    let mutator = Mutator::new(MutationConfig::default());
    let mut rng = ChaCha8Rng::seed_from_u64(11);
    let mut p1 = Program::new();
    for name in ["a", "b", "c", "d"] {
        p1.add_function(Function::new(name.to_string(), 0, ReturnType::Int));
    }
    let mut p2 = Program::new();
    for name in ["x", "y"] {
        p2.add_function(Function::new(name.to_string(), 0, ReturnType::Int));
    }
    let child = mutator.crossover(&p1, &p2, &mut rng);
    assert_eq!(child.num_functions(), 3);
    assert!(child.functions[0].name == "a" || child.functions[0].name == "x");
    assert!(child.functions[1].name == "b" || child.functions[1].name == "y");
    // Index 2: parent 1 has it; parent 2 wraps around to parent 1 at 2 % 4.
    assert_eq!(child.functions[2].name, "c");

    let small = Mutator::new(MutationConfig { max_functions: 1, ..Default::default() });
    assert_eq!(small.crossover(&p1, &p2, &mut rng).num_functions(), 1);
}

#[test]
fn generated_functions_are_well_formed() {
    let mutator = Mutator::new(MutationConfig { function_addition_rate: 0x100_0000, ..Default::default() });
    let mut rng = ChaCha8Rng::seed_from_u64(5);
    let mut program = init_and_step();
    mutator.mutate(&mut program, &mut rng);
    assert_eq!(program.num_functions(), 3);
    let f = &program.functions[2];
    assert!(f.name.starts_with("func_"));
    assert_eq!(f.num_params, 0);
    assert_eq!(f.blocks.len(), 1);
    let n = f.blocks[0].instructions.len();
    assert!(4 <= n && n <= 20);
    assert_eq!(f.blocks[0].instructions[n - 1], Instruction::return_value(Register(0)));
}

#[test]
fn compilation_is_deterministic() {
    let compiler = Compiler::new(CompilerConfig::default());
    let program = init_and_step();
    let copy = program.clone();
    let first = compiler.compile(&program).unwrap();
    let second = compiler.compile(&program).unwrap();
    let of_copy = compiler.compile(&copy).unwrap();
    assert_eq!(first, second);
    assert_eq!(first, of_copy);
}

#[test]
fn a_point_mutation_changes_one_aspect() {
    let mutator = Mutator::new(MutationConfig::default());
    for seed in 0..200u64 {
        let mut rng = ChaCha8Rng::seed_from_u64(seed);
        let before = Instruction::arithmetic(Opcode::Add, Register(3), Register(1), Register(2));
        let mut inst = before.clone();
        mutator.point_mutate(&mut inst, &mut rng);
        let changed = [inst.opcode != before.opcode, inst.operands != before.operands, inst.dest != before.dest];
        assert!(changed.iter().filter(|c| **c).count() <= 1);
    }
}

#[test]
fn added_functions_have_the_generated_shape() {
    let mutator = Mutator::new(MutationConfig { function_addition_rate: 0x100_0000, ..Default::default() });
    let mut rng = ChaCha8Rng::seed_from_u64(5);
    let mut program = init_and_step();
    mutator.mutate(&mut program, &mut rng);
    assert_eq!(program.functions.len(), 3);
    let f = &program.functions[2];
    assert!(f.name.starts_with("func_"));
    assert!(f.name["func_".len()..].parse::<u32>().is_ok());
    assert_eq!(f.num_params, 0);
    assert_eq!(f.num_locals, 0);
    assert_eq!(f.blocks.len(), 1);
    let n = f.blocks[0].instructions.len();
    assert!((4..=20).contains(&n));
    assert_eq!(f.blocks[0].instructions[n - 1], Instruction::return_value(Register(0)));
}

#[test]
fn mutation_without_insertions_keeps_instruction_order() {
    // With no insertions and no deletions, every instruction stays in its
    // place, as a point mutation of itself.
    let mutator = Mutator::new(MutationConfig {
        point_mutation_rate: 0x100_0000,
        insertion_rate: 0,
        deletion_rate: 0,
        block_duplication_rate: 0,
        function_addition_rate: 0,
        ..Default::default()
    });
    let mut rng = ChaCha8Rng::seed_from_u64(9);
    let mut program = init_and_step();
    let step_before: Vec<Opcode> = program.functions[1].blocks[0].instructions.iter().map(|i| i.opcode).collect();
    mutator.mutate(&mut program, &mut rng);
    let step_after: Vec<Opcode> = program.functions[1].blocks[0].instructions.iter().map(|i| i.opcode).collect();
    assert_eq!(step_before, step_after);
}
