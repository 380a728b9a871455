use evo_wasm::error::{Error, ValidationError};
use evo_wasm::ir::instruction::{Instruction, Opcode, Register, Value};
use evo_wasm::ir::program::{BasicBlock, Function, Program, ReturnType};
use evo_wasm::ir::validation::{validate_function, validate_program};

#[test]
fn test_basic_block() {
    let mut block = BasicBlock::new();
    assert!(block.is_empty());

    block.add_instruction(Instruction::return_void());
    assert_eq!(block.len(), 1);
    assert!(!block.is_empty());
}

#[test]
fn test_function() {
    let mut func = Function::new("test".to_string(), 0, ReturnType::Void);
    assert_eq!(func.num_blocks(), 1);

    let block = BasicBlock::new();
    func.add_block(block);
    assert_eq!(func.num_blocks(), 2);
}

#[test]
fn test_program() {
    let mut program = Program::new();
    assert_eq!(program.num_functions(), 0);

    let func = Function::new("step".to_string(), 1, ReturnType::Int);
    program.add_function(func);
    assert_eq!(program.num_functions(), 1);

    assert!(program.get_step_function().is_some());
    assert!(program.get_init_function().is_none());
}

#[test]
fn test_instruction_count() {
    let mut func = Function::new("test".to_string(), 0, ReturnType::Int);
    func.get_block_mut(0).unwrap().add_instruction(Instruction::load_const(Register(0), Value::Int(42)));
    func.get_block_mut(0).unwrap().add_instruction(Instruction::return_value(Register(0)));

    assert_eq!(func.instruction_count(), 2);

    let mut program = Program::new();
    program.add_function(func);
    assert_eq!(program.total_instructions(), 2);
}

#[test]
fn test_validate_empty_program() {
    let program = Program::new();
    assert!(validate_program(&program).is_err());
}

#[test]
fn test_validate_missing_step() {
    let mut program = Program::new();
    let mut func = Function::new("init".to_string(), 1, ReturnType::Void);
    func.get_block_mut(0).unwrap().add_instruction(Instruction::return_void());
    program.add_function(func);

    assert!(validate_program(&program).is_err());
}

#[test]
fn test_validate_valid_program() {
    let mut program = Program::new();

    let mut init = Function::new("init".to_string(), 1, ReturnType::Void);
    init.get_block_mut(0).unwrap().add_instruction(Instruction::return_void());
    program.add_function(init);

    let mut step = Function::new("step".to_string(), 1, ReturnType::Int);
    step.get_block_mut(0).unwrap().add_instruction(Instruction::load_const(Register(0), Value::Int(0)));
    step.get_block_mut(0).unwrap().add_instruction(Instruction::return_value(Register(0)));
    program.add_function(step);

    assert!(validate_program(&program).is_ok());
}

fn valid_program() -> Program {
    let mut program = Program::new();
    let mut init = Function::new("init".to_string(), 1, ReturnType::Void);
    init.get_block_mut(0).unwrap().add_instruction(Instruction::return_void());
    program.add_function(init);
    let mut step = Function::new("step".to_string(), 1, ReturnType::Int);
    step.get_block_mut(0).unwrap().add_instruction(Instruction::load_const(Register(0), Value::Int(0)));
    step.get_block_mut(0).unwrap().add_instruction(Instruction::return_value(Register(0)));
    program.add_function(step);
    program
}

#[test]
fn validation_reports_each_defect() {
    // No init function.
    let mut only_step = Program::new();
    let mut step = Function::new("step".to_string(), 1, ReturnType::Int);
    step.get_block_mut(0).unwrap().add_instruction(Instruction::return_value(Register(0)));
    only_step.add_function(step);
    assert_eq!(validate_program(&only_step), Err(Error::Validation(ValidationError::MissingInit)));

    // No step function.
    let mut only_init = Program::new();
    let mut init = Function::new("init".to_string(), 1, ReturnType::Void);
    init.get_block_mut(0).unwrap().add_instruction(Instruction::return_void());
    only_init.add_function(init);
    assert_eq!(validate_program(&only_init), Err(Error::Validation(ValidationError::MissingStep)));

    // An empty last block is allowed.
    let mut program = valid_program();
    program.get_function_mut(1).unwrap().add_block(BasicBlock::new());
    assert_eq!(validate_program(&program), Ok(()));

    // An empty block before the last one is not.
    program.get_function_mut(1).unwrap().add_block(BasicBlock::with_instructions(vec![Instruction::return_void()]));
    assert_eq!(
        validate_program(&program),
        Err(Error::Validation(ValidationError::EmptyBlock { function: 1, block: 1 }))
    );

    // A function without blocks.
    let mut program = valid_program();
    program.add_function(Function {
        name: "helper".to_string(),
        num_params: 0,
        num_locals: 0,
        blocks: Vec::new(),
        return_type: ReturnType::Void,
    });
    assert_eq!(validate_program(&program), Err(Error::Validation(ValidationError::NoBlocks { function: 2 })));
    assert_eq!(
        validate_function(program.get_function(2).unwrap(), 7),
        Err(Error::Validation(ValidationError::NoBlocks { function: 7 }))
    );
    assert_eq!(validate_function(program.get_function(0).unwrap(), 0), Ok(()));
}

#[test]
fn find_function_takes_first_match() {
    let mut program = valid_program();
    program.add_function(Function::new("step".to_string(), 3, ReturnType::Void));
    assert_eq!(program.get_step_function().unwrap().num_params, 1);
    assert_eq!(program.get_init_function().unwrap().name, "init");
}

#[test]
fn program_accessors() {
    let mut program = valid_program();
    assert!(program.get_function(2).is_none());
    assert!(program.get_function_mut(2).is_none());
    assert_eq!(program.add_function(Function::new("x".to_string(), 0, ReturnType::Void)), 2);
    assert_eq!(program.num_functions(), 3);
    assert_eq!(program.total_instructions(), 3);
    let copy = program.clone();
    assert_eq!(copy.num_functions(), 3);
    assert_eq!(copy.get_function(1).unwrap().instruction_count(), 2);
    let with = Program::with_functions(vec![Function::new("a".to_string(), 0, ReturnType::Int)]);
    assert_eq!(with.num_functions(), 1);
    assert_eq!(with.memory_size, 256);
    assert_eq!(with.version, 1);
    let block = BasicBlock::with_instructions(vec![Instruction::return_void(), Instruction::new(Opcode::Add)]);
    assert_eq!(block.len(), 2);
    assert!(BasicBlock::default().is_empty());
    assert_eq!(Program::default().num_functions(), 0);
}

#[test]
fn validation_failures_say_what_is_wrong() {
    assert_eq!(ValidationError::MissingInit.message(), "Missing required 'init' function");
    assert_eq!(ValidationError::MissingStep.message(), "Missing required 'step' function");
    assert_eq!(ValidationError::NoBlocks { function: 3 }.message(), "Function 3 has no basic blocks");
    assert_eq!(ValidationError::EmptyBlock { function: 1, block: 10 }.message(), "Function 1 block 10 is empty");
}
