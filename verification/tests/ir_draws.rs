use evo_wasm::ir::compiler::{Compiler, CompilerConfig};
use evo_wasm::ir::instruction::{Instruction, Opcode, Operand, Register, Value};
use evo_wasm::ir::mutation::{
    function_from_draws, function_name, instruction_from_draws, operand_from_draw, opcode_from_draw, point_mutate_with,
    FunctionDraws, InstructionDraws, MutationConfig, Mutator, NewFunctionDraws, OperandDraw, PointDraws,
    ProgramDraws, StepDraws,
};
use evo_wasm::ir::program::{BasicBlock, Function, Program, ReturnType};
use evo_wasm::ir::validation::validate_program;
use evo_wasm::runtime::context::tile_code_at;
use evo_wasm::server::evolution::breeding_rounds;
use evo_wasm::types::{Position, Tile, TileType};
use evo_wasm::world::grid::Grid;
use rand::SeedableRng;
use rand_chacha::ChaCha8Rng;

fn draws(opcode: usize, dest: u8, a: u8, b: u8, x: i32, y: i32) -> InstructionDraws {
    InstructionDraws { opcode, dest, a, b, x, y }
}

fn shown<T: std::fmt::Debug>(t: &T) -> String {
    format!("{:?}", t)
}

fn init_and_step() -> Program {
    let mut program = Program::new();
    let mut init = Function::new("init".to_string(), 1, ReturnType::Void);
    init.get_block_mut(0).unwrap().add_instruction(Instruction::return_void());
    program.add_function(init);
    let mut step = Function::new("step".to_string(), 1, ReturnType::Int);
    step.get_block_mut(0).unwrap().add_instruction(Instruction::load_const(Register(0), Value::Int(0)));
    step.get_block_mut(0).unwrap().add_instruction(Instruction::return_value(Register(0)));
    program.add_function(step);
    program
}

fn quiet_config() -> MutationConfig {
    let mut c = MutationConfig::default();
    c.point_mutation_rate = 0;
    c.insertion_rate = 0;
    c.deletion_rate = 0;
    c.block_duplication_rate = 0;
    c.function_addition_rate = 0;
    c
}

#[test]
fn drawn_instructions_take_the_values_their_shape_reads() {
    let add = instruction_from_draws(draws(0, 1, 2, 3, 50, 60));
    assert_eq!(shown(&add), shown(&Instruction::arithmetic(Opcode::Add, Register(1), Register(2), Register(3))));
    let not = instruction_from_draws(draws(18, 4, 5, 6, 0, 0));
    assert_eq!(not.opcode, Opcode::Not);
    assert_eq!(not.dest, Some(Register(4)));
    assert_eq!(shown(&not.operands), shown(&vec![Operand::Register(Register(5))]));
    let k = instruction_from_draws(draws(19, 7, 0, 0, -5, 9));
    assert_eq!(shown(&k), shown(&Instruction::load_const(Register(7), Value::Int(-5))));
    let mv = instruction_from_draws(draws(22, 3, 0, 0, 1, -1));
    assert_eq!(mv.opcode, Opcode::Move);
    assert_eq!(mv.dest, None);
    assert_eq!(shown(&mv.operands), shown(&vec![Operand::Immediate(Value::Int(1)), Operand::Immediate(Value::Int(-1))]));
    let eat = instruction_from_draws(draws(23, 2, 1, 1, 1, 1));
    assert_eq!((eat.opcode, eat.dest, eat.operands.len()), (Opcode::Eat, Some(Register(2)), 0));
    let sense = instruction_from_draws(draws(25, 6, 0, 0, 3, 0));
    assert_eq!(sense.opcode, Opcode::SenseNeighbor);
    assert_eq!(shown(&sense.operands), shown(&vec![Operand::Immediate(Value::Int(3))]));
    let emit = instruction_from_draws(draws(28, 6, 0, 0, 2, 40));
    assert_eq!((emit.opcode, emit.dest), (Opcode::EmitSignal, None));
    // Indices past the last opcode draw the last one.
    assert_eq!(instruction_from_draws(draws(99, 0, 0, 0, 0, 0)).opcode, Opcode::EmitSignal);
}

#[test]
fn opcode_draws_stay_in_the_family() {
    assert_eq!(opcode_from_draw(Opcode::Add, 2), Opcode::Mul);
    assert_eq!(opcode_from_draw(Opcode::Mod, 0), Opcode::Add);
    assert_eq!(opcode_from_draw(Opcode::Eq, 5), Opcode::Ge);
    assert_eq!(opcode_from_draw(Opcode::GetAge, 0), Opcode::GetEnergy);
    assert_eq!(opcode_from_draw(Opcode::Xor, 9), Opcode::Xor);
    assert_eq!(opcode_from_draw(Opcode::Move, 1), Opcode::Move);
}

#[test]
fn operand_draws_apply_to_their_own_kind() {
    assert_eq!(shown(&operand_from_draw(Operand::Register(Register(1)), OperandDraw::Reg(9))), shown(&Operand::Register(Register(9))));
    assert_eq!(
        shown(&operand_from_draw(Operand::Immediate(Value::Int(i32::MAX - 3)), OperandDraw::Delta(10))),
        shown(&Operand::Immediate(Value::Int(i32::MAX)))
    );
    assert_eq!(
        shown(&operand_from_draw(Operand::Immediate(Value::Int(-4)), OperandDraw::Delta(-6))),
        shown(&Operand::Immediate(Value::Int(-10)))
    );
    assert_eq!(
        shown(&operand_from_draw(Operand::Immediate(Value::Bool(true)), OperandDraw::Flip(true))),
        shown(&Operand::Immediate(Value::Bool(false)))
    );
    assert_eq!(shown(&operand_from_draw(Operand::BlockIndex(1), OperandDraw::Index(6))), shown(&Operand::BlockIndex(6)));
    // A draw of another kind keeps the operand.
    assert_eq!(shown(&operand_from_draw(Operand::BlockIndex(1), OperandDraw::Reg(6))), shown(&Operand::BlockIndex(1)));
    assert_eq!(shown(&operand_from_draw(Operand::Register(Register(2)), OperandDraw::Keep)), shown(&Operand::Register(Register(2))));
}

#[test]
fn point_mutations_with_draws_change_the_chosen_aspect() {
    let base = Instruction::arithmetic(Opcode::Add, Register(1), Register(2), Register(3));
    let mut i = base.clone();
    point_mutate_with(&mut i, 0, 3, &vec![], 0);
    assert_eq!(shown(&i), shown(&Instruction::arithmetic(Opcode::Div, Register(1), Register(2), Register(3))));
    let mut i = base.clone();
    point_mutate_with(&mut i, 1, 0, &vec![OperandDraw::Reg(12), OperandDraw::Keep], 0);
    assert_eq!(shown(&i), shown(&Instruction::arithmetic(Opcode::Add, Register(1), Register(12), Register(3))));
    let mut i = base.clone();
    point_mutate_with(&mut i, 2, 0, &vec![], 15);
    assert_eq!(shown(&i), shown(&Instruction::arithmetic(Opcode::Add, Register(15), Register(2), Register(3))));
    let mut i = Instruction::return_void();
    point_mutate_with(&mut i, 2, 0, &vec![], 15);
    assert_eq!(shown(&i), shown(&Instruction::return_void()));
    let mut i = base.clone();
    point_mutate_with(&mut i, 7, 1, &vec![OperandDraw::Reg(0)], 4);
    assert_eq!(shown(&i), shown(&base));
}

#[test]
fn crossover_with_coins_picks_each_function() {
    let mutator = Mutator::new(MutationConfig::default());
    let mut p1 = init_and_step();
    p1.functions[0].num_locals = 1;
    let mut p2 = init_and_step();
    p2.functions[1].num_locals = 2;
    let child = mutator.crossover_with(&p1, &p2, &vec![true, false]);
    assert_eq!(child.functions.len(), 2);
    assert_eq!(shown(&child.functions[0]), shown(&p1.functions[0]));
    assert_eq!(shown(&child.functions[1]), shown(&p2.functions[1]));
    let child = mutator.crossover_with(&p1, &p2, &vec![false, true, true]);
    assert_eq!(shown(&child.functions[0]), shown(&p2.functions[0]));
    assert_eq!(shown(&child.functions[1]), shown(&p1.functions[1]));
}

fn three_constants() -> BasicBlock {
    let mut b = BasicBlock::new();
    b.add_instruction(Instruction::load_const(Register(0), Value::Int(1)));
    b.add_instruction(Instruction::load_const(Register(1), Value::Int(2)));
    b.add_instruction(Instruction::return_value(Register(0)));
    b
}

#[test]
fn a_block_walk_with_draws_deletes_inserts_and_mutates() {
    let mutator = Mutator::new(MutationConfig::default());
    // Delete the first instruction, then the walk stays on the next one.
    let mut b = three_constants();
    let steps = vec![
        StepDraws { point: None, delete: true, insert: None },
        StepDraws {
            point: Some(PointDraws { aspect: 1, opcode: 0, operands: vec![OperandDraw::Delta(5)], dest: 0 }),
            delete: false,
            insert: None,
        },
    ];
    mutator.mutate_block_with(&mut b, &steps);
    assert_eq!(b.instructions.len(), 2);
    assert_eq!(shown(&b.instructions[0]), shown(&Instruction::load_const(Register(1), Value::Int(7))));
    // Insert before the first instruction, then the walk moves past both.
    let mut b = three_constants();
    let steps = vec![
        StepDraws { point: None, delete: false, insert: Some(draws(23, 5, 0, 0, 0, 0)) },
        StepDraws { point: None, delete: true, insert: None },
    ];
    mutator.mutate_block_with(&mut b, &steps);
    assert_eq!(b.instructions.len(), 3);
    assert_eq!(b.instructions[0].opcode, Opcode::Eat);
    assert_eq!(shown(&b.instructions[1]), shown(&Instruction::load_const(Register(0), Value::Int(1))));
    assert_eq!(b.instructions[2].opcode, Opcode::Return);
    // The last instruction left is never deleted.
    let mut b = BasicBlock::new();
    b.add_instruction(Instruction::return_void());
    mutator.mutate_block_with(&mut b, &vec![StepDraws { point: None, delete: true, insert: None }]);
    assert_eq!(b.instructions.len(), 1);
}

#[test]
fn a_function_with_draws_copies_a_block_only_after_a_non_empty_last_block() {
    let mutator = Mutator::new(MutationConfig::default());
    let mut f = Function::new("f".to_string(), 0, ReturnType::Int);
    f.blocks[0] = three_constants();
    let d = FunctionDraws { blocks: vec![], duplicate: Some(0), add_local: true };
    mutator.mutate_function_with(&mut f, &d);
    assert_eq!(f.blocks.len(), 2);
    assert_eq!(shown(&f.blocks[1]), shown(&three_constants()));
    assert_eq!(f.num_locals, 1);
    // With an empty last block nothing is copied.
    f.blocks.push(BasicBlock::new());
    mutator.mutate_function_with(&mut f, &FunctionDraws { blocks: vec![], duplicate: Some(1), add_local: false });
    assert_eq!(f.blocks.len(), 3);
    assert_eq!(f.num_locals, 1);
}

#[test]
fn a_program_with_draws_gets_the_drawn_function() {
    let mutator = Mutator::new(MutationConfig::default());
    let mut p = init_and_step();
    let d = ProgramDraws {
        functions: vec![],
        new_function: Some(NewFunctionDraws { number: 7, instructions: vec![draws(19, 0, 0, 0, 3, 0)] }),
    };
    mutator.mutate_with(&mut p, &d);
    assert_eq!(p.functions.len(), 3);
    let f = &p.functions[2];
    assert_eq!(f.name, "func_7");
    assert_eq!(f.blocks.len(), 1);
    assert_eq!(shown(&f.blocks[0].instructions[0]), shown(&Instruction::load_const(Register(0), Value::Int(3))));
    assert_eq!(shown(&f.blocks[0].instructions[1]), shown(&Instruction::return_value(Register(0))));
    assert!(validate_program(&p).is_ok());
    let g = function_from_draws(12, &vec![]);
    assert_eq!(g.name, "func_12");
    assert_eq!(g.blocks[0].instructions.len(), 1);
}

#[test]
fn generated_function_names_are_numbered() {
    assert_eq!(function_name(0), "func_0");
    assert_eq!(function_name(4294967295), "func_4294967295");
}

#[test]
fn mutation_keeps_a_valid_program_with_an_empty_last_block_valid() {
    let mut config = quiet_config();
    config.block_duplication_rate = 0x100_0000;
    let mutator = Mutator::new(config);
    let mut p = init_and_step();
    p.functions[1].blocks.push(BasicBlock::new());
    assert!(validate_program(&p).is_ok());
    let mut rng = ChaCha8Rng::seed_from_u64(11);
    mutator.mutate(&mut p, &mut rng);
    assert!(validate_program(&p).is_ok());
    // The function whose last block is empty kept its two blocks; the other
    // got a copy of its block.
    assert_eq!(p.functions[1].blocks.len(), 2);
    assert_eq!(p.functions[0].blocks.len(), 2);
}

#[test]
fn no_argument_host_calls_load_no_operands() {
    let compiler = Compiler::new(CompilerConfig::default());
    for op in [Opcode::GetEnergy, Opcode::GetAge, Opcode::Eat, Opcode::Reproduce] {
        let mut a = init_and_step();
        let mut b = init_and_step();
        a.functions[1].blocks[0].instructions.insert(0, Instruction::new(op).with_dest(Register(2)));
        b.functions[1].blocks[0].instructions.insert(
            0,
            Instruction::new(op).with_operand(Operand::Immediate(Value::Int(5))).with_dest(Register(2)),
        );
        assert_eq!(compiler.compile(&a).unwrap(), compiler.compile(&b).unwrap());
    }
}

#[test]
fn set_changes_only_the_wrapped_cell() {
    let mut grid = Grid::new(4, 3);
    grid.set(Position::new(5, -1), Tile::obstacle());
    assert_eq!(grid.get(Position::new(1, 2)).tile_type, TileType::Obstacle);
    assert_eq!(grid.get(Position::new(-3, 5)).tile_type, TileType::Obstacle);
    let others = (0..4).flat_map(|x| (0..3).map(move |y| (x, y))).filter(|&(x, y)| (x, y) != (1, 2));
    for (x, y) in others {
        assert_eq!(grid.get(Position::new(x, y)).tile_type, TileType::Empty);
    }
    assert_eq!((grid.width, grid.height, grid.tiles.len()), (4, 3, 12));
}

#[test]
fn decimal_text_of_numbers() {
    assert_eq!(evo_wasm::ir::mutation::decimal_string(0), "0");
    assert_eq!(evo_wasm::ir::mutation::decimal_string(907), "907");
    assert_eq!(evo_wasm::ir::mutation::decimal_string(u64::MAX), "18446744073709551615");
    assert_eq!(evo_wasm::server::checkpoint::decimal_i64(-42), "-42");
    assert_eq!(evo_wasm::server::checkpoint::decimal_i64(i64::MIN), "-9223372036854775808");
    assert_eq!(evo_wasm::server::checkpoint::decimal_i64(5), "5");
}

#[test]
fn breeding_needs_two_survivors() {
    assert_eq!(breeding_rounds(0), 0);
    assert_eq!(breeding_rounds(1), 0);
    assert_eq!(breeding_rounds(2), 10);
    assert_eq!(breeding_rounds(30), 10);
}

#[test]
fn tile_codes_are_read_through_wrapping() {
    let kinds = vec![TileType::Empty, TileType::Resource, TileType::Obstacle, TileType::Hazard, TileType::Empty, TileType::Empty];
    assert_eq!(tile_code_at(3, 2, &kinds, 1, 0), 1);
    assert_eq!(tile_code_at(3, 2, &kinds, -1, 0), 2);
    assert_eq!(tile_code_at(3, 2, &kinds, 3, 3), 3);
    assert_eq!(tile_code_at(3, 2, &kinds, 5, -2), 2);
}

#[test]
fn cell_indices_and_positions_round_trip() {
    let grid = Grid::new(4, 3);
    for i in 0..12usize {
        let p = grid.index_to_pos(i);
        assert_eq!(p, Position::new((i % 4) as i32, (i / 4) as i32));
        assert_eq!(grid.pos_to_index(p), i);
    }
    assert_eq!(grid.get(Position::new(-1, -1)).tile_type, grid.get(Position::new(3, 2)).tile_type);
}
