//! Mutation and crossover of genome programs.

use vstd::prelude::*;
use rand_chacha::ChaCha8Rng;
use crate::ir::instruction::{Instruction, InstructionModel, Opcode, Operand, Register, Value};
use crate::ir::program::{
    BasicBlock, Function, FunctionModel, Program, ProgramModel, blocks_model, functions_model,
    instructions_model, first_named,
};
use crate::ir::validation::{spec_validate, first_program_defect, function_defect, first_empty_block};
use crate::rng::{chance, gen_bool, gen_range_i32, gen_range_i32_inclusive, gen_range_u32, gen_range_u8, gen_range_usize, gen_u32};

verus! {

/// Mutation settings. Each rate is a chance in units of 2^-24: the number
/// of 24-bit draws (out of 2^24) for which the event happens, as a draw of
/// `rng.gen::<f32>()` compared with a probability `p` gives `p * 2^24`
/// rounded up.
#[derive(Debug, Clone, Copy)]
pub struct MutationConfig {
    /// Chance of a point mutation per instruction.
    pub point_mutation_rate: u32,
    /// Chance of inserting a new instruction.
    pub insertion_rate: u32,
    /// Chance of deleting an instruction.
    pub deletion_rate: u32,
    /// Chance of duplicating a basic block.
    pub block_duplication_rate: u32,
    /// Chance of adding a new function.
    pub function_addition_rate: u32,
    /// Maximum number of instructions per block for insertions.
    pub max_instructions_per_function: usize,
    /// Maximum number of functions per program.
    pub max_functions: usize,
    /// Maximum number of local variables.
    pub max_locals: usize,
}

/// The chance of `0.01f32` in units of 2^-24.
pub const NEW_LOCAL_CHANCE: u32 = 167773;

/// The chance of `0.5f32` in units of 2^-24.
pub const HALF_CHANCE: u32 = 0x80_0000;

/// The default mutation settings.
pub open spec fn default_mutation_config() -> MutationConfig {
    MutationConfig {
        point_mutation_rate: 167773,
        insertion_rate: 83887,
        deletion_rate: 83887,
        block_duplication_rate: 16778,
        function_addition_rate: 1678,
        max_instructions_per_function: 100,
        max_functions: 10,
        max_locals: 16,
    }
}

impl Default for MutationConfig {
    /// Chances of 0.01 (point), 0.005 (insertion and deletion), 0.001
    /// (block duplication) and 0.0001 (new function), at most 100
    /// instructions, 10 functions and 16 locals.
    fn default() -> (r: Self)
        ensures
            r == default_mutation_config(),
            r.point_mutation_rate == 167773,
            r.insertion_rate == 83887,
            r.deletion_rate == 83887,
            r.block_duplication_rate == 16778,
            r.function_addition_rate == 1678,
            r.max_instructions_per_function == 100,
            r.max_functions == 10,
            r.max_locals == 16,
    {
        MutationConfig {
            point_mutation_rate: 167773,
            insertion_rate: 83887,
            deletion_rate: 83887,
            block_duplication_rate: 16778,
            function_addition_rate: 1678,
            max_instructions_per_function: 100,
            max_functions: 10,
            max_locals: 16,
        }
    }
}

/// Applies mutation and crossover to programs.
pub struct Mutator {
    pub config: MutationConfig,
}

// ---------------------------------------------------------------------------
// Facts about mutated programs.

/// The opcodes a point mutation may exchange: members of one family share
/// their arity and their role. Opcodes outside every family never change.
pub open spec fn opcode_family(op: Opcode) -> int {
    match op {
        Opcode::Add | Opcode::Sub | Opcode::Mul | Opcode::Div | Opcode::Mod => 1,
        Opcode::Neg | Opcode::Abs => 2,
        Opcode::Min | Opcode::Max => 3,
        Opcode::Eq | Opcode::Ne | Opcode::Lt | Opcode::Le | Opcode::Gt | Opcode::Ge => 4,
        Opcode::And | Opcode::Or | Opcode::Xor => 5,
        Opcode::GetEnergy | Opcode::GetAge => 6,
        _ => 0,
    }
}

/// `b` may come from `a` by a mutation of the opcode.
pub open spec fn opcode_mutation_of(a: Opcode, b: Opcode) -> bool {
    if opcode_family(a) == 0 { b == a } else { opcode_family(b) == opcode_family(a) }
}

/// A float immediate.
pub open spec fn is_float_operand(o: Operand) -> bool {
    o matches Operand::Immediate(Value::Float(_))
}

/// No operand of the instruction is a float immediate.
pub open spec fn instruction_without_floats(i: InstructionModel) -> bool {
    forall|k: int| 0 <= k < i.operands.len() ==> !is_float_operand(#[trigger] i.operands[k])
}

/// No instruction of the block has a float immediate.
pub open spec fn block_without_floats(b: Seq<InstructionModel>) -> bool {
    forall|k: int| 0 <= k < b.len() ==> instruction_without_floats(#[trigger] b[k])
}

/// No instruction of the function has a float immediate.
pub open spec fn function_without_floats(f: FunctionModel) -> bool {
    forall|k: int| 0 <= k < f.blocks.len() ==> block_without_floats(#[trigger] f.blocks[k])
}

/// No instruction of the program has a float immediate. Mutation never
/// creates one; it cannot perturb one either (floats are not modelled).
pub open spec fn program_without_floats(p: ProgramModel) -> bool {
    forall|k: int| 0 <= k < p.functions.len() ==> function_without_floats(#[trigger] p.functions[k])
}

/// Whether an instruction has no float immediate.
fn instruction_float_free(i: &Instruction) -> (r: bool)
    ensures
        r == instruction_without_floats(i@),
{
    let mut k: usize = 0;
    while k < i.operands.len()
        invariant
            k <= i.operands@.len(),
            forall|j: int| 0 <= j < k ==> !is_float_operand(#[trigger] i.operands@[j]),
        decreases i.operands@.len() - k,
    {
        if let Operand::Immediate(Value::Float(_)) = i.operands[k] {
            assert(is_float_operand(i@.operands[k as int]));
            return false;
        }
        k += 1;
    }
    true
}

/// Whether a block has no float immediate.
fn block_float_free(b: &BasicBlock) -> (r: bool)
    ensures
        r == block_without_floats(b@),
{
    let mut k: usize = 0;
    while k < b.instructions.len()
        invariant
            k <= b.instructions@.len(),
            forall|j: int| 0 <= j < k ==> instruction_without_floats(#[trigger] b@[j]),
        decreases b.instructions@.len() - k,
    {
        if !instruction_float_free(&b.instructions[k]) {
            assert(b@[k as int] == b.instructions@[k as int]@);
            assert(!instruction_without_floats(b@[k as int]));
            return false;
        }
        k += 1;
    }
    true
}

/// Whether a program has no float immediate.
pub fn program_float_free(p: &Program) -> (r: bool)
    ensures
        r == program_without_floats(p@),
{
    let mut f: usize = 0;
    while f < p.functions.len()
        invariant
            f <= p.functions@.len(),
            forall|j: int| 0 <= j < f ==> function_without_floats(#[trigger] p@.functions[j]),
        decreases p.functions@.len() - f,
    {
        let func = &p.functions[f];
        assert(func@ == p@.functions[f as int]);
        let mut b: usize = 0;
        while b < func.blocks.len()
            invariant
                f < p.functions@.len(),
                func@ == p@.functions[f as int],
                b <= func.blocks@.len(),
                forall|j: int| 0 <= j < b ==> block_without_floats(#[trigger] func@.blocks[j]),
            decreases func.blocks@.len() - b,
        {
            if !block_float_free(&func.blocks[b]) {
                assert(func@.blocks[b as int] == func.blocks@[b as int]@);
                assert(!block_without_floats(p@.functions[f as int].blocks[b as int]));
                assert(!function_without_floats(p@.functions[f as int]));
                return false;
            }
            b += 1;
        }
        f += 1;
    }
    true
}

/// `b` may come from `a` by mutating one operand: same kind of operand,
/// registers below 16, integers moved by at most ten (saturating), block and
/// function indices below 8, booleans possibly flipped.
pub open spec fn operand_mutation_of(a: Operand, b: Operand) -> bool {
    match (a, b) {
        (Operand::Register(_), Operand::Register(r)) => r.0 < 16,
        (Operand::Immediate(Value::Int(x)), Operand::Immediate(Value::Int(y))) => -10 <= y - x <= 10,
        (Operand::Immediate(Value::Bool(_)), Operand::Immediate(Value::Bool(_))) => true,
        (Operand::BlockIndex(_), Operand::BlockIndex(k)) => k < 8,
        (Operand::FunctionIndex(_), Operand::FunctionIndex(k)) => k < 8,
        _ => false,
    }
}

/// `b` comes from `a` by a walk through its instructions in order: each
/// old instruction is dropped, or kept as a point mutation of itself,
/// possibly preceded by one generated instruction.
pub open spec fn block_walk(a: Seq<InstructionModel>, b: Seq<InstructionModel>) -> bool
    decreases a.len(),
{
    if a.len() == 0 {
        b.len() == 0
    } else {
        let x = a.last();
        ||| block_walk(a.drop_last(), b)
        ||| (b.len() >= 1 && one_aspect_mutation(x, b.last()) && block_walk(a.drop_last(), b.drop_last()))
        ||| (b.len() >= 2 && one_aspect_mutation(x, b.last()) && generated_instruction(b[b.len() - 2])
            && block_walk(a.drop_last(), b.take(b.len() - 2)))
    }
}

/// `b` may come from `a` by a point mutation: the opcode stays in its
/// family, each operand keeps its kind (possibly mutated), and a
/// destination stays a destination (possibly another register below 16).
pub open spec fn point_mutation_of(a: InstructionModel, b: InstructionModel) -> bool {
    &&& opcode_mutation_of(a.opcode, b.opcode)
    &&& b.operands.len() == a.operands.len()
    &&& forall|k: int| 0 <= k < a.operands.len() ==>
        (#[trigger] b.operands[k] == a.operands[k] || operand_mutation_of(a.operands[k], b.operands[k]))
    &&& (a.dest is None <==> b.dest is None)
    &&& (b.dest != a.dest ==> (b.dest matches Some(r) && r.0 < 16))
}

/// A point mutation changes one aspect of an instruction: its opcode
/// (within its family), or some of its operands (each keeping its kind), or
/// its destination register (to one below 16); the rest stays.
pub open spec fn one_aspect_mutation(a: InstructionModel, b: InstructionModel) -> bool {
    ||| (opcode_mutation_of(a.opcode, b.opcode) && b.operands == a.operands && b.dest == a.dest)
    ||| {
        &&& b.opcode == a.opcode
        &&& b.dest == a.dest
        &&& b.operands.len() == a.operands.len()
        &&& forall|k: int| 0 <= k < a.operands.len() ==>
            (#[trigger] b.operands[k] == a.operands[k] || operand_mutation_of(a.operands[k], b.operands[k]))
    }
    ||| {
        &&& b.opcode == a.opcode
        &&& b.operands == a.operands
        &&& (a.dest is None ==> b.dest is None)
        &&& (a.dest is Some ==> (b.dest matches Some(r) && r.0 < 16))
    }
}

/// An integer immediate in `lo..=hi`.
pub open spec fn int_in(o: Operand, lo: int, hi: int) -> bool {
    o matches Operand::Immediate(Value::Int(v)) && lo <= v <= hi
}

/// A register below 8.
pub open spec fn low_register(o: Operand) -> bool {
    o matches Operand::Register(r) && r.0 < 8
}

/// A destination register below 8.
pub open spec fn low_dest(d: Option<Register>) -> bool {
    d matches Some(r) && r.0 < 8
}

/// The shapes of generated instructions: arithmetic, comparison and
/// logical instructions on registers below 8, constants in `-100..100`,
/// host calls with small immediate arguments. Generated code has no
/// branches, calls, loads, stores or returns.
pub open spec fn generated_instruction(i: InstructionModel) -> bool {
    let ops = i.operands;
    match i.opcode {
        Opcode::Add | Opcode::Sub | Opcode::Mul | Opcode::Div | Opcode::Mod | Opcode::Eq | Opcode::Ne
        | Opcode::Lt | Opcode::Le | Opcode::Gt | Opcode::Ge | Opcode::And | Opcode::Or | Opcode::Xor
        | Opcode::Min | Opcode::Max =>
            low_dest(i.dest) && ops.len() == 2 && low_register(ops[0]) && low_register(ops[1]),
        Opcode::Not | Opcode::Neg | Opcode::Abs => low_dest(i.dest) && ops.len() == 1 && low_register(ops[0]),
        Opcode::LoadConst => low_dest(i.dest) && ops.len() == 1 && int_in(ops[0], -100, 99),
        Opcode::GetEnergy | Opcode::GetAge | Opcode::Eat | Opcode::Reproduce => low_dest(i.dest) && ops.len() == 0,
        Opcode::Move => i.dest is None && ops.len() == 2 && int_in(ops[0], -1, 1) && int_in(ops[1], -1, 1),
        Opcode::SenseEnv | Opcode::Attack =>
            low_dest(i.dest) && ops.len() == 2 && int_in(ops[0], -1, 1) && int_in(ops[1], -1, 1),
        Opcode::SenseNeighbor => low_dest(i.dest) && ops.len() == 1 && int_in(ops[0], 0, 7),
        Opcode::EmitSignal => i.dest is None && ops.len() == 2 && int_in(ops[0], 0, 9) && int_in(ops[1], -100, 99),
        _ => false,
    }
}

/// The values drawn for a generated instruction: the index of its opcode
/// among the generated ones (see `spec_generated_opcode`), a destination
/// register, two source registers and two integers. Each shape reads the
/// ones it needs.
#[derive(Debug, Clone, Copy)]
pub struct InstructionDraws {
    pub opcode: usize,
    pub dest: u8,
    pub a: u8,
    pub b: u8,
    pub x: i32,
    pub y: i32,
}

/// An integer immediate.
pub open spec fn int_operand(v: i32) -> Operand {
    Operand::Immediate(Value::Int(v))
}

/// The instruction the draws make.
pub open spec fn drawn_instruction(d: InstructionDraws) -> InstructionModel {
    let op = spec_generated_opcode(d.opcode as int);
    let dest = Some(Register(d.dest));
    match op {
        Opcode::Add | Opcode::Sub | Opcode::Mul | Opcode::Div | Opcode::Mod | Opcode::Eq | Opcode::Ne
        | Opcode::Lt | Opcode::Le | Opcode::Gt | Opcode::Ge | Opcode::And | Opcode::Or | Opcode::Xor
        | Opcode::Min | Opcode::Max =>
            InstructionModel { opcode: op, dest, operands: seq![Operand::Register(Register(d.a)), Operand::Register(Register(d.b))] },
        Opcode::Not | Opcode::Neg | Opcode::Abs =>
            InstructionModel { opcode: op, dest, operands: seq![Operand::Register(Register(d.a))] },
        Opcode::LoadConst => InstructionModel { opcode: op, dest, operands: seq![int_operand(d.x)] },
        Opcode::GetEnergy | Opcode::GetAge | Opcode::Eat | Opcode::Reproduce =>
            InstructionModel { opcode: op, dest, operands: seq![] },
        Opcode::Move => InstructionModel { opcode: op, dest: None, operands: seq![int_operand(d.x), int_operand(d.y)] },
        Opcode::SenseEnv | Opcode::Attack =>
            InstructionModel { opcode: op, dest, operands: seq![int_operand(d.x), int_operand(d.y)] },
        Opcode::SenseNeighbor => InstructionModel { opcode: op, dest, operands: seq![int_operand(d.x)] },
        _ => InstructionModel { opcode: Opcode::EmitSignal, dest: None, operands: seq![int_operand(d.x), int_operand(d.y)] },
    }
}

/// The draws lie in the ranges the generator draws them from: an opcode
/// index below 29, registers below 8, and the integers each shape reads in
/// its range.
pub open spec fn draws_in_range(d: InstructionDraws) -> bool {
    &&& d.opcode < 29
    &&& d.dest < 8
    &&& d.a < 8
    &&& d.b < 8
    &&& match spec_generated_opcode(d.opcode as int) {
        Opcode::LoadConst => -100 <= d.x < 100,
        Opcode::Move | Opcode::SenseEnv | Opcode::Attack => -1 <= d.x <= 1 && -1 <= d.y <= 1,
        Opcode::SenseNeighbor => 0 <= d.x < 8,
        Opcode::EmitSignal => 0 <= d.x < 10 && -100 <= d.y < 100,
        _ => true,
    }
}

/// Draws in range make an instruction of a generated shape.
pub proof fn lemma_drawn_generated(d: InstructionDraws)
    requires
        draws_in_range(d),
    ensures
        generated_instruction(drawn_instruction(d)),
{
}

/// The instruction made of the given draws.
pub fn instruction_from_draws(d: InstructionDraws) -> (r: Instruction)
    ensures
        r@ == drawn_instruction(d),
{
    let opcode = generated_opcode_or_last(d.opcode);
    let r = match opcode {
        Opcode::Add | Opcode::Sub | Opcode::Mul | Opcode::Div | Opcode::Mod | Opcode::Eq | Opcode::Ne
        | Opcode::Lt | Opcode::Le | Opcode::Gt | Opcode::Ge | Opcode::And | Opcode::Or | Opcode::Xor
        | Opcode::Min | Opcode::Max => Instruction::arithmetic(opcode, Register(d.dest), Register(d.a), Register(d.b)),
        Opcode::Not | Opcode::Neg | Opcode::Abs =>
            Instruction::new(opcode).with_operand(Operand::Register(Register(d.a))).with_dest(Register(d.dest)),
        Opcode::LoadConst => Instruction::load_const(Register(d.dest), Value::Int(d.x)),
        Opcode::GetEnergy | Opcode::GetAge | Opcode::Eat | Opcode::Reproduce =>
            Instruction::new(opcode).with_dest(Register(d.dest)),
        Opcode::Move => Instruction::new(opcode)
            .with_operand(Operand::Immediate(Value::Int(d.x)))
            .with_operand(Operand::Immediate(Value::Int(d.y))),
        Opcode::SenseEnv | Opcode::Attack => Instruction::new(opcode)
            .with_operand(Operand::Immediate(Value::Int(d.x)))
            .with_operand(Operand::Immediate(Value::Int(d.y)))
            .with_dest(Register(d.dest)),
        Opcode::SenseNeighbor => Instruction::new(opcode)
            .with_operand(Operand::Immediate(Value::Int(d.x)))
            .with_dest(Register(d.dest)),
        _ => Instruction::new(Opcode::EmitSignal)
            .with_operand(Operand::Immediate(Value::Int(d.x)))
            .with_operand(Operand::Immediate(Value::Int(d.y))),
    };
    assert(r@.operands =~= drawn_instruction(d).operands);
    r
}

/// Generated instructions carry no float.
pub proof fn lemma_generated_without_floats(i: InstructionModel)
    requires
        generated_instruction(i),
    ensures
        instruction_without_floats(i),
{
}

/// The decimal digits of a number, as `format!("{}", n)` writes them.
pub open spec fn decimal(n: nat) -> Seq<char>
    decreases n,
{
    let digit = (('0' as u8) + (n % 10) as u8) as char;
    if n < 10 { seq![digit] } else { decimal(n / 10).push(digit) }
}

/// The text of one decimal digit.
fn digit_text(d: u64) -> (r: &'static str)
    requires
        d < 10,
    ensures
        r@ == seq![(('0' as u8) + (d % 10) as u8) as char],
{
    proof {
        reveal_strlit("0");
        reveal_strlit("1");
        reveal_strlit("2");
        reveal_strlit("3");
        reveal_strlit("4");
        reveal_strlit("5");
        reveal_strlit("6");
        reveal_strlit("7");
        reveal_strlit("8");
        reveal_strlit("9");
    }
    let r = if d == 0 { "0" } else if d == 1 { "1" } else if d == 2 { "2" } else if d == 3 { "3" }
        else if d == 4 { "4" } else if d == 5 { "5" } else if d == 6 { "6" } else if d == 7 { "7" }
        else if d == 8 { "8" } else { "9" };
    assert(r@ =~= seq![(('0' as u8) + (d % 10) as u8) as char]);
    r
}

/// The decimal digits of a number (see `decimal`).
pub fn decimal_string(n: u64) -> (r: String)
    ensures
        r@ == decimal(n as nat),
    decreases n,
{
    if n < 10 {
        String::from_str(digit_text(n))
    } else {
        let head = decimal_string(n / 10);
        let r = head.concat(digit_text(n % 10));
        assert(r@ =~= decimal((n / 10) as nat).push((('0' as u8) + (n % 10) as u8) as char));
        r
    }
}

/// The name of a generated function: `func_` and the number in decimal.
pub fn function_name(n: u32) -> (r: String)
    ensures
        r@ == "func_"@ + decimal(n as nat),
{
    let digits = decimal_string(n as u64);
    String::from_str("func_").concat(digits.as_str())
}

/// Every block of every function is non-empty, and every function has a
/// block.
pub open spec fn blocks_all_nonempty(fs: Seq<FunctionModel>) -> bool {
    forall|i: int| 0 <= i < fs.len() ==> {
        &&& (#[trigger] fs[i]).blocks.len() > 0
        &&& forall|j: int| 0 <= j < fs[i].blocks.len() ==> (#[trigger] fs[i].blocks[j]).len() > 0
    }
}

/// `b` may come from `a` by `mutate_function`: same name, parameters and
/// return type; each block mutated in place, possibly one block appended
/// (a copy of a mutated block, only after a non-empty last block);
/// possibly one more local, within the limit.
pub open spec fn function_mutation_of(a: FunctionModel, b: FunctionModel, max_locals: usize, max_insts: usize) -> bool {
    &&& b.name == a.name
    &&& b.num_params == a.num_params
    &&& b.return_type == a.return_type
    &&& (b.num_locals == a.num_locals || (b.num_locals == a.num_locals + 1 && a.num_locals < max_locals))
    &&& (b.blocks.len() == a.blocks.len() || (b.blocks.len() == a.blocks.len() + 1 && a.blocks.len() > 0))
    &&& forall|j: int| 0 <= j < a.blocks.len() ==> block_mutation_of(#[trigger] a.blocks[j], b.blocks[j], max_insts)
    &&& (b.blocks.len() == a.blocks.len() + 1 ==> exists|j: int| 0 <= j < a.blocks.len() && b.blocks.last() == b.blocks[j])
    &&& (b.blocks.len() == a.blocks.len() + 1 ==> a.blocks.last().len() > 0)
}

/// `b` may come from `a` by `mutate_block`: empty blocks stay empty,
/// non-empty blocks stay non-empty, insertions only below the limit, every
/// instruction a point mutation of an old one or a generated one.
pub open spec fn block_mutation_of(a: Seq<InstructionModel>, b: Seq<InstructionModel>, max_insts: usize) -> bool {
    &&& (a.len() == 0 <==> b.len() == 0)
    &&& b.len() <= (if a.len() > max_insts { a.len() as int } else { max_insts as int })
    &&& forall|k: int| 0 <= k < b.len() ==>
        (#[trigger] generated_instruction(b[k]) || exists|m: int| 0 <= m < a.len() && point_mutation_of(a[m], b[k]))
}

/// A function as `generate_random_function` makes one: named `func_`
/// and a number, no parameters or locals, returning an integer, one block
/// of three to nineteen generated instructions and a return of register 0.
pub open spec fn generated_function(f: FunctionModel) -> bool {
    &&& exists|n: u32| f.name == "func_"@ + decimal(n as nat)
    &&& f.num_params == 0
    &&& f.num_locals == 0
    &&& f.return_type == crate::ir::program::ReturnType::Int
    &&& f.blocks.len() == 1
    &&& 4 <= f.blocks[0].len() <= 20
    &&& f.blocks[0].last() == (InstructionModel { opcode: Opcode::Return, dest: None, operands: seq![Operand::Register(Register(0))] })
    &&& forall|k: int| 0 <= k < f.blocks[0].len() - 1 ==> generated_instruction(#[trigger] f.blocks[0][k])
}

/// `b` may come from `a` by `mutate` under the configuration: no float
/// immediates, same memory size and version, every function mutated in
/// place, possibly one new function (below the function limit) with no
/// parameters and a single block of at least four instructions.
pub open spec fn program_mutation_of(a: ProgramModel, b: ProgramModel, c: MutationConfig) -> bool {
    &&& program_without_floats(b)
    &&& b.memory_size == a.memory_size
    &&& b.version == a.version
    &&& (b.functions.len() == a.functions.len()
        || (b.functions.len() == a.functions.len() + 1 && a.functions.len() < c.max_functions))
    &&& forall|i: int| 0 <= i < a.functions.len() ==> function_mutation_of(
        #[trigger] a.functions[i],
        b.functions[i],
        c.max_locals,
        c.max_instructions_per_function,
    )
    &&& b.functions.len() == a.functions.len() + 1 ==> {
        &&& b.functions.last().num_params == 0
        &&& b.functions.last().blocks.len() == 1
        &&& b.functions.last().blocks[0].len() >= 4
    }
}

/// The values drawn for the mutation of one operand: none (it is kept), a
/// register, a change of an integer, whether a boolean flips, or a block or
/// function index.
#[derive(Debug, Clone, Copy)]
pub enum OperandDraw {
    Keep,
    Reg(u8),
    Delta(i32),
    Flip(bool),
    Index(u32),
}

/// `v + d`, saturated to the `i32` range.
pub open spec fn saturating_sum(v: i32, d: i32) -> i32 {
    if v + d > i32::MAX {
        i32::MAX
    } else if v + d < i32::MIN {
        i32::MIN
    } else {
        (v + d) as i32
    }
}

/// The operand after a draw: a draw of the operand's own kind replaces a
/// register or an index, moves an integer (saturating) or flips a boolean;
/// any other draw keeps the operand.
pub open spec fn operand_after(o: Operand, d: OperandDraw) -> Operand {
    match (o, d) {
        (Operand::Register(_), OperandDraw::Reg(r)) => Operand::Register(Register(r)),
        (Operand::Immediate(Value::Int(v)), OperandDraw::Delta(x)) => Operand::Immediate(Value::Int(saturating_sum(v, x))),
        (Operand::Immediate(Value::Bool(b)), OperandDraw::Flip(f)) => Operand::Immediate(Value::Bool(if f { !b } else { b })),
        (Operand::BlockIndex(_), OperandDraw::Index(k)) => Operand::BlockIndex(k),
        (Operand::FunctionIndex(_), OperandDraw::Index(k)) => Operand::FunctionIndex(k),
        _ => o,
    }
}

/// The draw is one the generator makes for the operand: none, or one of
/// the operand's kind in range (registers below 16, changes in `-10..=10`,
/// indices below 8).
pub open spec fn operand_draw_fits(o: Operand, d: OperandDraw) -> bool {
    match d {
        OperandDraw::Keep => true,
        OperandDraw::Reg(r) => o is Register && r < 16,
        OperandDraw::Delta(x) => (o matches Operand::Immediate(Value::Int(_))) && -10 <= x <= 10,
        OperandDraw::Flip(_) => o matches Operand::Immediate(Value::Bool(_)),
        OperandDraw::Index(k) => (o is BlockIndex || o is FunctionIndex) && k < 8,
    }
}

/// The operand after a draw.
pub fn operand_from_draw(o: Operand, d: OperandDraw) -> (r: Operand)
    ensures
        r == operand_after(o, d),
{
    match (o, d) {
        (Operand::Register(_), OperandDraw::Reg(r)) => Operand::Register(Register(r)),
        (Operand::Immediate(Value::Int(v)), OperandDraw::Delta(x)) => {
            let nv = match v.checked_add(x) {
                Some(s) => s,
                None => if x > 0 { i32::MAX } else { i32::MIN },
            };
            Operand::Immediate(Value::Int(nv))
        },
        (Operand::Immediate(Value::Bool(b)), OperandDraw::Flip(f)) => Operand::Immediate(Value::Bool(if f { !b } else { b })),
        (Operand::BlockIndex(_), OperandDraw::Index(k)) => Operand::BlockIndex(k),
        (Operand::FunctionIndex(_), OperandDraw::Index(k)) => Operand::FunctionIndex(k),
        _ => o,
    }
}

/// A draw for an operand of the kind it is: a register below 16, a change
/// in `-10..=10`, a coin of one half for a boolean, an index below 8.
fn draw_operand(o: Operand, rng: &mut ChaCha8Rng) -> (d: OperandDraw)
    ensures
        !is_float_operand(o) ==> operand_draw_fits(o, d),
{
    match o {
        Operand::Register(_) => OperandDraw::Reg(gen_range_u8(rng, 0, 16)),
        Operand::Immediate(Value::Int(_)) => OperandDraw::Delta(gen_range_i32_inclusive(rng, -10, 10)),
        Operand::Immediate(Value::Bool(_)) => OperandDraw::Flip(chance(rng, HALF_CHANCE)),
        Operand::Immediate(Value::Float(_)) => OperandDraw::Keep,
        Operand::BlockIndex(_) | Operand::FunctionIndex(_) => OperandDraw::Index(gen_range_u32(rng, 0, 8)),
    }
}

/// The number of opcodes in an opcode's family (one outside every family).
pub open spec fn family_size(op: Opcode) -> int {
    let f = opcode_family(op);
    if f == 1 { 5 } else if f == 4 { 6 } else if f == 5 { 3 } else if f == 0 { 1 } else { 2 }
}

/// The `k`-th member of an opcode's family (the last one for a larger
/// `k`); an opcode outside every family stays.
pub open spec fn family_member(op: Opcode, k: int) -> Opcode {
    match op {
        Opcode::Add | Opcode::Sub | Opcode::Mul | Opcode::Div | Opcode::Mod =>
            if k == 0 { Opcode::Add } else if k == 1 { Opcode::Sub } else if k == 2 { Opcode::Mul }
            else if k == 3 { Opcode::Div } else { Opcode::Mod },
        Opcode::Neg | Opcode::Abs => if k == 0 { Opcode::Neg } else { Opcode::Abs },
        Opcode::Min | Opcode::Max => if k == 0 { Opcode::Min } else { Opcode::Max },
        Opcode::Eq | Opcode::Ne | Opcode::Lt | Opcode::Le | Opcode::Gt | Opcode::Ge =>
            if k == 0 { Opcode::Eq } else if k == 1 { Opcode::Ne } else if k == 2 { Opcode::Lt }
            else if k == 3 { Opcode::Le } else if k == 4 { Opcode::Gt } else { Opcode::Ge },
        Opcode::And | Opcode::Or | Opcode::Xor =>
            if k == 0 { Opcode::And } else if k == 1 { Opcode::Or } else { Opcode::Xor },
        Opcode::GetEnergy | Opcode::GetAge => if k == 0 { Opcode::GetEnergy } else { Opcode::GetAge },
        _ => op,
    }
}

/// The size of an opcode's family.
fn family_len(op: Opcode) -> (r: usize)
    ensures
        r == family_size(op),
{
    match op {
        Opcode::Add | Opcode::Sub | Opcode::Mul | Opcode::Div | Opcode::Mod => 5,
        Opcode::Neg | Opcode::Abs => 2,
        Opcode::Min | Opcode::Max => 2,
        Opcode::Eq | Opcode::Ne | Opcode::Lt | Opcode::Le | Opcode::Gt | Opcode::Ge => 6,
        Opcode::And | Opcode::Or | Opcode::Xor => 3,
        Opcode::GetEnergy | Opcode::GetAge => 2,
        _ => 1,
    }
}

/// The `k`-th member of an opcode's family.
pub fn opcode_from_draw(op: Opcode, k: usize) -> (r: Opcode)
    ensures
        r == family_member(op, k as int),
{
    match op {
        Opcode::Add | Opcode::Sub | Opcode::Mul | Opcode::Div | Opcode::Mod =>
            if k == 0 { Opcode::Add } else if k == 1 { Opcode::Sub } else if k == 2 { Opcode::Mul }
            else if k == 3 { Opcode::Div } else { Opcode::Mod },
        Opcode::Neg | Opcode::Abs => if k == 0 { Opcode::Neg } else { Opcode::Abs },
        Opcode::Min | Opcode::Max => if k == 0 { Opcode::Min } else { Opcode::Max },
        Opcode::Eq | Opcode::Ne | Opcode::Lt | Opcode::Le | Opcode::Gt | Opcode::Ge =>
            if k == 0 { Opcode::Eq } else if k == 1 { Opcode::Ne } else if k == 2 { Opcode::Lt }
            else if k == 3 { Opcode::Le } else if k == 4 { Opcode::Gt } else { Opcode::Ge },
        Opcode::And | Opcode::Or | Opcode::Xor =>
            if k == 0 { Opcode::And } else if k == 1 { Opcode::Or } else { Opcode::Xor },
        Opcode::GetEnergy | Opcode::GetAge => if k == 0 { Opcode::GetEnergy } else { Opcode::GetAge },
        _ => op,
    }
}

/// An instruction after a point mutation with the given draws: aspect 0
/// takes the `k`-th member of the opcode's family, aspect 1 applies the
/// operand draws in order (operands without a draw stay), aspect 2 sets the
/// destination register, if there is one, to `dest`; any other aspect
/// changes nothing.
pub open spec fn point_mutated(i: InstructionModel, aspect: int, k: int, ods: Seq<OperandDraw>, dest: u8) -> InstructionModel {
    if aspect == 0 {
        InstructionModel { opcode: family_member(i.opcode, k), ..i }
    } else if aspect == 1 {
        InstructionModel {
            operands: Seq::new(i.operands.len(), |j: int| if j < ods.len() { operand_after(i.operands[j], ods[j]) } else { i.operands[j] }),
            ..i
        }
    } else if aspect == 2 && i.dest is Some {
        InstructionModel { dest: Some(Register(dest)), ..i }
    } else {
        i
    }
}

/// The draws are ones `point_mutate` makes for the instruction: an aspect
/// below 3; for the opcode, a member index within its family; for the
/// operands, one fitting draw each; for the destination, a register below
/// 16.
pub open spec fn point_draws_fit(i: InstructionModel, aspect: int, k: int, ods: Seq<OperandDraw>, dest: u8) -> bool {
    &&& 0 <= aspect < 3
    &&& (aspect == 0 ==> 0 <= k < family_size(i.opcode))
    &&& (aspect == 1 ==> ods.len() == i.operands.len()
        && forall|j: int| 0 <= j < ods.len() ==> operand_draw_fits(i.operands[j], #[trigger] ods[j]))
    &&& (aspect == 2 ==> dest < 16)
}

/// A point mutation with fitting draws changes one aspect of the
/// instruction, as `point_mutation_of` and `one_aspect_mutation` allow, and
/// makes no float.
pub proof fn lemma_point_draws_mutation(i: InstructionModel, aspect: int, k: int, ods: Seq<OperandDraw>, dest: u8)
    requires
        point_draws_fit(i, aspect, k, ods, dest),
        instruction_without_floats(i),
    ensures
        point_mutation_of(i, point_mutated(i, aspect, k, ods, dest)),
        one_aspect_mutation(i, point_mutated(i, aspect, k, ods, dest)),
        instruction_without_floats(point_mutated(i, aspect, k, ods, dest)),
{
    let r = point_mutated(i, aspect, k, ods, dest);
    if aspect == 1 {
        assert forall|j: int| 0 <= j < i.operands.len() implies
            (#[trigger] r.operands[j] == i.operands[j] || operand_mutation_of(i.operands[j], r.operands[j]))
            && !is_float_operand(r.operands[j]) by {
            assert(operand_draw_fits(i.operands[j], ods[j]));
            assert(!is_float_operand(i.operands[j]));
        }
    }
}

/// Apply a point mutation with the given draws (see `point_mutated`).
pub fn point_mutate_with(inst: &mut Instruction, aspect: i32, k: usize, operand_draws: &Vec<OperandDraw>, dest: u8)
    ensures
        final(inst)@ == point_mutated(old(inst)@, aspect as int, k as int, operand_draws@, dest),
{
    let ghost before = inst@;
    if aspect == 0 {
        inst.opcode = opcode_from_draw(inst.opcode, k);
        assert(inst@.operands == before.operands);
    } else if aspect == 1 {
        let n = inst.operands.len();
        let mut j: usize = 0;
        while j < n
            invariant
                n == before.operands.len(),
                j <= n,
                inst@.opcode == before.opcode,
                inst@.dest == before.dest,
                inst@.operands.len() == n,
                forall|m: int| 0 <= m < n ==> #[trigger] inst@.operands[m] == (if m < j && m < operand_draws@.len() {
                    operand_after(before.operands[m], operand_draws@[m])
                } else {
                    before.operands[m]
                }),
            decreases n - j,
        {
            if j < operand_draws.len() {
                let ghost prev = inst@;
                let o = operand_from_draw(inst.operands[j], operand_draws[j]);
                inst.operands.set(j, o);
                assert(inst@.operands =~= prev.operands.update(j as int, o));
            }
            j += 1;
        }
        assert(inst@.operands =~= point_mutated(before, aspect as int, k as int, operand_draws@, dest).operands);
    } else if aspect == 2 {
        if inst.dest.is_some() {
            inst.dest = Some(Register(dest));
        }
        assert(inst@.operands == before.operands);
    }
}

/// What a point mutation draws: the aspect, the member index for an
/// opcode, one draw per operand and the destination register (see
/// `point_mutated`).
#[derive(Debug)]
pub struct PointDraws {
    pub aspect: i32,
    pub opcode: usize,
    pub operands: Vec<OperandDraw>,
    pub dest: u8,
}

impl View for PointDraws {
    type V = (i32, usize, Seq<OperandDraw>, u8);

    open spec fn view(&self) -> (i32, usize, Seq<OperandDraw>, u8) {
        (self.aspect, self.opcode, self.operands@, self.dest)
    }
}

/// What one step of the walk through a block draws: the point mutation,
/// when its chance came; whether the deletion chance came; the new
/// instruction, when the insertion chance came with room for it.
#[derive(Debug)]
pub struct StepDraws {
    pub point: Option<PointDraws>,
    pub delete: bool,
    pub insert: Option<InstructionDraws>,
}

impl View for StepDraws {
    type V = (Option<(i32, usize, Seq<OperandDraw>, u8)>, bool, Option<InstructionDraws>);

    open spec fn view(&self) -> (Option<(i32, usize, Seq<OperandDraw>, u8)>, bool, Option<InstructionDraws>) {
        (match self.point { Some(p) => Some(p@), None => None }, self.delete, self.insert)
    }
}

/// The views of a list of step draws.
pub open spec fn steps_view(steps: Seq<StepDraws>) -> Seq<(Option<(i32, usize, Seq<OperandDraw>, u8)>, bool, Option<InstructionDraws>)> {
    steps.map_values(|s: StepDraws| s@)
}

/// The block after the point mutation of a step, if it drew one, of the
/// instruction at `i`.
pub open spec fn point_step(b: Seq<InstructionModel>, i: int, p: Option<(i32, usize, Seq<OperandDraw>, u8)>) -> Seq<InstructionModel> {
    match p {
        Some(q) => b.update(i, point_mutated(b[i], q.0 as int, q.1 as int, q.2, q.3)),
        None => b,
    }
}

/// One step of the walk at instruction `i`, with its draws: the point
/// mutation; then, if the deletion chance came and more than one
/// instruction is left, the instruction goes and the walk stays at `i`;
/// else, if a new instruction was drawn and the block is below `max`, it
/// goes before the instruction and the walk moves past both; else the walk
/// moves to the next instruction. The block and the next index.
pub open spec fn walk_step(
    b: Seq<InstructionModel>,
    i: int,
    s: (Option<(i32, usize, Seq<OperandDraw>, u8)>, bool, Option<InstructionDraws>),
    max: usize,
) -> (Seq<InstructionModel>, int) {
    let b1 = point_step(b, i, s.0);
    if s.1 && b1.len() > 1 {
        (b1.remove(i), i)
    } else if s.2 is Some && b1.len() < max {
        (b1.insert(i, drawn_instruction(s.2->0)), i + 2)
    } else {
        (b1, i + 1)
    }
}

/// The walk through a block with the given step draws, in order, from the
/// first instruction; steps after the walk passed the end change nothing.
/// The block and the index reached.
pub open spec fn walk_steps(
    b: Seq<InstructionModel>,
    steps: Seq<(Option<(i32, usize, Seq<OperandDraw>, u8)>, bool, Option<InstructionDraws>)>,
    max: usize,
) -> (Seq<InstructionModel>, int)
    decreases steps.len(),
{
    if steps.len() == 0 {
        (b, 0)
    } else {
        let prev = walk_steps(b, steps.drop_last(), max);
        if 0 <= prev.1 < prev.0.len() {
            walk_step(prev.0, prev.1, steps.last(), max)
        } else {
            prev
        }
    }
}

/// What the mutation of a function draws: the steps of the walk through
/// each block, the block copied when the duplication chance came (and the
/// last block was not empty), and whether the chance of a new local came.
#[derive(Debug)]
pub struct FunctionDraws {
    pub blocks: Vec<Vec<StepDraws>>,
    pub duplicate: Option<usize>,
    pub add_local: bool,
}

impl View for FunctionDraws {
    type V = (Seq<Seq<(Option<(i32, usize, Seq<OperandDraw>, u8)>, bool, Option<InstructionDraws>)>>, Option<usize>, bool);

    open spec fn view(&self) -> (Seq<Seq<(Option<(i32, usize, Seq<OperandDraw>, u8)>, bool, Option<InstructionDraws>)>>, Option<usize>, bool) {
        (self.blocks@.map_values(|v: Vec<StepDraws>| steps_view(v@)), self.duplicate, self.add_local)
    }
}

/// The blocks of a function after the walks with the given draws (blocks
/// without draws stay).
pub open spec fn walked_blocks(
    bs: Seq<Seq<InstructionModel>>,
    d: Seq<Seq<(Option<(i32, usize, Seq<OperandDraw>, u8)>, bool, Option<InstructionDraws>)>>,
    max: usize,
) -> Seq<Seq<InstructionModel>> {
    Seq::new(bs.len(), |j: int| if j < d.len() { walk_steps(bs[j], d[j], max).0 } else { bs[j] })
}

/// A function after its mutation with the given draws: each block walked;
/// then, for a drawn duplication of block `k` below the number of blocks,
/// when the last block is not empty, a copy of block `k` appended; then,
/// for a drawn new local, one more local below the limit.
pub open spec fn function_with(
    f: FunctionModel,
    d: (Seq<Seq<(Option<(i32, usize, Seq<OperandDraw>, u8)>, bool, Option<InstructionDraws>)>>, Option<usize>, bool),
    c: MutationConfig,
) -> FunctionModel {
    let walked = walked_blocks(f.blocks, d.0, c.max_instructions_per_function);
    let n = walked.len();
    let blocks = match d.1 {
        Some(k) => if 0 < n && walked[n - 1].len() > 0 && k < n { walked.push(walked[k as int]) } else { walked },
        None => walked,
    };
    FunctionModel {
        blocks,
        num_locals: if d.2 && f.num_locals < c.max_locals { (f.num_locals + 1) as usize } else { f.num_locals },
        ..f
    }
}

/// The instruction that ends a generated function: return register 0.
pub open spec fn return_r0() -> InstructionModel {
    InstructionModel { opcode: Opcode::Return, dest: None, operands: seq![Operand::Register(Register(0))] }
}

/// The function generated from a number and instruction draws: named
/// `func_` and the number, no parameters or locals, returning an integer,
/// one block of the drawn instructions and `return r0`.
pub open spec fn new_function_model(n: u32, ds: Seq<InstructionDraws>) -> FunctionModel {
    FunctionModel {
        name: "func_"@ + decimal(n as nat),
        num_params: 0,
        num_locals: 0,
        blocks: seq![ds.map_values(|d: InstructionDraws| drawn_instruction(d)).push(return_r0())],
        return_type: crate::ir::program::ReturnType::Int,
    }
}

/// What a new function draws: its number and its instructions.
#[derive(Debug)]
pub struct NewFunctionDraws {
    pub number: u32,
    pub instructions: Vec<InstructionDraws>,
}

/// What the mutation of a program draws: those of each function, and the
/// new function when the chance of one came below the function limit.
#[derive(Debug)]
pub struct ProgramDraws {
    pub functions: Vec<FunctionDraws>,
    pub new_function: Option<NewFunctionDraws>,
}

impl View for ProgramDraws {
    type V = (
        Seq<(Seq<Seq<(Option<(i32, usize, Seq<OperandDraw>, u8)>, bool, Option<InstructionDraws>)>>, Option<usize>, bool)>,
        Option<(u32, Seq<InstructionDraws>)>,
    );

    open spec fn view(&self) -> Self::V {
        (
            self.functions@.map_values(|f: FunctionDraws| f@),
            match self.new_function { Some(nf) => Some((nf.number, nf.instructions@)), None => None },
        )
    }
}

/// A program after its mutation with the given draws: each function
/// mutated with its draws (functions without draws stay), then, for drawn
/// new-function values, below the function limit, that function appended.
pub open spec fn program_with(
    p: ProgramModel,
    d: (
        Seq<(Seq<Seq<(Option<(i32, usize, Seq<OperandDraw>, u8)>, bool, Option<InstructionDraws>)>>, Option<usize>, bool)>,
        Option<(u32, Seq<InstructionDraws>)>,
    ),
    c: MutationConfig,
) -> ProgramModel {
    let fs = Seq::new(p.functions.len(), |i: int| if i < d.0.len() { function_with(p.functions[i], d.0[i], c) } else { p.functions[i] });
    ProgramModel {
        functions: match d.1 {
            Some(nf) => if fs.len() < c.max_functions { fs.push(new_function_model(nf.0, nf.1)) } else { fs },
            None => fs,
        },
        ..p
    }
}

/// The function made of a number and instruction draws (see
/// `new_function_model`).
pub fn function_from_draws(n: u32, draws: &Vec<InstructionDraws>) -> (r: Function)
    requires
        draws@.len() < usize::MAX,
    ensures
        r@ == new_function_model(n, draws@),
{
    let name = function_name(n);
    let mut block = BasicBlock::new();
    let mut k: usize = 0;
    while k < draws.len()
        invariant
            k <= draws@.len(),
            block@ == draws@.take(k as int).map_values(|d: InstructionDraws| drawn_instruction(d)),
        decreases draws@.len() - k,
    {
        block.add_instruction(instruction_from_draws(draws[k]));
        k += 1;
        assert(block@ =~= draws@.take(k as int).map_values(|d: InstructionDraws| drawn_instruction(d)));
    }
    block.add_instruction(Instruction::return_value(Register(0)));
    let mut func = Function::new(name, 0, crate::ir::program::ReturnType::Int);
    assert(func.blocks@.len() == func@.blocks.len());
    func.blocks.set(0, block);
    proof {
        assert(draws@.take(k as int) =~= draws@);
        assert(block@.last() == return_r0());
        assert(block@ =~= draws@.map_values(|d: InstructionDraws| drawn_instruction(d)).push(return_r0()));
        assert(func@.blocks =~= seq![block@]);
    }
    func
}

/// A chance that always comes: a threshold of all 2^24 draws.
pub open spec fn certain(rate: u32) -> bool {
    rate >= 0x100_0000
}

/// One step's draws follow the settings' chances at block `b`: a chance of
/// zero never comes and a certain chance always does; the point mutation
/// by `point_mutation_rate`, the deletion by `deletion_rate`, the new
/// instruction by `insertion_rate` (drawn when the deletion did not take
/// place and the block is below the limit).
pub open spec fn step_follows_rates(
    b: Seq<InstructionModel>,
    s: (Option<(i32, usize, Seq<OperandDraw>, u8)>, bool, Option<InstructionDraws>),
    c: MutationConfig,
) -> bool {
    &&& (c.point_mutation_rate == 0 ==> s.0 is None)
    &&& (certain(c.point_mutation_rate) ==> s.0 is Some)
    &&& (c.deletion_rate == 0 ==> !s.1)
    &&& (certain(c.deletion_rate) ==> s.1)
    &&& (c.insertion_rate == 0 ==> s.2 is None)
    &&& (certain(c.insertion_rate) && !(s.1 && b.len() > 1) && b.len() < c.max_instructions_per_function ==> s.2 is Some)
}

/// Every step of a walk through `b` follows the settings' chances at the
/// block it meets.
pub open spec fn steps_follow_rates(
    b: Seq<InstructionModel>,
    steps: Seq<(Option<(i32, usize, Seq<OperandDraw>, u8)>, bool, Option<InstructionDraws>)>,
    c: MutationConfig,
) -> bool {
    forall|n: int| 0 <= n < steps.len() ==> {
        let prev = walk_steps(b, steps.take(n), c.max_instructions_per_function);
        0 <= prev.1 < prev.0.len() ==> step_follows_rates(prev.0, #[trigger] steps[n], c)
    }
}

/// `result` is what a complete walk through `b` gives with steps that
/// follow the settings' chances.
pub open spec fn rated_walk(
    b: Seq<InstructionModel>,
    steps: Seq<(Option<(i32, usize, Seq<OperandDraw>, u8)>, bool, Option<InstructionDraws>)>,
    c: MutationConfig,
    result: Seq<InstructionModel>,
) -> bool {
    let r = walk_steps(b, steps, c.max_instructions_per_function);
    &&& result == r.0
    &&& r.1 >= r.0.len()
    &&& steps_follow_rates(b, steps, c)
}

/// What the chances of the settings fix about a block's mutation: without
/// insertions it does not grow; without insertions or deletions it keeps
/// its length; with certain deletion and no insertions a non-empty block
/// keeps one instruction; without any change chance it stays as it was.
pub open spec fn block_follows_rates(a: Seq<InstructionModel>, b: Seq<InstructionModel>, c: MutationConfig) -> bool {
    &&& (c.insertion_rate == 0 ==> b.len() <= a.len())
    &&& (c.deletion_rate == 0 && c.insertion_rate == 0 ==> b.len() == a.len())
    &&& (certain(c.deletion_rate) && c.insertion_rate == 0 && a.len() > 0 ==> b.len() == 1)
    &&& (c.point_mutation_rate == 0 && c.deletion_rate == 0 && c.insertion_rate == 0 ==> b == a)
}

/// A step that follows the chances at the block the walk has reached
/// extends a walk that follows them.
proof fn lemma_follow_push(
    b: Seq<InstructionModel>,
    steps: Seq<(Option<(i32, usize, Seq<OperandDraw>, u8)>, bool, Option<InstructionDraws>)>,
    st: (Option<(i32, usize, Seq<OperandDraw>, u8)>, bool, Option<InstructionDraws>),
    c: MutationConfig,
)
    requires
        steps_follow_rates(b, steps, c),
        ({
            let prev = walk_steps(b, steps, c.max_instructions_per_function);
            0 <= prev.1 < prev.0.len() ==> step_follows_rates(prev.0, st, c)
        }),
    ensures
        steps_follow_rates(b, steps.push(st), c),
{
    let s2 = steps.push(st);
    assert forall|n: int| 0 <= n < s2.len() implies {
        let prev = walk_steps(b, s2.take(n), c.max_instructions_per_function);
        0 <= prev.1 < prev.0.len() ==> step_follows_rates(prev.0, #[trigger] s2[n], c)
    } by {
        if n < steps.len() {
            assert(s2.take(n) =~= steps.take(n));
            assert(s2[n] == steps[n]);
        } else {
            assert(s2.take(n) =~= steps);
        }
    }
}

/// The first steps of a walk that follows the chances follow them.
proof fn lemma_follow_prefix(
    b: Seq<InstructionModel>,
    steps: Seq<(Option<(i32, usize, Seq<OperandDraw>, u8)>, bool, Option<InstructionDraws>)>,
    c: MutationConfig,
)
    requires
        steps_follow_rates(b, steps, c),
        steps.len() > 0,
    ensures
        steps_follow_rates(b, steps.drop_last(), c),
        ({
            let prev = walk_steps(b, steps.drop_last(), c.max_instructions_per_function);
            0 <= prev.1 < prev.0.len() ==> step_follows_rates(prev.0, steps.last(), c)
        }),
{
    let s1 = steps.drop_last();
    assert forall|n: int| 0 <= n < s1.len() implies {
        let prev = walk_steps(b, s1.take(n), c.max_instructions_per_function);
        0 <= prev.1 < prev.0.len() ==> step_follows_rates(prev.0, #[trigger] s1[n], c)
    } by {
        assert(s1.take(n) =~= steps.take(n));
        assert(s1[n] == steps[n]);
    }
    assert(steps.take(steps.len() - 1) =~= s1);
    assert(steps[steps.len() - 1] == steps.last());
}

/// Without insertions a walk never lengthens the block: with an insertion
/// chance of zero, a walk that follows the chances ends with at most as
/// many instructions as it started with, and never passes further than one
/// past the end.
pub proof fn lemma_walk_without_insertions(
    b: Seq<InstructionModel>,
    steps: Seq<(Option<(i32, usize, Seq<OperandDraw>, u8)>, bool, Option<InstructionDraws>)>,
    c: MutationConfig,
)
    requires
        steps_follow_rates(b, steps, c),
        c.insertion_rate == 0,
    ensures
        walk_steps(b, steps, c.max_instructions_per_function).0.len() <= b.len(),
        0 <= walk_steps(b, steps, c.max_instructions_per_function).1 <= walk_steps(b, steps, c.max_instructions_per_function).0.len(),
        c.deletion_rate == 0 ==> walk_steps(b, steps, c.max_instructions_per_function).0.len() == b.len(),
    decreases steps.len(),
{
    if steps.len() > 0 {
        lemma_follow_prefix(b, steps, c);
        lemma_walk_without_insertions(b, steps.drop_last(), c);
    }
}

/// Certain deletion empties a block down to one instruction: with a
/// certain deletion chance and no insertions, a walk that follows the
/// chances through a non-empty block deletes at the first instruction
/// while more than one is left, then passes the last one; the block keeps
/// at least one instruction throughout.
pub proof fn lemma_walk_certain_deletion(
    b: Seq<InstructionModel>,
    steps: Seq<(Option<(i32, usize, Seq<OperandDraw>, u8)>, bool, Option<InstructionDraws>)>,
    c: MutationConfig,
)
    requires
        steps_follow_rates(b, steps, c),
        certain(c.deletion_rate),
        c.insertion_rate == 0,
        b.len() > 0,
    ensures
        ({
            let r = walk_steps(b, steps, c.max_instructions_per_function);
            (r.1 == 0 && r.0.len() >= 1) || (r.1 == 1 && r.0.len() == 1)
        }),
    decreases steps.len(),
{
    if steps.len() > 0 {
        lemma_follow_prefix(b, steps, c);
        lemma_walk_certain_deletion(b, steps.drop_last(), c);
    }
}

/// With no chance of a point mutation, a deletion or an insertion, a walk
/// leaves the block as it was.
pub proof fn lemma_walk_without_changes(
    b: Seq<InstructionModel>,
    steps: Seq<(Option<(i32, usize, Seq<OperandDraw>, u8)>, bool, Option<InstructionDraws>)>,
    c: MutationConfig,
)
    requires
        steps_follow_rates(b, steps, c),
        c.point_mutation_rate == 0,
        c.deletion_rate == 0,
        c.insertion_rate == 0,
    ensures
        walk_steps(b, steps, c.max_instructions_per_function).0 == b,
        0 <= walk_steps(b, steps, c.max_instructions_per_function).1,
    decreases steps.len(),
{
    if steps.len() > 0 {
        lemma_follow_prefix(b, steps, c);
        lemma_walk_without_changes(b, steps.drop_last(), c);
    }
}

impl Mutator {
    pub fn new(config: MutationConfig) -> (r: Mutator)
        ensures
            r.config == config,
    {
        Mutator { config }
    }

    /// Mutate a program in place: every function is mutated, then a new
    /// random function may be added below the function limit. Names are
    /// kept and only a function's last block may be empty, so a valid
    /// program stays valid.
    pub fn mutate(&self, program: &mut Program, rng: &mut ChaCha8Rng)
        requires
            program_without_floats(old(program)@),
            old(program).functions@.len() < usize::MAX,
        ensures
            program_mutation_of(old(program)@, final(program)@, self.config),
            spec_validate(old(program)@.functions) is Ok ==> spec_validate(final(program)@.functions) is Ok,
            spec_validate(old(program)@.functions) is Ok && blocks_all_nonempty(old(program)@.functions)
                ==> blocks_all_nonempty(final(program)@.functions),
            final(program)@.functions.len() == old(program)@.functions.len() + 1
                ==> generated_function(final(program)@.functions.last()),
            forall|k: int, j: int| 0 <= k < old(program)@.functions.len() && 0 <= j < old(program)@.functions[k].blocks.len()
                ==> block_walk(#[trigger] old(program)@.functions[k].blocks[j], final(program)@.functions[k].blocks[j]),
            exists|d: (
                Seq<(Seq<Seq<(Option<(i32, usize, Seq<OperandDraw>, u8)>, bool, Option<InstructionDraws>)>>, Option<usize>, bool)>,
                Option<(u32, Seq<InstructionDraws>)>,
            )| final(program)@ == #[trigger] program_with(old(program)@, d, self.config),
            forall|k: int, j: int| 0 <= k < old(program)@.functions.len() && 0 <= j < old(program)@.functions[k].blocks.len()
                ==> block_follows_rates(#[trigger] old(program)@.functions[k].blocks[j], final(program)@.functions[k].blocks[j], self.config),
            forall|k: int| 0 <= k < old(program)@.functions.len() && self.config.block_duplication_rate == 0
                ==> (#[trigger] final(program)@.functions[k]).blocks.len() == old(program)@.functions[k].blocks.len(),
            self.config.function_addition_rate == 0 ==> final(program)@.functions.len() == old(program)@.functions.len(),
            certain(self.config.function_addition_rate) && old(program)@.functions.len() < self.config.max_functions
                ==> final(program)@.functions.len() == old(program)@.functions.len() + 1,
    {
        let ghost before = program@;
        let n = program.functions.len();
        let mut i: usize = 0;
        // The draws of the functions mutated so far.
        let ghost mut fd: Seq<(Seq<Seq<(Option<(i32, usize, Seq<OperandDraw>, u8)>, bool, Option<InstructionDraws>)>>, Option<usize>, bool)> = Seq::empty();
        while i < n
            invariant
                fd.len() == i,
                forall|k: int, j: int| 0 <= k < i && 0 <= j < before.functions[k].blocks.len()
                    ==> block_follows_rates(#[trigger] before.functions[k].blocks[j], program@.functions[k].blocks[j], self.config),
                forall|k: int| 0 <= k < i && self.config.block_duplication_rate == 0
                    ==> (#[trigger] program@.functions[k]).blocks.len() == before.functions[k].blocks.len(),
                forall|k: int| 0 <= k < i ==> #[trigger] program@.functions[k] == function_with(before.functions[k], fd[k], self.config),
                n == before.functions.len(),
                program.functions@.len() == n,
                i <= n,
                program@.memory_size == before.memory_size,
                program@.version == before.version,
                forall|k: int| 0 <= k < i ==> function_mutation_of(
                    #[trigger] before.functions[k],
                    program@.functions[k],
                    self.config.max_locals,
                    self.config.max_instructions_per_function,
                ),
                forall|k: int| i <= k < n ==> #[trigger] program@.functions[k] == before.functions[k],
                forall|k: int, j: int| 0 <= k < i && 0 <= j < before.functions[k].blocks.len()
                    ==> block_walk(#[trigger] before.functions[k].blocks[j], program@.functions[k].blocks[j]),
                forall|k: int| 0 <= k < n ==> function_without_floats(#[trigger] program@.functions[k]),
                program_without_floats(before),
            decreases n - i,
        {
            let ghost prev = program@;
            let mut func = Function::new(String::new(), 0, crate::ir::program::ReturnType::Void);
            std::mem::swap(&mut func, &mut program.functions[i]);
            assert(func@ == prev.functions[i as int]);
            self.mutate_function(&mut func, rng);
            proof {
                let d = choose|d: (Seq<Seq<(Option<(i32, usize, Seq<OperandDraw>, u8)>, bool, Option<InstructionDraws>)>>, Option<usize>, bool)|
                    func@ == #[trigger] function_with(prev.functions[i as int], d, self.config);
                fd = fd.push(d);
            }
            std::mem::swap(&mut func, &mut program.functions[i]);
            proof {
                assert forall|k: int| 0 <= k < n implies #[trigger] program@.functions[k] == (if k == i { program.functions@[k]@ } else { prev.functions[k] }) by {
                    assert(program@.functions[k] == program.functions@[k]@);
                }
            }
            i += 1;
        }

        let ghost mutated = program@;
        let ghost mut newd: Option<(u32, Seq<InstructionDraws>)> = None;
        let ghost fs = Seq::new(before.functions.len(), |k: int| if k < fd.len() { function_with(before.functions[k], fd[k], self.config) } else { before.functions[k] });
        assert(mutated.functions =~= fs);

        // Maybe add a new function
        let add = chance(rng, self.config.function_addition_rate);
        if add && program.functions.len() < self.config.max_functions {
            let new_func = self.generate_random_function(rng);
            let ghost nf = new_func@;
            program.add_function(new_func);
            assert(program@.functions.last() == nf);
            assert(generated_function(nf));
            proof {
                let (m, ds) = choose|m: u32, ds: Seq<InstructionDraws>| nf == #[trigger] new_function_model(m, ds);
                newd = Some((m, ds));
            }
        }
        proof {
            assert(program_with(before, (fd, newd), self.config).functions =~= program@.functions);
            assert(program@ == program_with(before, (fd, newd), self.config));
            lemma_mutated_program_valid(before, program@, self.config.max_locals, self.config.max_instructions_per_function);
        }
    }

    /// Mutate every block of a function, then maybe duplicate a block (when
    /// the last block is not empty) and maybe add a local variable.
    #[verifier::spinoff_prover]
    fn mutate_function(&self, func: &mut Function, rng: &mut ChaCha8Rng)
        requires
            function_without_floats(old(func)@),
        ensures
            function_without_floats(final(func)@),
            function_mutation_of(old(func)@, final(func)@, self.config.max_locals, self.config.max_instructions_per_function),
            forall|j: int| 0 <= j < old(func)@.blocks.len() ==> block_walk(#[trigger] old(func)@.blocks[j], final(func)@.blocks[j]),
            exists|d: (Seq<Seq<(Option<(i32, usize, Seq<OperandDraw>, u8)>, bool, Option<InstructionDraws>)>>, Option<usize>, bool)|
                final(func)@ == #[trigger] function_with(old(func)@, d, self.config),
            forall|j: int| 0 <= j < old(func)@.blocks.len()
                ==> block_follows_rates(#[trigger] old(func)@.blocks[j], final(func)@.blocks[j], self.config),
            self.config.block_duplication_rate == 0 ==> final(func)@.blocks.len() == old(func)@.blocks.len(),
            certain(self.config.block_duplication_rate) && old(func)@.blocks.len() > 0 && old(func)@.blocks.last().len() > 0
                ==> final(func)@.blocks.len() == old(func)@.blocks.len() + 1,
    {
        let ghost before = func@;
        let n = func.blocks.len();
        let mut i: usize = 0;
        // The draws of the walks so far.
        let ghost mut bd: Seq<Seq<(Option<(i32, usize, Seq<OperandDraw>, u8)>, bool, Option<InstructionDraws>)>> = Seq::empty();
        while i < n
            invariant
                bd.len() == i,
                forall|k: int| 0 <= k < i ==> block_follows_rates(#[trigger] before.blocks[k], func@.blocks[k], self.config),
                forall|k: int| 0 <= k < i ==> #[trigger] func@.blocks[k] == walk_steps(before.blocks[k], bd[k], self.config.max_instructions_per_function).0,
                n == before.blocks.len(),
                func.blocks@.len() == n,
                i <= n,
                func@.name == before.name,
                func@.num_params == before.num_params,
                func@.num_locals == before.num_locals,
                func@.return_type == before.return_type,
                forall|k: int| 0 <= k < i ==> block_mutation_of(
                    #[trigger] before.blocks[k],
                    func@.blocks[k],
                    self.config.max_instructions_per_function,
                ),
                forall|k: int| 0 <= k < n ==> block_without_floats(#[trigger] func@.blocks[k]),
                forall|k: int| 0 <= k < i ==> block_walk(#[trigger] before.blocks[k], func@.blocks[k]),
                forall|k: int| i <= k < n ==> #[trigger] func@.blocks[k] == before.blocks[k],
            decreases n - i,
        {
            let ghost prev = func@;
            let mut block = BasicBlock::new();
            std::mem::swap(&mut block, &mut func.blocks[i]);
            assert(block@ == prev.blocks[i as int]);
            self.mutate_block(&mut block, rng);
            proof {
                let st = choose|st: Seq<(Option<(i32, usize, Seq<OperandDraw>, u8)>, bool, Option<InstructionDraws>)>|
                    block@ == #[trigger] walk_steps(prev.blocks[i as int], st, self.config.max_instructions_per_function).0;
                bd = bd.push(st);
            }
            std::mem::swap(&mut block, &mut func.blocks[i]);
            proof {
                assert forall|k: int| 0 <= k < n implies #[trigger] func@.blocks[k] == (if k == i { func.blocks@[k]@ } else { prev.blocks[k] }) by {
                    assert(func@.blocks[k] == func.blocks@[k]@);
                }
            }
            i += 1;
        }
        let ghost after_blocks = func@;
        let ghost mut dup_src: int = 0;
        let ghost mut dupd: Option<usize> = None;
        assert(after_blocks.blocks =~= walked_blocks(before.blocks, bd, self.config.max_instructions_per_function));
        assert(forall|k: int| 0 <= k < n ==> block_without_floats(#[trigger] after_blocks.blocks[k]));

        // Maybe add a new block: a copy of a random block. An empty last
        // block stays last, so that only the last block may be empty.
        let dup = chance(rng, self.config.block_duplication_rate);
        if dup && n > 0 && !func.blocks[n - 1].is_empty() {
            let block_to_dup = gen_range_usize(rng, 0, func.blocks.len());
            let new_block = func.blocks[block_to_dup].clone();
            assert(new_block@ == after_blocks.blocks[block_to_dup as int]);
            func.blocks.push(new_block);
            proof {
                assert(func@.blocks =~= after_blocks.blocks.push(new_block@));
                assert(func@.blocks.last() == func@.blocks[block_to_dup as int]);
                dup_src = block_to_dup as int;
                dupd = Some(block_to_dup);
            }
        }
        assert(func@.blocks.len() == n || func@.blocks.len() == n + 1);
        assert(forall|k: int| 0 <= k < n ==> #[trigger] func@.blocks[k] == after_blocks.blocks[k]);
        assert(func@.blocks.len() == n + 1 ==> 0 <= dup_src < n && func@.blocks[n as int] == after_blocks.blocks[dup_src]);

        // Maybe add a new local variable
        let add_local = chance(rng, NEW_LOCAL_CHANCE);
        if add_local && func.num_locals < self.config.max_locals {
            func.num_locals += 1;
        }
        proof {
            assert(func@ == function_with(before, (bd, dupd, add_local), self.config));
            assert forall|k: int| 0 <= k < func@.blocks.len() implies block_without_floats(#[trigger] func@.blocks[k]) by {
                if k < n {
                    assert(func@.blocks[k] == after_blocks.blocks[k]);
                } else {
                    assert(func@.blocks[k] == after_blocks.blocks[dup_src]);
                }
            }
        }
    }

    /// Walk the block: each instruction may be point-mutated, then deleted
    /// (never the last one left), then preceded by a new random
    /// instruction (below the instruction limit).
    #[verifier::spinoff_prover]
    #[verifier::rlimit(100)]
    fn mutate_block(&self, block: &mut BasicBlock, rng: &mut ChaCha8Rng)
        requires
            block_without_floats(old(block)@),
        ensures
            block_without_floats(final(block)@),
            block_mutation_of(old(block)@, final(block)@, self.config.max_instructions_per_function),
            block_walk(old(block)@, final(block)@),
            exists|steps: Seq<(Option<(i32, usize, Seq<OperandDraw>, u8)>, bool, Option<InstructionDraws>)>|
                final(block)@ == #[trigger] walk_steps(old(block)@, steps, self.config.max_instructions_per_function).0,
            exists|steps: Seq<(Option<(i32, usize, Seq<OperandDraw>, u8)>, bool, Option<InstructionDraws>)>|
                #[trigger] rated_walk(old(block)@, steps, self.config, final(block)@),
            self.config.insertion_rate == 0 ==> final(block)@.len() <= old(block)@.len(),
            self.config.deletion_rate == 0 && self.config.insertion_rate == 0 ==> final(block)@.len() == old(block)@.len(),
            certain(self.config.deletion_rate) && self.config.insertion_rate == 0 && old(block)@.len() > 0
                ==> final(block)@.len() == 1,
            self.config.point_mutation_rate == 0 && self.config.deletion_rate == 0 && self.config.insertion_rate == 0
                ==> final(block)@ == old(block)@,
            block_follows_rates(old(block)@, final(block)@, self.config),
    {
        let ghost before = block@;
        let max = self.config.max_instructions_per_function;
        let mut i: usize = 0;
        // `j` counts the old instructions already walked: the rest of the
        // block from `i` on is the rest of the old block from `j` on.
        let ghost mut j: int = 0;
        // The draws of the steps taken so far.
        let ghost mut steps: Seq<(Option<(i32, usize, Seq<OperandDraw>, u8)>, bool, Option<InstructionDraws>)> = Seq::empty();
        while i < block.instructions.len()
            invariant
                (block@, i as int) == walk_steps(before, steps, max),
                steps_follow_rates(before, steps, self.config),
                i <= block@.len(),
                0 <= j <= before.len(),
                before.len() == 0 <==> block@.len() == 0,
                block@.len() <= (if before.len() > max { before.len() as int } else { max as int }),
                max == self.config.max_instructions_per_function,
                block_without_floats(before),
                block_without_floats(block@),
                block@.subrange(i as int, block@.len() as int) == before.subrange(j, before.len() as int),
                block_walk(before.take(j), block@.take(i as int)),
                forall|k: int| 0 <= k < i ==>
                    (#[trigger] generated_instruction(block@[k]) || exists|m: int| 0 <= m < before.len() && point_mutation_of(before[m], block@[k])),
            decreases before.len() - j,
        {
            proof {
                assert(block@.subrange(i as int, block@.len() as int).len() == before.subrange(j, before.len() as int).len());
                assert(j < before.len());
                assert(block@[i as int] == block@.subrange(i as int, block@.len() as int)[0]);
                assert(block@[i as int] == before[j]);
                lemma_point_mutation_refl(before[j]);
            }
            let ghost pre = block@.take(i as int);
            let ghost aj = before[j];
            let ghost start = block@;
            let ghost mut pt: Option<(i32, usize, Seq<OperandDraw>, u8)> = None;
            // Point mutation
            let point = chance(rng, self.config.point_mutation_rate);
            if point {
                let ghost prev = block@;
                let mut inst = Instruction::return_void();
                std::mem::swap(&mut inst, &mut block.instructions[i]);
                assert(inst@ == prev[i as int]);
                self.point_mutate(&mut inst, rng);
                let ghost mutated = inst@;
                std::mem::swap(&mut inst, &mut block.instructions[i]);
                proof {
                    let (a, k, ods, d) = choose|a: i32, k: usize, ods: Seq<OperandDraw>, d: u8|
                        #[trigger] point_draws_fit(prev[i as int], a as int, k as int, ods, d)
                        && mutated == point_mutated(prev[i as int], a as int, k as int, ods, d);
                    pt = Some((a, k, ods, d));
                    assert(block@ =~= prev.update(i as int, mutated));
                    assert(block@.subrange(i + 1, block@.len() as int) =~= prev.subrange(i + 1, prev.len() as int));
                    assert(prev.subrange(i + 1, prev.len() as int) =~= prev.subrange(i as int, prev.len() as int).subrange(1, prev.len() - i));
                    assert forall|k: int| 0 <= k < block@.len() implies instruction_without_floats(#[trigger] block@[k]) by {
                        if k != i { assert(block@[k] == prev[k]); }
                    }
                }
            } else {
                proof {
                    assert(block@.subrange(i + 1, block@.len() as int) =~= block@.subrange(i as int, block@.len() as int).subrange(1, block@.len() - i));
                }
            }
            let ghost b1 = block@;
            assert(b1 == point_step(start, i as int, pt));
            proof {
                assert(point_mutation_of(before[j], block@[i as int]));
                assert(one_aspect_mutation(aj, block@[i as int]));
                assert(block@.take(i as int) =~= pre);
                assert(before.take(j + 1).drop_last() =~= before.take(j));
                assert(before.take(j + 1).last() == aj);
                assert(before.subrange(j + 1, before.len() as int) =~= before.subrange(j, before.len() as int).subrange(1, before.len() - j));
                assert(block@.subrange(i + 1, block@.len() as int) == before.subrange(j + 1, before.len() as int));
                j = j + 1;
            }

            // Deletion
            let delete = chance(rng, self.config.deletion_rate);
            if delete && block.instructions.len() > 1 {
                let ghost prev = block@;
                block.instructions.remove(i);
                proof {
                    assert(block@ =~= prev.remove(i as int));
                    assert(block@.subrange(i as int, block@.len() as int) =~= prev.subrange(i + 1, prev.len() as int));
                    assert forall|k: int| 0 <= k < i implies
                        (#[trigger] generated_instruction(block@[k]) || exists|m: int| 0 <= m < before.len() && point_mutation_of(before[m], block@[k])) by {
                        assert(block@[k] == prev[k]);
                    }
                    assert forall|k: int| 0 <= k < block@.len() implies instruction_without_floats(#[trigger] block@[k]) by {
                        if k < i { assert(block@[k] == prev[k]); } else { assert(block@[k] == prev[k + 1]); }
                    }
                    assert(block@.take(i as int) =~= pre);
                    assert(block_walk(before.take(j), block@.take(i as int)));
                    let st = (pt, true, None::<InstructionDraws>);
                    assert(walk_step(start, i as int, st, max) == (block@, i as int));
                    assert(steps.push(st).drop_last() =~= steps);
                    assert(step_follows_rates(start, st, self.config));
                    lemma_follow_push(before, steps, st, self.config);
                    steps = steps.push(st);
                }
                continue;
            }

            // Insertion
            let insert = chance(rng, self.config.insertion_rate);
            if insert && block.instructions.len() < max {
                let ghost prev = block@;
                let new_inst = self.generate_random_instruction(rng);
                block.instructions.insert(i, new_inst);
                proof {
                    let d = choose|d: InstructionDraws| #[trigger] draws_in_range(d) && new_inst@ == drawn_instruction(d);
                    let st = (pt, delete, Some(d));
                    assert(block@ =~= b1.insert(i as int, drawn_instruction(d)));
                    assert(walk_step(start, i as int, st, max) == (block@, i + 2));
                    assert(steps.push(st).drop_last() =~= steps);
                    assert(step_follows_rates(start, st, self.config));
                    lemma_follow_push(before, steps, st, self.config);
                    steps = steps.push(st);
                    assert(block@ =~= prev.insert(i as int, new_inst@));
                    assert(block@.subrange(i + 2, block@.len() as int) =~= prev.subrange(i + 1, prev.len() as int));
                    assert forall|k: int| 0 <= k < i + 2 implies
                        (#[trigger] generated_instruction(block@[k]) || exists|m: int| 0 <= m < before.len() && point_mutation_of(before[m], block@[k])) by {
                        if k < i { assert(block@[k] == prev[k]); } else if k == i + 1 { assert(block@[k] == prev[k - 1]); }
                    }
                    assert forall|k: int| 0 <= k < block@.len() implies instruction_without_floats(#[trigger] block@[k]) by {
                        if k < i { assert(block@[k] == prev[k]); } else if k > i { assert(block@[k] == prev[k - 1]); }
                    }
                    let tb = block@.take(i + 2);
                    assert(tb.take(tb.len() - 2) =~= pre);
                    assert(tb.last() == prev[i as int]);
                    assert(tb[tb.len() - 2] == new_inst@);
                    assert(block_walk(before.take(j), block@.take(i + 2)));
                }
                i += 1;
            } else {
                proof {
                    let st = (pt, delete, None::<InstructionDraws>);
                    assert(walk_step(start, i as int, st, max) == (block@, i + 1));
                    assert(steps.push(st).drop_last() =~= steps);
                    assert(step_follows_rates(start, st, self.config));
                    lemma_follow_push(before, steps, st, self.config);
                    steps = steps.push(st);
                    let tb = block@.take(i + 1);
                    assert(tb.drop_last() =~= pre);
                    assert(tb.last() == block@[i as int]);
                    assert(block_walk(before.take(j), block@.take(i + 1)));
                }
            }
            i += 1;
        }
        proof {
            assert(block@.subrange(i as int, block@.len() as int).len() == 0);
            assert(block@.take(i as int) =~= block@);
            assert(before.take(j) =~= before);
            assert(block@ == walk_steps(before, steps, max).0);
            assert(rated_walk(before, steps, self.config, block@));
            if self.config.insertion_rate == 0 {
                lemma_walk_without_insertions(before, steps, self.config);
                if certain(self.config.deletion_rate) && before.len() > 0 {
                    lemma_walk_certain_deletion(before, steps, self.config);
                }
                if self.config.point_mutation_rate == 0 && self.config.deletion_rate == 0 {
                    lemma_walk_without_changes(before, steps, self.config);
                }
            }
        }
    }

    /// The mutation of a program with the given draws (see
    /// `program_with`).
    pub fn mutate_with(&self, program: &mut Program, d: &ProgramDraws)
        requires
            old(program).functions@.len() < usize::MAX,
            d.new_function matches Some(nf) ==> nf.instructions@.len() < usize::MAX,
        ensures
            final(program)@ == program_with(old(program)@, d@, self.config),
    {
        let ghost before = program@;
        let n = program.functions.len();
        let mut i: usize = 0;
        while i < n
            invariant
                n == before.functions.len(),
                program.functions@.len() == n,
                i <= n,
                program@.memory_size == before.memory_size,
                program@.version == before.version,
                forall|k: int| 0 <= k < n ==> #[trigger] program@.functions[k] == (if k < i && k < d@.0.len() {
                    function_with(before.functions[k], d@.0[k], self.config)
                } else {
                    before.functions[k]
                }),
            decreases n - i,
        {
            if i < d.functions.len() {
                let ghost prev = program@;
                let mut func = Function::new(String::new(), 0, crate::ir::program::ReturnType::Void);
                std::mem::swap(&mut func, &mut program.functions[i]);
                assert(func@ == prev.functions[i as int]);
                assert(d@.0[i as int] == d.functions@[i as int]@);
                self.mutate_function_with(&mut func, &d.functions[i]);
                std::mem::swap(&mut func, &mut program.functions[i]);
                proof {
                    assert forall|k: int| 0 <= k < n implies #[trigger] program@.functions[k] == (if k == i { program.functions@[k]@ } else { prev.functions[k] }) by {
                        assert(program@.functions[k] == program.functions@[k]@);
                    }
                }
            }
            i += 1;
        }
        let ghost fs = program@.functions;
        assert(fs =~= Seq::new(before.functions.len(), |k: int| if k < d@.0.len() { function_with(before.functions[k], d@.0[k], self.config) } else { before.functions[k] }));
        match &d.new_function {
            Some(nf) => {
                if program.functions.len() < self.config.max_functions {
                    let f = function_from_draws(nf.number, &nf.instructions);
                    program.add_function(f);
                }
            },
            None => {},
        }
    }

    /// The mutation of a function with the given draws (see
    /// `function_with`).
    pub fn mutate_function_with(&self, func: &mut Function, d: &FunctionDraws)
        ensures
            final(func)@ == function_with(old(func)@, d@, self.config),
    {
        let ghost before = func@;
        let n = func.blocks.len();
        let mut i: usize = 0;
        while i < n
            invariant
                n == before.blocks.len(),
                func.blocks@.len() == n,
                i <= n,
                func@.name == before.name,
                func@.num_params == before.num_params,
                func@.num_locals == before.num_locals,
                func@.return_type == before.return_type,
                forall|k: int| 0 <= k < n ==> #[trigger] func@.blocks[k] == (if k < i {
                    walked_blocks(before.blocks, d@.0, self.config.max_instructions_per_function)[k]
                } else {
                    before.blocks[k]
                }),
            decreases n - i,
        {
            if i < d.blocks.len() {
                let ghost prev = func@;
                let mut block = BasicBlock::new();
                std::mem::swap(&mut block, &mut func.blocks[i]);
                assert(block@ == prev.blocks[i as int]);
                assert(d@.0[i as int] == steps_view(d.blocks@[i as int]@));
                self.mutate_block_with(&mut block, &d.blocks[i]);
                std::mem::swap(&mut block, &mut func.blocks[i]);
                proof {
                    assert forall|k: int| 0 <= k < n implies #[trigger] func@.blocks[k] == (if k == i { func.blocks@[k]@ } else { prev.blocks[k] }) by {
                        assert(func@.blocks[k] == func.blocks@[k]@);
                    }
                }
            }
            i += 1;
        }
        let ghost walked = func@.blocks;
        assert(walked =~= walked_blocks(before.blocks, d@.0, self.config.max_instructions_per_function));
        match d.duplicate {
            Some(k) => {
                if n > 0 && !func.blocks[n - 1].is_empty() && k < n {
                    let new_block = func.blocks[k].clone();
                    func.blocks.push(new_block);
                    assert(func@.blocks =~= walked.push(walked[k as int]));
                }
            },
            None => {},
        }
        if d.add_local && func.num_locals < self.config.max_locals {
            func.num_locals += 1;
        }
    }

    /// One step of the walk at instruction `i` with the given draws (see
    /// `walk_step`); returns the next index.
    fn apply_step(&self, block: &mut BasicBlock, i: usize, s: &StepDraws) -> (r: usize)
        requires
            i < old(block)@.len(),
        ensures
            (final(block)@, r as int) == walk_step(old(block)@, i as int, s@, self.config.max_instructions_per_function),
    {
        let ghost before = block@;
        let max = self.config.max_instructions_per_function;
        let n = block.instructions.len();
        assert(block@.len() == n);
        match &s.point {
            Some(p) => {
                let mut inst = Instruction::return_void();
                std::mem::swap(&mut inst, &mut block.instructions[i]);
                assert(inst@ == before[i as int]);
                point_mutate_with(&mut inst, p.aspect, p.opcode, &p.operands, p.dest);
                let ghost mutated = inst@;
                std::mem::swap(&mut inst, &mut block.instructions[i]);
                assert(block@ =~= before.update(i as int, mutated));
            },
            None => {},
        }
        let ghost b1 = block@;
        assert(b1 == point_step(before, i as int, s@.0));
        if s.delete && block.instructions.len() > 1 {
            block.instructions.remove(i);
            assert(block@ =~= b1.remove(i as int));
            return i;
        }
        match s.insert {
            Some(d) => {
                if block.instructions.len() < max {
                    let inst = instruction_from_draws(d);
                    block.instructions.insert(i, inst);
                    assert(block@ =~= b1.insert(i as int, drawn_instruction(d)));
                    return i + 2;
                }
            },
            None => {},
        }
        i + 1
    }

    /// The walk through a block with the given step draws (see
    /// `walk_steps`).
    pub fn mutate_block_with(&self, block: &mut BasicBlock, steps: &Vec<StepDraws>)
        ensures
            final(block)@ == walk_steps(old(block)@, steps_view(steps@), self.config.max_instructions_per_function).0,
    {
        let ghost before = block@;
        let ghost sv = steps_view(steps@);
        let mut i: usize = 0;
        let mut t: usize = 0;
        while t < steps.len()
            invariant
                t <= steps@.len(),
                sv == steps_view(steps@),
                (block@, i as int) == walk_steps(before, sv.take(t as int), self.config.max_instructions_per_function),
            decreases steps@.len() - t,
        {
            proof {
                assert(sv.take(t + 1).drop_last() =~= sv.take(t as int));
                assert(sv.take(t + 1).last() == steps@[t as int]@);
            }
            if i < block.instructions.len() {
                i = self.apply_step(block, i, &steps[t]);
            }
            t += 1;
        }
        assert(sv.take(t as int) =~= sv);
    }

    /// Change the opcode (within its family), some operands (each by a coin
    /// of one half) or the destination register of an instruction, which of
    /// the three being drawn first; the values are drawn as
    /// `point_draws_fit` describes and applied by `point_mutate_with`.
    /// Float immediates are not taken.
    #[verifier::spinoff_prover]
    pub fn point_mutate(&self, inst: &mut Instruction, rng: &mut ChaCha8Rng)
        requires
            instruction_without_floats(old(inst)@),
        ensures
            exists|aspect: i32, k: usize, ods: Seq<OperandDraw>, dest: u8|
                #[trigger] point_draws_fit(old(inst)@, aspect as int, k as int, ods, dest)
                && final(inst)@ == point_mutated(old(inst)@, aspect as int, k as int, ods, dest),
            instruction_without_floats(final(inst)@),
            point_mutation_of(old(inst)@, final(inst)@),
            one_aspect_mutation(old(inst)@, final(inst)@),
    {
        let ghost before = inst@;
        let which = gen_range_i32(rng, 0, 3);
        let mut k: usize = 0;
        let mut draws: Vec<OperandDraw> = Vec::new();
        let mut dest: u8 = 0;
        if which == 0 {
            // Mutate opcode (within same family)
            let n = family_len(inst.opcode);
            if n > 1 {
                k = gen_range_usize(rng, 0, n);
            }
        } else if which == 1 {
            // Mutate operands
            let mut j: usize = 0;
            while j < inst.operands.len()
                invariant
                    inst@ == before,
                    instruction_without_floats(before),
                    j <= before.operands.len(),
                    draws@.len() == j,
                    forall|m: int| 0 <= m < j ==> operand_draw_fits(before.operands[m], #[trigger] draws@[m]),
                decreases before.operands.len() - j,
            {
                let d = if chance(rng, HALF_CHANCE) {
                    draw_operand(inst.operands[j], rng)
                } else {
                    OperandDraw::Keep
                };
                draws.push(d);
                j += 1;
            }
        } else {
            // Mutate destination register
            if inst.dest.is_some() {
                dest = gen_range_u8(rng, 0, 16);
            }
        }
        point_mutate_with(inst, which, k, &draws, dest);
        proof {
            assert(point_draws_fit(before, which as int, k as int, draws@, dest));
            lemma_point_draws_mutation(before, which as int, k as int, draws@, dest);
        }
    }

    /// A random instruction of one of the generated shapes: the opcode is
    /// drawn first, then the values its shape reads, in the order of
    /// `drawn_instruction`.
    pub fn generate_random_instruction(&self, rng: &mut ChaCha8Rng) -> (r: Instruction)
        ensures
            exists|d: InstructionDraws| #[trigger] draws_in_range(d) && r@ == drawn_instruction(d),
            generated_instruction(r@),
            instruction_without_floats(r@),
    {
        let k = gen_range_usize(rng, 0, 29);
        let opcode = generated_opcode_or_last(k);
        let mut d = InstructionDraws { opcode: k, dest: 0, a: 0, b: 0, x: 0, y: 0 };
        match opcode {
            // Binary arithmetic/comparison/logical operations
            Opcode::Add | Opcode::Sub | Opcode::Mul | Opcode::Div | Opcode::Mod | Opcode::Eq | Opcode::Ne
            | Opcode::Lt | Opcode::Le | Opcode::Gt | Opcode::Ge | Opcode::And | Opcode::Or | Opcode::Xor
            | Opcode::Min | Opcode::Max => {
                d.dest = gen_range_u8(rng, 0, 8);
                d.a = gen_range_u8(rng, 0, 8);
                d.b = gen_range_u8(rng, 0, 8);
            },
            // Unary operations
            Opcode::Not | Opcode::Neg | Opcode::Abs => {
                d.a = gen_range_u8(rng, 0, 8);
                d.dest = gen_range_u8(rng, 0, 8);
            },
            // Load constant
            Opcode::LoadConst => {
                d.dest = gen_range_u8(rng, 0, 8);
                d.x = gen_range_i32(rng, -100, 100);
            },
            // Host calls without parameters
            Opcode::GetEnergy | Opcode::GetAge | Opcode::Eat | Opcode::Reproduce => {
                d.dest = gen_range_u8(rng, 0, 8);
            },
            // Move: direction (dx, dy)
            Opcode::Move => {
                d.x = gen_range_i32_inclusive(rng, -1, 1);
                d.y = gen_range_i32_inclusive(rng, -1, 1);
            },
            // SenseEnv and Attack: offset (dx, dy)
            Opcode::SenseEnv | Opcode::Attack => {
                d.x = gen_range_i32_inclusive(rng, -1, 1);
                d.y = gen_range_i32_inclusive(rng, -1, 1);
                d.dest = gen_range_u8(rng, 0, 8);
            },
            // SenseNeighbor: slot
            Opcode::SenseNeighbor => {
                d.x = gen_range_i32(rng, 0, 8);
                d.dest = gen_range_u8(rng, 0, 8);
            },
            // EmitSignal: channel and value
            _ => {
                d.x = gen_range_i32(rng, 0, 10);
                d.y = gen_range_i32(rng, -100, 100);
            },
        }
        let r = instruction_from_draws(d);
        proof {
            assert(draws_in_range(d));
            lemma_drawn_generated(d);
            lemma_generated_without_floats(r@);
        }
        r
    }

    /// A random function `func_<n>` with one block of 3 to 19 random
    /// instructions followed by `return r0`.
    fn generate_random_function(&self, rng: &mut ChaCha8Rng) -> (r: Function)
        ensures
            exists|n: u32| r@.name == "func_"@ + decimal(n as nat),
            r@.num_params == 0,
            r@.num_locals == 0,
            r@.return_type == crate::ir::program::ReturnType::Int,
            r@.blocks.len() == 1,
            4 <= r@.blocks[0].len() <= 20,
            r@.blocks[0].last() == (InstructionModel { opcode: Opcode::Return, dest: None, operands: seq![Operand::Register(Register(0))] }),
            forall|k: int| 0 <= k < r@.blocks[0].len() - 1 ==> generated_instruction(#[trigger] r@.blocks[0][k]),
            function_without_floats(r@),
            exists|n: u32, ds: Seq<InstructionDraws>| r@ == #[trigger] new_function_model(n, ds),
    {
        let n = gen_u32(rng);
        let name = function_name(n);
        let mut block = BasicBlock::new();
        let num_instructions = gen_range_i32(rng, 3, 20);
        let mut k: i32 = 0;
        let ghost mut ds: Seq<InstructionDraws> = Seq::empty();
        while k < num_instructions
            invariant
                0 <= k <= num_instructions < 20,
                block@.len() == k,
                block@ == ds.map_values(|d: InstructionDraws| drawn_instruction(d)),
                forall|j: int| 0 <= j < k ==> generated_instruction(#[trigger] block@[j]),
            decreases num_instructions - k,
        {
            let inst = self.generate_random_instruction(rng);
            block.add_instruction(inst);
            proof {
                let d = choose|d: InstructionDraws| #[trigger] draws_in_range(d) && inst@ == drawn_instruction(d);
                ds = ds.push(d);
                assert(block@ =~= ds.map_values(|d: InstructionDraws| drawn_instruction(d)));
            }
            k += 1;
        }
        // Add return instruction
        block.add_instruction(Instruction::return_value(Register(0)));
        let mut func = Function::new(name, 0, crate::ir::program::ReturnType::Int);
        assert(func.blocks@.len() == func@.blocks.len());
        func.blocks.set(0, block);
        proof {
            assert(func@.blocks =~= seq![block@]);
            assert(block@.last() == return_r0());
            assert(func@ == new_function_model(n, ds));
            assert forall|j: int| 0 <= j < func@.blocks.len() implies block_without_floats(#[trigger] func@.blocks[j]) by {
                assert forall|i: int| 0 <= i < block@.len() implies instruction_without_floats(#[trigger] block@[i]) by {
                    if i < block@.len() - 1 {
                        lemma_generated_without_floats(block@[i]);
                    } else {
                        assert(block@[i].operands =~= seq![Operand::Register(Register(0))]);
                    }
                }
            }
        }
        func
    }

    /// Crossover: the child has half the parents' functions together (at
    /// most `max_functions`); function `i` comes, by a coin drawn for it,
    /// from parent 1 or parent 2 at index `i`, or wraps around the other
    /// parent when that parent is too short (see `crossover_with`).
    pub fn crossover(&self, parent1: &Program, parent2: &Program, rng: &mut ChaCha8Rng) -> (r: Program)
        requires
            parent1@.functions.len() + parent2@.functions.len() <= usize::MAX,
        ensures
            is_crossover(parent1@, parent2@, self.config.max_functions as int, r@),
            r@.memory_size == 256,
            r@.version == 1,
            r@.functions.len() == crossover_size(parent1@.functions.len() as int, parent2@.functions.len() as int, self.config.max_functions as int),
            forall|i: int| 0 <= i < r@.functions.len() ==> {
                ||| #[trigger] r@.functions[i] == crossover_pick(parent1@.functions, parent2@.functions, i, true)
                ||| r@.functions[i] == crossover_pick(parent1@.functions, parent2@.functions, i, false)
            },
    {
        let n1 = parent1.functions.len();
        let n2 = parent2.functions.len();
        let num_funcs = (n1 + n2) / 2;
        let limit = if num_funcs < self.config.max_functions { num_funcs } else { self.config.max_functions };
        let mut coins: Vec<bool> = Vec::new();
        let mut i: usize = 0;
        while i < limit
            invariant
                i <= limit,
                coins@.len() == i,
            decreases limit - i,
        {
            coins.push(gen_bool(rng));
            i += 1;
        }
        let r = self.crossover_with(parent1, parent2, &coins);
        proof {
            let size = crossover_size(n1 as int, n2 as int, self.config.max_functions as int);
            assert forall|k: int| 0 <= k < r@.functions.len() implies {
                ||| #[trigger] r@.functions[k] == crossover_pick(parent1@.functions, parent2@.functions, k, true)
                ||| r@.functions[k] == crossover_pick(parent1@.functions, parent2@.functions, k, false)
            } by {
                assert(r@.functions[k] == crossover_pick(parent1@.functions, parent2@.functions, k, coins@[k]));
            }
            assert(coins@.len() == size);
        }
        r
    }

    /// The crossover child for the given coins, one per function of the
    /// child: function `i` is `crossover_pick` of the parents' functions
    /// at `i` for coin `i`.
    pub fn crossover_with(&self, parent1: &Program, parent2: &Program, coins: &Vec<bool>) -> (r: Program)
        requires
            parent1@.functions.len() + parent2@.functions.len() <= usize::MAX,
            coins@.len() >= crossover_size(parent1@.functions.len() as int, parent2@.functions.len() as int, self.config.max_functions as int),
        ensures
            r@.memory_size == 256,
            r@.version == 1,
            r@.functions == crossover_child(parent1@.functions, parent2@.functions, coins@, self.config.max_functions as int),
    {
        let mut child = Program::new();
        let n1 = parent1.functions.len();
        let n2 = parent2.functions.len();
        // Take functions from both parents
        let num_funcs = (n1 + n2) / 2;
        let limit = if num_funcs < self.config.max_functions { num_funcs } else { self.config.max_functions };
        let mut i: usize = 0;
        while i < limit
            invariant
                n1 == parent1@.functions.len(),
                n2 == parent2@.functions.len(),
                limit == crossover_size(n1 as int, n2 as int, self.config.max_functions as int),
                limit <= (n1 + n2) / 2,
                coins@.len() >= limit,
                i <= limit,
                child@.memory_size == 256,
                child@.version == 1,
                child@.functions.len() == i,
                forall|k: int| 0 <= k < i ==> #[trigger] child@.functions[k] == crossover_pick(parent1@.functions, parent2@.functions, k, coins@[k]),
            decreases limit - i,
        {
            let coin = coins[i];
            let func = if coin {
                if i < n1 {
                    parent1.functions[i].clone()
                } else {
                    parent2.functions[i % n2].clone()
                }
            } else {
                if i < n2 {
                    parent2.functions[i].clone()
                } else {
                    parent1.functions[i % n1].clone()
                }
            };
            proof {
                assert(parent1@.functions[i as int] == parent1.functions@[i as int]@ || i >= n1);
                if coin && i >= n1 {
                    assert(parent2@.functions[(i % n2) as int] == parent2.functions@[(i % n2) as int]@);
                }
                if !coin && i < n2 {
                    assert(parent2@.functions[i as int] == parent2.functions@[i as int]@);
                }
                if !coin && i >= n2 {
                    assert(parent1@.functions[(i % n1) as int] == parent1.functions@[(i % n1) as int]@);
                }
                assert(func@ == crossover_pick(parent1@.functions, parent2@.functions, i as int, coin));
            }
            child.add_function(func);
            i += 1;
        }
        assert(child@.functions =~= crossover_child(parent1@.functions, parent2@.functions, coins@, self.config.max_functions as int));
        child
    }
}

/// The functions of the crossover child for the given coins.
pub open spec fn crossover_child(p1: Seq<FunctionModel>, p2: Seq<FunctionModel>, coins: Seq<bool>, max_functions: int) -> Seq<FunctionModel> {
    Seq::new(
        crossover_size(p1.len() as int, p2.len() as int, max_functions) as nat,
        |i: int| crossover_pick(p1, p2, i, coins[i]),
    )
}

/// `c` is a crossover child of the two programs: memory 256, version 1,
/// and the functions `crossover_child` gives for some coins.
pub open spec fn is_crossover(p1: ProgramModel, p2: ProgramModel, max_functions: int, c: ProgramModel) -> bool {
    &&& c.memory_size == 256
    &&& c.version == 1
    &&& exists|coins: Seq<bool>| c.functions == #[trigger] crossover_child(p1.functions, p2.functions, coins, max_functions)
}

/// The number of functions of a crossover child.
pub open spec fn crossover_size(n1: int, n2: int, max_functions: int) -> int {
    let half = (n1 + n2) / 2;
    if half < max_functions { half } else { max_functions }
}

/// The function a crossover child takes at index `i` for a coin.
pub open spec fn crossover_pick(p1: Seq<FunctionModel>, p2: Seq<FunctionModel>, i: int, coin: bool) -> FunctionModel {
    if coin {
        if i < p1.len() { p1[i] } else { p2[i % (p2.len() as int)] }
    } else {
        if i < p2.len() { p2[i] } else { p1[i % (p1.len() as int)] }
    }
}

/// The opcodes that generated instructions use, in drawing order.
pub open spec fn spec_generated_opcode(k: int) -> Opcode {
    if k == 0 { Opcode::Add } else if k == 1 { Opcode::Sub } else if k == 2 { Opcode::Mul }
    else if k == 3 { Opcode::Div } else if k == 4 { Opcode::Mod } else if k == 5 { Opcode::Neg }
    else if k == 6 { Opcode::Abs } else if k == 7 { Opcode::Min } else if k == 8 { Opcode::Max }
    else if k == 9 { Opcode::Eq } else if k == 10 { Opcode::Ne } else if k == 11 { Opcode::Lt }
    else if k == 12 { Opcode::Le } else if k == 13 { Opcode::Gt } else if k == 14 { Opcode::Ge }
    else if k == 15 { Opcode::And } else if k == 16 { Opcode::Or } else if k == 17 { Opcode::Xor }
    else if k == 18 { Opcode::Not } else if k == 19 { Opcode::LoadConst } else if k == 20 { Opcode::GetEnergy }
    else if k == 21 { Opcode::GetAge } else if k == 22 { Opcode::Move } else if k == 23 { Opcode::Eat }
    else if k == 24 { Opcode::SenseEnv } else if k == 25 { Opcode::SenseNeighbor } else if k == 26 { Opcode::Attack }
    else if k == 27 { Opcode::Reproduce } else { Opcode::EmitSignal }
}

/// The `k`-th opcode of the generated set (the last one from 28 on).
fn generated_opcode_or_last(k: usize) -> (r: Opcode)
    ensures
        r == spec_generated_opcode(k as int),
{
    if k == 0 { Opcode::Add } else if k == 1 { Opcode::Sub } else if k == 2 { Opcode::Mul }
    else if k == 3 { Opcode::Div } else if k == 4 { Opcode::Mod } else if k == 5 { Opcode::Neg }
    else if k == 6 { Opcode::Abs } else if k == 7 { Opcode::Min } else if k == 8 { Opcode::Max }
    else if k == 9 { Opcode::Eq } else if k == 10 { Opcode::Ne } else if k == 11 { Opcode::Lt }
    else if k == 12 { Opcode::Le } else if k == 13 { Opcode::Gt } else if k == 14 { Opcode::Ge }
    else if k == 15 { Opcode::And } else if k == 16 { Opcode::Or } else if k == 17 { Opcode::Xor }
    else if k == 18 { Opcode::Not } else if k == 19 { Opcode::LoadConst } else if k == 20 { Opcode::GetEnergy }
    else if k == 21 { Opcode::GetAge } else if k == 22 { Opcode::Move } else if k == 23 { Opcode::Eat }
    else if k == 24 { Opcode::SenseEnv } else if k == 25 { Opcode::SenseNeighbor } else if k == 26 { Opcode::Attack }
    else if k == 27 { Opcode::Reproduce } else { Opcode::EmitSignal }
}

/// Every instruction is a point mutation of itself.
proof fn lemma_point_mutation_refl(i: InstructionModel)
    ensures
        point_mutation_of(i, i),
{
}

/// Every block of the function but the last is non-empty, and it has one.
pub open spec fn function_valid(f: FunctionModel) -> bool {
    &&& f.blocks.len() > 0
    &&& forall|j: int| 0 <= j < f.blocks.len() - 1 ==> (#[trigger] f.blocks[j]).len() > 0
}

/// No empty block from `from` on, the last excepted, exactly when those
/// blocks are all non-empty.
proof fn lemma_first_empty_block_none(bs: Seq<Seq<InstructionModel>>, from: int)
    requires
        0 <= from,
    ensures
        first_empty_block(bs, from) is None <==> forall|j: int| from <= j < bs.len() - 1 ==> (#[trigger] bs[j]).len() > 0,
    decreases bs.len() - from,
{
    if from < bs.len() - 1 {
        lemma_first_empty_block_none(bs, from + 1);
    }
}

/// No function from `from` on has a defect exactly when they are all valid.
proof fn lemma_program_defect_none(fs: Seq<FunctionModel>, from: int)
    requires
        0 <= from,
    ensures
        first_program_defect(fs, from) is None <==> forall|i: int| from <= i < fs.len() ==> function_valid(#[trigger] fs[i]),
    decreases fs.len() - from,
{
    if from < fs.len() {
        lemma_first_empty_block_none(fs[from].blocks, 0);
        lemma_program_defect_none(fs, from + 1);
        if first_program_defect(fs, from) is None {
            assert forall|i: int| from <= i < fs.len() implies function_valid(#[trigger] fs[i]) by {
                if i > from {
                } else {
                    assert(function_defect(fs[from], from) is None);
                }
            }
        }
    }
}

/// Mutation keeps a valid program valid; it keeps a valid program whose
/// blocks are all non-empty so.
proof fn lemma_mutated_program_valid(a: ProgramModel, b: ProgramModel, max_locals: usize, max_insts: usize)
    requires
        b.functions.len() == a.functions.len() || b.functions.len() == a.functions.len() + 1,
        forall|i: int| 0 <= i < a.functions.len() ==> function_mutation_of(#[trigger] a.functions[i], b.functions[i], max_locals, max_insts),
        b.functions.len() == a.functions.len() + 1 ==> {
            &&& b.functions.last().blocks.len() == 1
            &&& b.functions.last().blocks[0].len() > 0
        },
    ensures
        spec_validate(a.functions) is Ok ==> spec_validate(b.functions) is Ok,
        spec_validate(a.functions) is Ok && blocks_all_nonempty(a.functions) ==> blocks_all_nonempty(b.functions),
{
    if spec_validate(a.functions) is Ok {
        let fa = a.functions;
        let fb = b.functions;
        lemma_program_defect_none(fa, 0);
        lemma_program_defect_none(fb, 0);
        assert forall|i: int| 0 <= i < fb.len() implies function_valid(#[trigger] fb[i]) by {
            if i < fa.len() {
                assert(function_mutation_of(fa[i], fb[i], max_locals, max_insts));
                assert(function_valid(fa[i]));
                assert forall|j: int| 0 <= j < fb[i].blocks.len() - 1 implies (#[trigger] fb[i].blocks[j]).len() > 0 by {
                    assert(block_mutation_of(fa[i].blocks[j], fb[i].blocks[j], max_insts));
                    if j < fa[i].blocks.len() - 1 {
                        assert(fa[i].blocks[j].len() > 0);
                    } else {
                        assert(fa[i].blocks[j] == fa[i].blocks.last());
                    }
                }
            } else {
                assert(fb[i] == fb.last());
            }
        }
        lemma_first_named_extends(fa, fb, "init"@);
        lemma_first_named_extends(fa, fb, "step"@);
        if blocks_all_nonempty(fa) {
            assert forall|i: int| 0 <= i < fb.len() implies {
                &&& (#[trigger] fb[i]).blocks.len() > 0
                &&& forall|j: int| 0 <= j < fb[i].blocks.len() ==> (#[trigger] fb[i].blocks[j]).len() > 0
            } by {
                if i < fa.len() {
                    assert(function_mutation_of(fa[i], fb[i], max_locals, max_insts));
                    assert forall|j: int| 0 <= j < fb[i].blocks.len() implies (#[trigger] fb[i].blocks[j]).len() > 0 by {
                        if j < fa[i].blocks.len() {
                            assert(block_mutation_of(fa[i].blocks[j], fb[i].blocks[j], max_insts));
                            assert(fa[i].blocks[j].len() > 0);
                        } else {
                            let k = choose|k: int| 0 <= k < fa[i].blocks.len() && fb[i].blocks.last() == fb[i].blocks[k];
                            assert(block_mutation_of(fa[i].blocks[k], fb[i].blocks[k], max_insts));
                            assert(fa[i].blocks[k].len() > 0);
                        }
                    }
                } else {
                    assert(fb[i] == fb.last());
                }
            }
        }
    }
}

/// A name found among some functions is found at the same place among
/// functions that keep their names and may add more.
proof fn lemma_first_named_extends(a: Seq<FunctionModel>, b: Seq<FunctionModel>, name: Seq<char>)
    requires
        a.len() <= b.len(),
        forall|i: int| 0 <= i < a.len() ==> (#[trigger] b[i]).name == a[i].name,
    ensures
        first_named(a, name) is Some ==> first_named(b, name) == first_named(a, name),
    decreases a.len(),
{
    if a.len() > 0 {
        lemma_first_named_extends(a.drop_first(), b.drop_first(), name);
        assert(b[0].name == a[0].name);
    }
}

} // verus!
