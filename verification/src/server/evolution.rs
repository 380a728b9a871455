//! Global selection and breeding of genomes.
//!
//! Fitness reaches this module as integer keys that order lineages as
//! their scalar fitness does (the host derives them from the
//! floating-point fitness).

use vstd::prelude::*;
use rand_chacha::ChaCha8Rng;
use crate::error::Error;
use crate::ir::instruction::{Instruction, InstructionModel, Opcode, Operand, Register, Value};
use crate::ir::mutation::{
    Mutator, crossover_pick, is_crossover, crossover_size, program_float_free, program_mutation_of, program_without_floats,
};
use crate::ir::program::{Function, FunctionModel, Program, ProgramModel, ReturnType};
use crate::ir::validation::spec_validate;
use crate::rng::{gen_range_i32_inclusive, gen_range_usize, sample_indices};
use crate::types::{LineageId, uuid_v4_fixed_bits};

verus! {

/// The instructions of the seed `step` function: load the direction
/// `(dx, dy)`, move, eat, try to reproduce, return what eating answered.
pub open spec fn seed_step_block(dx: i32, dy: i32) -> Seq<InstructionModel> {
    seq![
        InstructionModel { opcode: Opcode::LoadConst, dest: Some(Register(0)), operands: seq![Operand::Immediate(Value::Int(dx))] },
        InstructionModel { opcode: Opcode::LoadConst, dest: Some(Register(1)), operands: seq![Operand::Immediate(Value::Int(dy))] },
        InstructionModel {
            opcode: Opcode::Move,
            dest: None,
            operands: seq![Operand::Register(Register(0)), Operand::Register(Register(1))],
        },
        InstructionModel { opcode: Opcode::Eat, dest: Some(Register(2)), operands: seq![] },
        InstructionModel { opcode: Opcode::Reproduce, dest: Some(Register(0)), operands: seq![] },
        InstructionModel { opcode: Opcode::Return, dest: None, operands: seq![Operand::Register(Register(2))] },
    ]
}

/// The seed genome: an `init` that returns and a `step` that moves by
/// `(dx, dy)`, eats and tries to reproduce.
pub open spec fn seed_program(dx: i32, dy: i32) -> ProgramModel {
    ProgramModel {
        functions: seq![
            FunctionModel {
                name: "init"@,
                num_params: 1,
                num_locals: 0,
                blocks: seq![seq![InstructionModel { opcode: Opcode::Return, dest: None, operands: seq![] }]],
                return_type: ReturnType::Void,
            },
            FunctionModel {
                name: "step"@,
                num_params: 1,
                num_locals: 0,
                blocks: seq![seed_step_block(dx, dy)],
                return_type: ReturnType::Int,
            },
        ],
        memory_size: 256,
        version: 1,
    }
}

/// The seed genome for a direction.
fn build_seed_program(dx: i32, dy: i32) -> (r: Program)
    ensures
        r@ == seed_program(dx, dy),
{
    let mut program = Program::new();

    let mut init = Function::new("init".to_string(), 1, ReturnType::Void);
    let mut init_block = crate::ir::program::BasicBlock::new();
    init_block.add_instruction(Instruction::return_void());
    assert(init_block@ =~= seq![InstructionModel { opcode: Opcode::Return, dest: None, operands: seq![] }]);
    assert(init.blocks@.len() == init@.blocks.len());
    init.blocks.set(0, init_block);
    assert(program.functions@.len() == program@.functions.len());
    program.add_function(init);

    let mut step = Function::new("step".to_string(), 1, ReturnType::Int);
    let mut block = crate::ir::program::BasicBlock::new();
    block.add_instruction(Instruction::load_const(Register(0), Value::Int(dx)));
    block.add_instruction(Instruction::load_const(Register(1), Value::Int(dy)));
    let mut operands: Vec<Operand> = Vec::new();
    operands.push(Operand::Register(Register(0)));
    operands.push(Operand::Register(Register(1)));
    block.add_instruction(Instruction::new(Opcode::Move).with_operands(operands));
    block.add_instruction(Instruction::new(Opcode::Eat).with_dest(Register(2)));
    block.add_instruction(Instruction::new(Opcode::Reproduce).with_dest(Register(0)));
    block.add_instruction(Instruction::return_value(Register(2)));
    assert(operands@ =~= seq![Operand::Register(Register(0)), Operand::Register(Register(1))]);
    assert(block@ =~= seed_step_block(dx, dy));
    assert(step.blocks@.len() == step@.blocks.len());
    step.blocks.set(0, block);
    assert(program.functions@.len() == program@.functions.len());
    program.add_function(step);
    proof {
        assert(program@.functions[0].blocks =~= seq![seq![InstructionModel { opcode: Opcode::Return, dest: None, operands: seq![] }]]);
        assert(program@.functions[1].blocks[0] =~= seed_step_block(dx, dy));
        assert(program@.functions[1].blocks =~= seq![seed_step_block(dx, dy)]);
        assert(program@.functions =~= seed_program(dx, dy).functions);
    }
    program
}

/// The seed genome is a valid program whose blocks all hold
/// instructions.
pub proof fn lemma_seed_program_valid(dx: i32, dy: i32)
    ensures
        spec_validate(seed_program(dx, dy).functions) is Ok,
        crate::ir::mutation::blocks_all_nonempty(seed_program(dx, dy).functions),
        program_without_floats(seed_program(dx, dy)),
{
    let p = seed_program(dx, dy);
    reveal_strlit("init");
    reveal_strlit("step");
    assert("init"@ != "step"@) by {
        assert("init"@[0] != "step"@[0]);
    }
    assert(crate::ir::program::first_named(p.functions, "init"@) == Some(0int));
    assert(crate::ir::program::first_named(p.functions.drop_first(), "step"@) == Some(0int));
    assert(crate::ir::program::first_named(p.functions, "step"@) == Some(1int));
    assert(crate::ir::validation::first_empty_block(p.functions[0].blocks, 0) is None);
    assert(crate::ir::validation::first_empty_block(p.functions[1].blocks, 0) is None);
    assert(crate::ir::validation::first_program_defect(p.functions, 2) is None);
    assert(crate::ir::validation::first_program_defect(p.functions, 1) is None);
    assert(crate::ir::validation::first_program_defect(p.functions, 0) is None);
    let b = seed_step_block(dx, dy);
    assert forall|k: int| 0 <= k < b.len() implies crate::ir::mutation::instruction_without_floats(#[trigger] b[k]) by {
        if k == 2 {
            assert forall|o: int| 0 <= o < b[k].operands.len() implies !crate::ir::mutation::is_float_operand(#[trigger] b[k].operands[o]) by {}
        }
    }
    assert(crate::ir::mutation::block_without_floats(p.functions[1].blocks[0]));
    assert(crate::ir::mutation::function_without_floats(p.functions[1]));
    assert(crate::ir::mutation::block_without_floats(p.functions[0].blocks[0]));
    assert(crate::ir::mutation::function_without_floats(p.functions[0]));
}

/// The host functions a block calls, in order.
pub open spec fn host_calls(b: Seq<InstructionModel>) -> Seq<Opcode>
    decreases b.len(),
{
    if b.len() == 0 {
        Seq::empty()
    } else if b.last().opcode.spec_is_host_call() {
        host_calls(b.drop_last()).push(b.last().opcode)
    } else {
        host_calls(b.drop_last())
    }
}

/// What a seed organism does each step: its `step` function is its only
/// block, which calls the host to move, then to eat, then to reproduce,
/// and nothing else; the move goes by `(dx, dy)`, read from registers 0
/// and 1 after the block loads `dx` into register 0 and `dy` into
/// register 1; the reproduction's answer goes to register 0, and the step
/// returns register 2, where the eat's answer went. Its `init` only
/// returns.
pub proof fn lemma_seed_genome_moves_eats_reproduces(dx: i32, dy: i32)
    ensures
        ({
            let p = seed_program(dx, dy);
            let b = p.functions[1].blocks[0];
            &&& p.functions.len() == 2
            &&& p.functions[0].name == "init"@
            &&& p.functions[1].name == "step"@
            &&& p.functions[0].blocks.len() == 1
            &&& host_calls(p.functions[0].blocks[0]) == Seq::<Opcode>::empty()
            &&& p.functions[1].blocks.len() == 1
            &&& host_calls(b) == seq![Opcode::Move, Opcode::Eat, Opcode::Reproduce]
            &&& b.len() == 6
            &&& b[0] == (InstructionModel { opcode: Opcode::LoadConst, dest: Some(Register(0)), operands: seq![Operand::Immediate(Value::Int(dx))] })
            &&& b[1] == (InstructionModel { opcode: Opcode::LoadConst, dest: Some(Register(1)), operands: seq![Operand::Immediate(Value::Int(dy))] })
            &&& b[2].opcode == Opcode::Move
            &&& b[2].operands == seq![Operand::Register(Register(0)), Operand::Register(Register(1))]
            &&& b[3].opcode == Opcode::Eat && b[3].dest == Some(Register(2))
            &&& b[4].opcode == Opcode::Reproduce && b[4].dest == Some(Register(0))
            &&& b[5].opcode == Opcode::Return && b[5].operands == seq![Operand::Register(Register(2))]
        }),
{
    let b = seed_step_block(dx, dy);
    reveal_with_fuel(host_calls, 7);
    assert(b.drop_last() =~= b.subrange(0, 5));
    assert(b.subrange(0, 5).drop_last() =~= b.subrange(0, 4));
    assert(b.subrange(0, 4).drop_last() =~= b.subrange(0, 3));
    assert(b.subrange(0, 3).drop_last() =~= b.subrange(0, 2));
    assert(b.subrange(0, 2).drop_last() =~= b.subrange(0, 1));
    assert(b.subrange(0, 1).drop_last() =~= Seq::<InstructionModel>::empty());
    assert(host_calls(b.subrange(0, 2)) =~= Seq::<Opcode>::empty());
    assert(host_calls(b.subrange(0, 3)) =~= seq![Opcode::Move]);
    assert(host_calls(b.subrange(0, 4)) =~= seq![Opcode::Move, Opcode::Eat]);
    assert(host_calls(b.subrange(0, 5)) =~= seq![Opcode::Move, Opcode::Eat, Opcode::Reproduce]);
    assert(host_calls(b) =~= seq![Opcode::Move, Opcode::Eat, Opcode::Reproduce]);
    let ib = seq![InstructionModel { opcode: Opcode::Return, dest: None, operands: seq![] }];
    assert(ib.drop_last() =~= Seq::<InstructionModel>::empty());
    reveal_strlit("init");
    reveal_strlit("step");
}

/// `p` may be an initial genome: a mutation of a seed genome whose
/// direction is in `-1..=1` on each axis.
pub open spec fn initial_genome(p: ProgramModel, mutation: crate::ir::mutation::MutationConfig) -> bool {
    exists|dx: i32, dy: i32| -1 <= dx <= 1 && -1 <= dy <= 1 && #[trigger] program_mutation_of(seed_program(dx, dy), p, mutation)
}

/// Create `count` initial genomes, each of a fresh lineage: a seed genome
/// with a random direction, mutated once. Each is a valid program.
pub fn create_initial_genomes(mutator: &Mutator, rng: &mut ChaCha8Rng, count: usize) -> (r: Vec<(LineageId, Program)>)
    ensures
        r@.len() == count,
        forall|i: int| 0 <= i < r@.len() ==> {
            &&& uuid_v4_fixed_bits((#[trigger] r@[i]).0.0)
            &&& initial_genome(r@[i].1@, mutator.config)
            &&& spec_validate(r@[i].1@.functions) is Ok
        },
{
    let mut genomes: Vec<(LineageId, Program)> = Vec::new();
    let mut i: usize = 0;
    while i < count
        invariant
            i <= count,
            genomes@.len() == i,
            forall|j: int| 0 <= j < genomes@.len() ==> {
                &&& uuid_v4_fixed_bits((#[trigger] genomes@[j]).0.0)
                &&& initial_genome(genomes@[j].1@, mutator.config)
                &&& spec_validate(genomes@[j].1@.functions) is Ok
            },
        decreases count - i,
    {
        let lineage_id = LineageId::new();
        let dx = gen_range_i32_inclusive(rng, -1, 1);
        let dy = gen_range_i32_inclusive(rng, -1, 1);
        let mut program = build_seed_program(dx, dy);
        proof { lemma_seed_program_valid(dx, dy); }
        mutator.mutate(&mut program, rng);
        assert(program_mutation_of(seed_program(dx, dy), program@, mutator.config));
        genomes.push((lineage_id, program));
        i += 1;
    }
    genomes
}

/// `order` lists the indices of `keys` from the highest key to the lowest,
/// equal keys in index order: the order of a stable sort by decreasing key.
pub open spec fn ranked(keys: Seq<u64>, order: Seq<usize>) -> bool {
    &&& order.len() == keys.len()
    &&& forall|i: int| 0 <= i < order.len() ==> #[trigger] order[i] < keys.len()
    &&& forall|i: int, j: int| 0 <= i < j < order.len() ==> {
        ||| keys[order[i] as int] > keys[order[j] as int]
        ||| (keys[order[i] as int] == keys[order[j] as int] && order[i] < order[j])
    }
}

/// The indices of `keys` ranked by decreasing key, ties in index order.
pub fn rank_by_fitness(keys: &Vec<u64>) -> (r: Vec<usize>)
    ensures
        ranked(keys@, r@),
{
    let n = keys.len();
    let mut order: Vec<usize> = Vec::new();
    let mut i: usize = 0;
    while i < n
        invariant
            n == keys@.len(),
            i <= n,
            order@.len() == i,
            forall|a: int| 0 <= a < order@.len() ==> #[trigger] order@[a] < i,
            forall|a: int, b: int| 0 <= a < b < order@.len() ==> {
                ||| keys@[order@[a] as int] > keys@[order@[b] as int]
                ||| (keys@[order@[a] as int] == keys@[order@[b] as int] && order@[a] < order@[b])
            },
        decreases n - i,
    {
        let k = keys[i];
        // The first place whose key is below `k`.
        let mut p: usize = 0;
        while p < order.len() && keys[order[p]] >= k
            invariant
                p <= order@.len(),
                n == keys@.len(),
                i < n,
                k == keys@[i as int],
                forall|a: int| 0 <= a < order@.len() ==> #[trigger] order@[a] < i,
                forall|a: int| 0 <= a < p ==> keys@[#[trigger] order@[a] as int] >= k,
            decreases order@.len() - p,
        {
            p += 1;
        }
        let ghost before = order@;
        order.insert(p, i);
        proof {
            assert(order@ =~= before.insert(p as int, i));
            assert forall|a: int, b: int| 0 <= a < b < order@.len() implies {
                ||| keys@[order@[a] as int] > keys@[order@[b] as int]
                ||| (keys@[order@[a] as int] == keys@[order@[b] as int] && order@[a] < order@[b])
            } by {
                if b < p {
                    assert(order@[a] == before[a] && order@[b] == before[b]);
                } else if b == p {
                    assert(order@[a] == before[a]);
                } else if a < p {
                    assert(order@[a] == before[a] && order@[b] == before[b - 1]);
                } else if a == p {
                    assert(order@[b] == before[b - 1]);
                    // Everything from `p` on ranks below `k`.
                    if !(keys@[before[p as int] as int] < k) {
                        assert(false);
                    }
                    assert(keys@[before[p as int] as int] < k);
                    if b - 1 > p {
                        assert(keys@[before[p as int] as int] >= keys@[before[b - 1] as int]);
                    }
                } else {
                    assert(order@[a] == before[a - 1] && order@[b] == before[b - 1]);
                }
            }
            assert forall|a: int| 0 <= a < order@.len() implies #[trigger] order@[a] < i + 1 by {
                if a < p { assert(order@[a] == before[a]); } else if a > p { assert(order@[a] == before[a - 1]); }
            }
        }
        i += 1;
    }
    order
}

/// The ranked positions a job takes: the first `count * 7 / 10` (the best,
/// as far as there are that many), then `count` less that many drawn at
/// random among all (as far as there are that many), distinct among
/// themselves but possibly repeating a best one.
pub fn select_for_job(n: usize, count: usize, rng: &mut ChaCha8Rng) -> (r: Vec<usize>)
    requires
        count <= usize::MAX / 7,
    ensures
        ({
            let top = count * 7 / 10;
            let random = count - top;
            let t = if top < n { top } else { n as int };
            let m = if random < n { random } else { n as int };
            &&& r@.len() == t + m
            &&& forall|i: int| 0 <= i < t ==> #[trigger] r@[i] == i
            &&& forall|i: int| t <= i < r@.len() ==> #[trigger] r@[i] < n
            &&& forall|i: int, j: int| t <= i < j < r@.len() ==> r@[i] != r@[j]
        }),
{
    let top = count * 7 / 10;
    let random = count - top;
    let t = if top < n { top } else { n };
    let mut r: Vec<usize> = Vec::new();
    let mut i: usize = 0;
    while i < t
        invariant
            i <= t,
            r@.len() == i,
            forall|j: int| 0 <= j < i ==> #[trigger] r@[j] == j,
        decreases t - i,
    {
        r.push(i);
        i += 1;
    }
    let m = if random < n { random } else { n };
    let picks = sample_indices(rng, n, m);
    let mut j: usize = 0;
    while j < picks.len()
        invariant
            j <= picks@.len(),
            picks@.len() == m,
            r@.len() == t + j,
            forall|a: int| 0 <= a < t ==> #[trigger] r@[a] == a,
            forall|a: int| 0 <= a < j ==> #[trigger] r@[t + a] == picks@[a],
            forall|a: int| 0 <= a < picks@.len() ==> #[trigger] picks@[a] < n,
            forall|a: int, b: int| 0 <= a < b < picks@.len() ==> picks@[a] != picks@[b],
        decreases picks@.len() - j,
    {
        r.push(picks[j]);
        j += 1;
    }
    proof {
        assert forall|a: int| t <= a < r@.len() implies #[trigger] r@[a] < n by {
            assert(r@[t + (a - t)] == picks@[a - t]);
        }
        assert forall|a: int, b: int| t <= a < b < r@.len() implies r@[a] != r@[b] by {
            assert(r@[t + (a - t)] == picks@[a - t]);
            assert(r@[t + (b - t)] == picks@[b - t]);
        }
    }
    r
}

/// How many genomes a job carries.
pub const GENOMES_PER_JOB: usize = 10;

/// How many lineages must be known before a selection round.
pub const MIN_LINEAGES_FOR_SELECTION: usize = 20;

/// How many children a selection round tries to breed.
pub const OFFSPRING_PER_SELECTION: usize = 10;

/// A selection round follows a result once enough lineages are known.
pub fn selection_due(num_lineages: usize) -> (r: bool)
    ensures
        r == (num_lineages >= MIN_LINEAGES_FOR_SELECTION),
{
    num_lineages >= MIN_LINEAGES_FOR_SELECTION
}

/// How many children a selection round breeds from this many survivors:
/// ten from at least two, none otherwise.
pub fn breeding_rounds(num_survivors: usize) -> (r: usize)
    ensures
        r == (if num_survivors >= 2 { OFFSPRING_PER_SELECTION } else { 0 }),
{
    if num_survivors >= 2 { OFFSPRING_PER_SELECTION } else { 0 }
}

/// The lineages that survive a selection: the better half by rank.
pub fn select_survivors(keys: &Vec<u64>) -> (r: Vec<usize>)
    ensures
        r@.len() == keys@.len() / 2,
        exists|order: Seq<usize>| ranked(keys@, order) && r@ == order.take((keys@.len() / 2) as int),
{
    let order = rank_by_fitness(keys);
    let keep = keys.len() / 2;
    let mut r: Vec<usize> = Vec::new();
    let mut i: usize = 0;
    while i < keep
        invariant
            keep == keys@.len() / 2,
            order@.len() == keys@.len(),
            i <= keep,
            r@ == order@.take(i as int),
        decreases keep - i,
    {
        r.push(order[i]);
        i += 1;
        assert(r@ =~= order@.take(i as int));
    }
    r
}

/// Two parents drawn at random among `n` survivors.
pub fn pick_parents(rng: &mut ChaCha8Rng, n: usize) -> (r: (usize, usize))
    requires
        n > 0,
    ensures
        r.0 < n,
        r.1 < n,
{
    let a = gen_range_usize(rng, 0, n);
    let b = gen_range_usize(rng, 0, n);
    (a, b)
}

/// A child of two genomes: their crossover, then mutated. Genomes with
/// float immediates are refused: this library cannot mutate them.
pub fn breed(mutator: &Mutator, parent1: &Program, parent2: &Program, rng: &mut ChaCha8Rng) -> (r: Result<Program, Error>)
    requires
        parent1@.functions.len() + parent2@.functions.len() <= usize::MAX,
        mutator.config.max_functions < usize::MAX,
    ensures
        r is Err <==> !(program_without_floats(parent1@) && program_without_floats(parent2@)),
        r is Err ==> r matches Err(Error::Other(_)),
        r matches Ok(child) ==> exists|c: ProgramModel| {
            &&& #[trigger] is_crossover(parent1@, parent2@, mutator.config.max_functions as int, c)
            &&& program_mutation_of(c, child@, mutator.config)
            &&& (spec_validate(c.functions) is Ok ==> spec_validate(child@.functions) is Ok)
        },
{
    if !program_float_free(parent1) || !program_float_free(parent2) {
        return Err(Error::Other("float immediates cannot be mutated".to_string()));
    }
    let mut child = mutator.crossover(parent1, parent2, rng);
    let ghost crossed = child@;
    proof {
        assert forall|i: int| 0 <= i < child@.functions.len() implies
            crate::ir::mutation::function_without_floats(#[trigger] child@.functions[i]) by {
            let f = child@.functions[i];
            if f == crossover_pick(parent1@.functions, parent2@.functions, i, true) {
                if i < parent1@.functions.len() {
                    assert(crate::ir::mutation::function_without_floats(parent1@.functions[i]));
                } else {
                    assert(crate::ir::mutation::function_without_floats(parent2@.functions[i % (parent2@.functions.len() as int)]));
                }
            } else {
                if i < parent2@.functions.len() {
                    assert(crate::ir::mutation::function_without_floats(parent2@.functions[i]));
                } else {
                    assert(crate::ir::mutation::function_without_floats(parent1@.functions[i % (parent1@.functions.len() as int)]));
                }
            }
        }
    }
    mutator.mutate(&mut child, rng);
    assert(is_crossover(parent1@, parent2@, mutator.config.max_functions as int, crossed));
    Ok(child)
}

} // verus!
