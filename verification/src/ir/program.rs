//! Program structure of an organism genome: functions made of basic blocks.

use vstd::prelude::*;
use crate::ir::instruction::{Instruction, InstructionModel};

verus! {

/// A basic block is a sequence of instructions with no internal control flow.
#[derive(Debug)]
pub struct BasicBlock {
    pub instructions: Vec<Instruction>,
}

/// The instructions of a sequence of blocks, each as its model.
pub open spec fn instructions_model(v: Seq<Instruction>) -> Seq<InstructionModel> {
    v.map_values(|i: Instruction| i@)
}

impl View for BasicBlock {
    type V = Seq<InstructionModel>;

    open spec fn view(&self) -> Seq<InstructionModel> {
        instructions_model(self.instructions@)
    }
}

/// A copy of a list of instructions with the same models.
pub fn clone_instructions(v: &Vec<Instruction>) -> (r: Vec<Instruction>)
    ensures
        instructions_model(r@) == instructions_model(v@),
{
    let mut out: Vec<Instruction> = Vec::new();
    let mut i: usize = 0;
    while i < v.len()
        invariant
            i <= v@.len(),
            out@.len() == i,
            forall|k: int| 0 <= k < i ==> #[trigger] out@[k]@ == v@[k]@,
        decreases v@.len() - i,
    {
        let c = v[i].clone();
        out.push(c);
        i += 1;
    }
    assert(instructions_model(out@) =~= instructions_model(v@));
    out
}

impl Clone for BasicBlock {
    fn clone(&self) -> (r: Self)
        ensures
            r@ == self@,
    {
        BasicBlock { instructions: clone_instructions(&self.instructions) }
    }
}

impl BasicBlock {
    pub fn new() -> (r: BasicBlock)
        ensures
            r@ == Seq::<InstructionModel>::empty(),
    {
        let r = BasicBlock { instructions: Vec::new() };
        assert(r@ =~= Seq::<InstructionModel>::empty());
        r
    }

    pub fn with_instructions(instructions: Vec<Instruction>) -> (r: BasicBlock)
        ensures
            r@ == instructions_model(instructions@),
    {
        BasicBlock { instructions }
    }

    pub fn add_instruction(&mut self, inst: Instruction)
        ensures
            final(self)@ == old(self)@.push(inst@),
    {
        self.instructions.push(inst);
        assert(self@ =~= old(self)@.push(inst@));
    }

    pub fn is_empty(&self) -> (r: bool)
        ensures
            r == (self@.len() == 0),
    {
        self.instructions.len() == 0
    }

    pub fn len(&self) -> (r: usize)
        ensures
            r == self@.len(),
    {
        self.instructions.len()
    }
}

impl Default for BasicBlock {
    fn default() -> (r: Self)
        ensures
            r@ == Seq::<InstructionModel>::empty(),
    {
        BasicBlock::new()
    }
}

/// The return type of a function.
#[derive(Debug, Clone, Copy, PartialEq, Eq, Structural)]
pub enum ReturnType {
    Void,
    Int,
}

/// A function contains multiple basic blocks.
#[derive(Debug)]
pub struct Function {
    pub name: String,
    pub num_params: usize,
    pub num_locals: usize,
    pub blocks: Vec<BasicBlock>,
    pub return_type: ReturnType,
}

/// The mathematical content of a function.
pub ghost struct FunctionModel {
    pub name: Seq<char>,
    pub num_params: usize,
    pub num_locals: usize,
    pub blocks: Seq<Seq<InstructionModel>>,
    pub return_type: ReturnType,
}

/// The models of a sequence of blocks.
pub open spec fn blocks_model(v: Seq<BasicBlock>) -> Seq<Seq<InstructionModel>> {
    v.map_values(|b: BasicBlock| b@)
}

impl View for Function {
    type V = FunctionModel;

    open spec fn view(&self) -> FunctionModel {
        FunctionModel {
            name: self.name@,
            num_params: self.num_params,
            num_locals: self.num_locals,
            blocks: blocks_model(self.blocks@),
            return_type: self.return_type,
        }
    }
}

/// Replacing one block replaces its model.
pub proof fn lemma_blocks_model_update(s: Seq<BasicBlock>, i: int)
    requires
        0 <= i < s.len(),
    ensures
        forall|x: BasicBlock| #[trigger] blocks_model(s.update(i, x)) == blocks_model(s).update(i, x@),
{
    assert forall|x: BasicBlock| #[trigger] blocks_model(s.update(i, x)) == blocks_model(s).update(i, x@) by {
        assert(blocks_model(s.update(i, x)) =~= blocks_model(s).update(i, x@));
    }
}

/// Total number of instructions in a sequence of blocks.
pub open spec fn count_instructions(blocks: Seq<Seq<InstructionModel>>) -> int
    decreases blocks.len(),
{
    if blocks.len() == 0 {
        0
    } else {
        count_instructions(blocks.drop_last()) + blocks.last().len()
    }
}

impl Clone for Function {
    fn clone(&self) -> (r: Self)
        ensures
            r@ == self@,
    {
        let mut blocks: Vec<BasicBlock> = Vec::new();
        let mut i: usize = 0;
        while i < self.blocks.len()
            invariant
                i <= self.blocks@.len(),
                blocks@.len() == i,
                forall|k: int| 0 <= k < i ==> #[trigger] blocks@[k]@ == self.blocks@[k]@,
            decreases self.blocks@.len() - i,
        {
            let b = self.blocks[i].clone();
            blocks.push(b);
            i += 1;
        }
        assert(blocks_model(blocks@) =~= blocks_model(self.blocks@));
        Function {
            name: self.name.clone(),
            num_params: self.num_params,
            num_locals: self.num_locals,
            blocks,
            return_type: self.return_type,
        }
    }
}

impl Function {
    /// A function with one empty block and no locals.
    pub fn new(name: String, num_params: usize, return_type: ReturnType) -> (r: Function)
        ensures
            r@ == (FunctionModel {
                name: name@,
                num_params,
                num_locals: 0,
                blocks: seq![Seq::<InstructionModel>::empty()],
                return_type,
            }),
    {
        let mut blocks: Vec<BasicBlock> = Vec::new();
        blocks.push(BasicBlock::new());
        let r = Function { name, num_params, num_locals: 0, blocks, return_type };
        assert(r@.blocks =~= seq![Seq::<InstructionModel>::empty()]);
        r
    }

    /// Append a block and return its index.
    pub fn add_block(&mut self, block: BasicBlock) -> (r: u32)
        requires
            old(self).blocks@.len() < usize::MAX,
        ensures
            final(self)@ == (FunctionModel { blocks: old(self)@.blocks.push(block@), ..old(self)@ }),
            r == old(self).blocks@.len() as u32,
    {
        self.blocks.push(block);
        assert(blocks_model(self.blocks@) =~= blocks_model(old(self).blocks@).push(block@));
        (self.blocks.len() - 1) as u32
    }

    /// The block at an index, for update.
    pub fn get_block_mut(&mut self, index: usize) -> (r: Option<&mut BasicBlock>)
        ensures
            index < old(self).blocks@.len() <==> r is Some,
            r is None ==> final(self)@ == old(self)@,
            r is Some ==> *r->0 == old(self).blocks@[index as int] && final(self)@ == (FunctionModel {
                blocks: old(self)@.blocks.update(index as int, (*final(r->0))@),
                ..old(self)@
            }),
    {
        if index < self.blocks.len() {
            proof {
                lemma_blocks_model_update(self.blocks@, index as int);
            }
            let b = &mut self.blocks[index];
            Some(b)
        } else {
            None
        }
    }

    pub fn num_blocks(&self) -> (r: usize)
        ensures
            r == self@.blocks.len(),
    {
        self.blocks.len()
    }

    /// Count total instructions in the function.
    pub fn instruction_count(&self) -> (r: usize)
        requires
            count_instructions(self@.blocks) <= usize::MAX,
        ensures
            r == count_instructions(self@.blocks),
    {
        let mut total: usize = 0;
        let mut i: usize = 0;
        while i < self.blocks.len()
            invariant
                i <= self.blocks@.len(),
                count_instructions(self@.blocks) <= usize::MAX,
                total == count_instructions(self@.blocks.subrange(0, i as int)),
            decreases self.blocks@.len() - i,
        {
            proof {
                let bs = self@.blocks;
                assert(bs.subrange(0, i + 1).drop_last() == bs.subrange(0, i as int));
                lemma_count_prefix_le(bs, i + 1);
            }
            total = total + self.blocks[i].len();
            i += 1;
        }
        assert(self@.blocks.subrange(0, i as int) == self@.blocks);
        total
    }
}

/// Counting instructions of a prefix gives at most the whole count.
pub proof fn lemma_count_prefix_le(bs: Seq<Seq<InstructionModel>>, i: int)
    requires
        0 <= i <= bs.len(),
    ensures
        0 <= count_instructions(bs.subrange(0, i)) <= count_instructions(bs),
    decreases bs.len(),
{
    if i == bs.len() {
        assert(bs.subrange(0, i) == bs);
        lemma_count_nonneg(bs);
    } else {
        lemma_count_prefix_le(bs.drop_last(), i);
        assert(bs.drop_last().subrange(0, i) == bs.subrange(0, i));
    }
}

/// Instruction counts are never negative.
pub proof fn lemma_count_nonneg(bs: Seq<Seq<InstructionModel>>)
    ensures
        count_instructions(bs) >= 0,
    decreases bs.len(),
{
    if bs.len() > 0 {
        lemma_count_nonneg(bs.drop_last());
    }
}

/// A complete organism program (genome).
#[derive(Debug)]
pub struct Program {
    pub functions: Vec<Function>,
    pub memory_size: usize,
    pub version: u32,
}

/// The mathematical content of a program.
pub ghost struct ProgramModel {
    pub functions: Seq<FunctionModel>,
    pub memory_size: usize,
    pub version: u32,
}

/// The models of a sequence of functions.
pub open spec fn functions_model(v: Seq<Function>) -> Seq<FunctionModel> {
    v.map_values(|f: Function| f@)
}

impl View for Program {
    type V = ProgramModel;

    open spec fn view(&self) -> ProgramModel {
        ProgramModel {
            functions: functions_model(self.functions@),
            memory_size: self.memory_size,
            version: self.version,
        }
    }
}

/// Replacing one function replaces its model.
pub proof fn lemma_functions_model_update(s: Seq<Function>, i: int)
    requires
        0 <= i < s.len(),
    ensures
        forall|x: Function| #[trigger] functions_model(s.update(i, x)) == functions_model(s).update(i, x@),
{
    assert forall|x: Function| #[trigger] functions_model(s.update(i, x)) == functions_model(s).update(i, x@) by {
        assert(functions_model(s.update(i, x)) =~= functions_model(s).update(i, x@));
    }
}

/// Index of the first function with the given name.
pub open spec fn first_named(fs: Seq<FunctionModel>, name: Seq<char>) -> Option<int>
    decreases fs.len(),
{
    if fs.len() == 0 {
        None
    } else if fs[0].name == name {
        Some(0)
    } else {
        match first_named(fs.drop_first(), name) {
            Some(i) => Some(i + 1),
            None => None,
        }
    }
}

/// Total number of instructions in a program.
pub open spec fn total_instructions(fs: Seq<FunctionModel>) -> int
    decreases fs.len(),
{
    if fs.len() == 0 {
        0
    } else {
        total_instructions(fs.drop_last()) + count_instructions(fs.last().blocks)
    }
}

/// Whether a string equals a literal.
pub fn name_is(name: &String, literal: &str) -> (r: bool)
    ensures
        r == (name@ == literal@),
{
    let other = literal.to_owned();
    *name == other
}

impl Clone for Program {
    fn clone(&self) -> (r: Self)
        ensures
            r@ == self@,
    {
        let mut functions: Vec<Function> = Vec::new();
        let mut i: usize = 0;
        while i < self.functions.len()
            invariant
                i <= self.functions@.len(),
                functions@.len() == i,
                forall|k: int| 0 <= k < i ==> #[trigger] functions@[k]@ == self.functions@[k]@,
            decreases self.functions@.len() - i,
        {
            let f = self.functions[i].clone();
            functions.push(f);
            i += 1;
        }
        assert(functions_model(functions@) =~= functions_model(self.functions@));
        Program { functions, memory_size: self.memory_size, version: self.version }
    }
}

impl Program {
    /// An empty program: no functions, 256 words of memory, version 1.
    pub fn new() -> (r: Program)
        ensures
            r@ == (ProgramModel { functions: seq![], memory_size: 256, version: 1 }),
            r.functions@.len() == 0,
    {
        let r = Program { functions: Vec::new(), memory_size: 256, version: 1 };
        assert(r@.functions =~= seq![]);
        r
    }

    pub fn with_functions(functions: Vec<Function>) -> (r: Program)
        ensures
            r@ == (ProgramModel { functions: functions_model(functions@), memory_size: 256, version: 1 }),
    {
        Program { functions, memory_size: 256, version: 1 }
    }

    /// Append a function and return its index.
    pub fn add_function(&mut self, function: Function) -> (r: u32)
        requires
            old(self)@.functions.len() < usize::MAX,
        ensures
            final(self)@ == (ProgramModel { functions: old(self)@.functions.push(function@), ..old(self)@ }),
            r == old(self).functions@.len() as u32,
    {
        self.functions.push(function);
        assert(functions_model(self.functions@) =~= functions_model(old(self).functions@).push(function@));
        (self.functions.len() - 1) as u32
    }

    pub fn get_function(&self, index: usize) -> (r: Option<&Function>)
        ensures
            index < self.functions@.len() <==> r is Some,
            r matches Some(f) ==> f@ == self@.functions[index as int],
    {
        if index < self.functions.len() {
            Some(&self.functions[index])
        } else {
            None
        }
    }

    pub fn get_function_mut(&mut self, index: usize) -> (r: Option<&mut Function>)
        ensures
            index < old(self).functions@.len() <==> r is Some,
            r is None ==> final(self)@ == old(self)@,
            r is Some ==> *r->0 == old(self).functions@[index as int] && final(self)@ == (ProgramModel {
                functions: old(self)@.functions.update(index as int, (*final(r->0))@),
                ..old(self)@
            }),
    {
        if index < self.functions.len() {
            proof {
                lemma_functions_model_update(self.functions@, index as int);
            }
            let f = &mut self.functions[index];
            Some(f)
        } else {
            None
        }
    }

    pub fn num_functions(&self) -> (r: usize)
        ensures
            r == self@.functions.len(),
    {
        self.functions.len()
    }

    /// The first function with the given name.
    fn find_function(&self, name: &str) -> (r: Option<&Function>)
        ensures
            match first_named(self@.functions, name@) {
                Some(i) => r matches Some(f) && f@ == self@.functions[i],
                None => r is None,
            },
    {
        let mut i: usize = 0;
        assert(self@.functions.subrange(0, self@.functions.len() as int) == self@.functions);
        while i < self.functions.len()
            invariant
                i <= self.functions@.len(),
                first_named(self@.functions, name@) == match first_named(self@.functions.subrange(i as int, self@.functions.len() as int), name@) {
                    Some(j) => Some(j + i),
                    None => None::<int>,
                },
            decreases self.functions@.len() - i,
        {
            let ghost fs = self@.functions;
            proof {
                let rest = fs.subrange(i as int, fs.len() as int);
                assert(rest.drop_first() == fs.subrange(i + 1, fs.len() as int));
                assert(rest[0] == fs[i as int]);
            }
            if name_is(&self.functions[i].name, name) {
                return Some(&self.functions[i]);
            }
            i += 1;
        }
        proof {
            assert(self@.functions.subrange(i as int, self@.functions.len() as int).len() == 0);
        }
        None
    }

    /// Find the main step function (required).
    pub fn get_step_function(&self) -> (r: Option<&Function>)
        ensures
            match first_named(self@.functions, "step"@) {
                Some(i) => r matches Some(f) && f@ == self@.functions[i],
                None => r is None,
            },
    {
        self.find_function("step")
    }

    /// Find the init function (required).
    pub fn get_init_function(&self) -> (r: Option<&Function>)
        ensures
            match first_named(self@.functions, "init"@) {
                Some(i) => r matches Some(f) && f@ == self@.functions[i],
                None => r is None,
            },
    {
        self.find_function("init")
    }

    /// Count total instructions in the program.
    pub fn total_instructions(&self) -> (r: usize)
        requires
            total_instructions(self@.functions) <= usize::MAX,
        ensures
            r == total_instructions(self@.functions),
    {
        let mut total: usize = 0;
        let mut i: usize = 0;
        while i < self.functions.len()
            invariant
                i <= self.functions@.len(),
                total_instructions(self@.functions) <= usize::MAX,
                total == total_instructions(self@.functions.subrange(0, i as int)),
            decreases self.functions@.len() - i,
        {
            proof {
                let fs = self@.functions;
                assert(fs.subrange(0, i + 1).drop_last() == fs.subrange(0, i as int));
                lemma_total_prefix_le(fs, i + 1);
            }
            total = total + self.functions[i].instruction_count();
            i += 1;
        }
        assert(self@.functions.subrange(0, i as int) == self@.functions);
        total
    }
}

/// Counting instructions of a prefix of functions gives at most the whole count.
pub proof fn lemma_total_prefix_le(fs: Seq<FunctionModel>, i: int)
    requires
        0 <= i <= fs.len(),
    ensures
        0 <= total_instructions(fs.subrange(0, i)) <= total_instructions(fs),
        i > 0 ==> count_instructions(fs[i - 1].blocks) <= total_instructions(fs),
    decreases fs.len(),
{
    if i == fs.len() {
        assert(fs.subrange(0, i) == fs);
        lemma_total_nonneg(fs);
        if i > 0 {
            lemma_total_nonneg(fs.drop_last());
        }
    } else {
        lemma_total_prefix_le(fs.drop_last(), i);
        assert(fs.drop_last().subrange(0, i) == fs.subrange(0, i));
        lemma_count_nonneg(fs.last().blocks);
    }
}

/// Program instruction counts are never negative.
pub proof fn lemma_total_nonneg(fs: Seq<FunctionModel>)
    ensures
        total_instructions(fs) >= 0,
    decreases fs.len(),
{
    if fs.len() > 0 {
        lemma_total_nonneg(fs.drop_last());
        lemma_count_nonneg(fs.last().blocks);
    }
}

impl Default for Program {
    fn default() -> (r: Self)
        ensures
            r@ == (ProgramModel { functions: seq![], memory_size: 256, version: 1 }),
    {
        Program::new()
    }
}

} // verus!
