//! Compiler from the genome IR to WebAssembly.

use vstd::prelude::*;
use crate::error::Error;
use wasm_encoder::Function as FunctionBody;
use crate::ir::instruction::{Instruction, InstructionModel, Opcode, Operand, Register};
use crate::ir::program::{Function, FunctionModel, Program, ProgramModel, name_is};
use crate::ir::wasm::{
    ArithOp, CompareOp, ExportKindModel, LocalOp, MiscOp, SectionModel, ValTy, WasmOp,
    code_add, code_new, emit_arith, emit_compare, emit_local, emit_misc, encode_module, exports_add,
    exports_new, function_locals, function_new, function_ops, functions_add, functions_new,
    imports_add_function, imports_new, import_section_entries, memories_add, memories_new,
    module_add_code, module_add_exports, module_add_functions, module_add_imports,
    module_add_memories, module_add_types, module_finish, module_new, module_sections,
    type_section_entries, types_add_function, types_new, function_section_entries,
    export_section_entries, code_section_entries, memory_section_entries,
};

verus! {

/// Compiler settings.
#[derive(Debug, Clone, Copy)]
pub struct CompilerConfig {
    pub max_memory_pages: u32,
    pub import_memory: bool,
}

impl Default for CompilerConfig {
    /// One page (64 KiB) of memory at most, memory defined by the module.
    fn default() -> (r: Self)
        ensures
            r.max_memory_pages == 1,
            !r.import_memory,
    {
        CompilerConfig { max_memory_pages: 1, import_memory: false }
    }
}

/// The compiler from the genome IR to WebAssembly.
pub struct Compiler {
    pub config: CompilerConfig,
}

// ---------------------------------------------------------------------------
// What the compiler emits, stated over the program model.

/// The store to the destination register, if there is one.
pub open spec fn dest_ops(dest: Option<Register>) -> Seq<WasmOp> {
    match dest {
        Some(r) => seq![WasmOp::Local(LocalOp::LocalSet, r.0 as u32)],
        None => seq![],
    }
}

/// The push of one operand: registers are read, immediates pushed as
/// `i32` constants, block and function indices ignored.
pub open spec fn operand_ops(o: Operand) -> Seq<WasmOp> {
    match o {
        Operand::Register(r) => seq![WasmOp::Local(LocalOp::LocalGet, r.0 as u32)],
        Operand::Immediate(v) => seq![WasmOp::Misc(MiscOp::I32Const(v.spec_as_i32()))],
        _ => seq![],
    }
}

/// The pushes of all operands, in order.
pub open spec fn operands_ops(os: Seq<Operand>) -> Seq<WasmOp>
    decreases os.len(),
{
    if os.len() == 0 {
        seq![]
    } else {
        operands_ops(os.drop_last()) + operand_ops(os.last())
    }
}

/// The index of each host import, by name (unknown names get 0).
pub open spec fn spec_import_index(name: Seq<char>) -> u32 {
    if name == "env_read"@ {
        0
    } else if name == "get_energy"@ {
        1
    } else if name == "get_age"@ {
        2
    } else if name == "move_dir"@ {
        3
    } else if name == "eat"@ {
        4
    } else if name == "attack"@ {
        5
    } else if name == "sense_neighbor"@ {
        6
    } else if name == "try_reproduce"@ {
        7
    } else if name == "emit_signal"@ {
        8
    } else {
        0
    }
}

/// Operands, one instruction, then the store to the destination.
pub open spec fn unary_shape(i: InstructionModel, op: WasmOp) -> Seq<WasmOp> {
    operands_ops(i.operands).push(op) + dest_ops(i.dest)
}

/// Operands, a call of the named host import, then the store to the destination.
pub open spec fn host_call_shape(i: InstructionModel, import: Seq<char>) -> Seq<WasmOp> {
    unary_shape(i, WasmOp::Misc(MiscOp::Call(spec_import_index(import))))
}

/// A call of the named host import without arguments, then the store to
/// the destination; operands are not loaded.
pub open spec fn plain_call_shape(i: InstructionModel, import: Seq<char>) -> Seq<WasmOp> {
    seq![WasmOp::Misc(MiscOp::Call(spec_import_index(import)))] + dest_ops(i.dest)
}

/// `|x|` computed with local 0 as scratch: `(x ^ (x >> 31)) - (x >> 31)`.
pub open spec fn abs_ops() -> Seq<WasmOp> {
    seq![
        WasmOp::Local(LocalOp::LocalTee, 0),
        WasmOp::Misc(MiscOp::I32Const(31)),
        WasmOp::Arith(ArithOp::I32ShrS),
        WasmOp::Local(LocalOp::LocalGet, 0),
        WasmOp::Arith(ArithOp::I32Xor),
        WasmOp::Local(LocalOp::LocalGet, 0),
        WasmOp::Misc(MiscOp::I32Const(31)),
        WasmOp::Arith(ArithOp::I32ShrS),
        WasmOp::Arith(ArithOp::I32Sub),
    ]
}

/// Minimum or maximum with locals 0 and 1 as scratch: `select(a, b, a <op> b)`.
pub open spec fn select_ops(test: CompareOp) -> Seq<WasmOp> {
    seq![
        WasmOp::Local(LocalOp::LocalSet, 1),
        WasmOp::Local(LocalOp::LocalSet, 0),
        WasmOp::Local(LocalOp::LocalGet, 0),
        WasmOp::Local(LocalOp::LocalGet, 1),
        WasmOp::Local(LocalOp::LocalGet, 0),
        WasmOp::Local(LocalOp::LocalGet, 1),
        WasmOp::Compare(test),
        WasmOp::Misc(MiscOp::Select),
    ]
}

/// The WebAssembly that one IR instruction compiles to. Branches, calls,
/// loads and stores compile to nothing.
pub open spec fn instruction_ops(i: InstructionModel) -> Seq<WasmOp> {
    let load = operands_ops(i.operands);
    let dest = dest_ops(i.dest);
    match i.opcode {
        Opcode::Add => unary_shape(i, WasmOp::Arith(ArithOp::I32Add)),
        Opcode::Sub => unary_shape(i, WasmOp::Arith(ArithOp::I32Sub)),
        Opcode::Mul => unary_shape(i, WasmOp::Arith(ArithOp::I32Mul)),
        Opcode::Div => unary_shape(i, WasmOp::Arith(ArithOp::I32DivS)),
        Opcode::Mod => unary_shape(i, WasmOp::Arith(ArithOp::I32RemS)),
        Opcode::Eq => unary_shape(i, WasmOp::Compare(CompareOp::I32Eq)),
        Opcode::Ne => unary_shape(i, WasmOp::Compare(CompareOp::I32Ne)),
        Opcode::Lt => unary_shape(i, WasmOp::Compare(CompareOp::I32LtS)),
        Opcode::Le => unary_shape(i, WasmOp::Compare(CompareOp::I32LeS)),
        Opcode::Gt => unary_shape(i, WasmOp::Compare(CompareOp::I32GtS)),
        Opcode::Ge => unary_shape(i, WasmOp::Compare(CompareOp::I32GeS)),
        Opcode::And => unary_shape(i, WasmOp::Arith(ArithOp::I32And)),
        Opcode::Or => unary_shape(i, WasmOp::Arith(ArithOp::I32Or)),
        Opcode::Xor => unary_shape(i, WasmOp::Arith(ArithOp::I32Xor)),
        Opcode::Not => unary_shape(i, WasmOp::Compare(CompareOp::I32Eqz)),
        Opcode::Neg => seq![WasmOp::Misc(MiscOp::I32Const(0))] + unary_shape(i, WasmOp::Arith(ArithOp::I32Sub)),
        Opcode::Abs => load + abs_ops() + dest,
        Opcode::Min => load + select_ops(CompareOp::I32LtS) + dest,
        Opcode::Max => load + select_ops(CompareOp::I32GtS) + dest,
        Opcode::LoadConst => match (if i.operands.len() > 0 { Some(i.operands[0]) } else { None }) {
            Some(Operand::Immediate(v)) => seq![WasmOp::Misc(MiscOp::I32Const(v.spec_as_i32()))] + dest,
            _ => seq![],
        },
        Opcode::Return => load.push(WasmOp::Misc(MiscOp::Return)),
        Opcode::GetEnergy => plain_call_shape(i, "get_energy"@),
        Opcode::GetAge => plain_call_shape(i, "get_age"@),
        Opcode::Move => host_call_shape(i, "move_dir"@),
        Opcode::Eat => plain_call_shape(i, "eat"@),
        Opcode::SenseEnv => host_call_shape(i, "env_read"@),
        Opcode::SenseNeighbor => host_call_shape(i, "sense_neighbor"@),
        Opcode::Attack => host_call_shape(i, "attack"@),
        Opcode::Reproduce => plain_call_shape(i, "try_reproduce"@),
        Opcode::EmitSignal => load.push(WasmOp::Misc(MiscOp::Call(spec_import_index("emit_signal"@)))),
        Opcode::Branch | Opcode::BranchIf | Opcode::Call | Opcode::Load | Opcode::Store => seq![],
    }
}

/// The WebAssembly of a sequence of instructions.
pub open spec fn block_ops(b: Seq<InstructionModel>) -> Seq<WasmOp>
    decreases b.len(),
{
    if b.len() == 0 {
        seq![]
    } else {
        block_ops(b.drop_last()) + instruction_ops(b.last())
    }
}

/// The WebAssembly of a sequence of blocks, laid out one after the other.
pub open spec fn blocks_ops(bs: Seq<Seq<InstructionModel>>) -> Seq<WasmOp>
    decreases bs.len(),
{
    if bs.len() == 0 {
        seq![]
    } else {
        blocks_ops(bs.drop_last()) + block_ops(bs.last())
    }
}

/// The instructions of a function body: all blocks, then `end`.
pub open spec fn body_ops(f: FunctionModel) -> Seq<WasmOp> {
    blocks_ops(f.blocks).push(WasmOp::Misc(MiscOp::End))
}

/// The local declarations of a function body: its locals, all `i32`.
pub open spec fn body_locals(f: FunctionModel) -> Seq<(u32, ValTy)> {
    if f.num_locals > 0 { seq![(f.num_locals as u32, ValTy::I32)] } else { seq![] }
}

/// The signature index of a defined function: `init` has `(i64) -> ()`,
/// every other function `(i32) -> i32`.
pub open spec fn function_type_index(f: FunctionModel) -> u32 {
    if f.name == "init"@ { 0 } else { 1 }
}

/// Signatures: `init`, `step`, then one per host import.
pub open spec fn module_types() -> Seq<(Seq<ValTy>, Seq<ValTy>)> {
    seq![
        (seq![ValTy::I64], seq![]),
        (seq![ValTy::I32], seq![ValTy::I32]),
        (seq![ValTy::I32, ValTy::I32], seq![ValTy::I32]),
        (seq![], seq![ValTy::I32]),
        (seq![], seq![ValTy::I32]),
        (seq![ValTy::I32, ValTy::I32], seq![ValTy::I32]),
        (seq![], seq![ValTy::I32]),
        (seq![ValTy::I32, ValTy::I32], seq![ValTy::I32]),
        (seq![ValTy::I32], seq![ValTy::I32]),
        (seq![], seq![ValTy::I32]),
        (seq![ValTy::I32, ValTy::I32], seq![]),
    ]
}

/// The host imports of the organism ABI, all from module `env`.
pub open spec fn module_imports() -> Seq<(Seq<char>, Seq<char>, u32)> {
    seq![
        ("env"@, "env_read"@, 2u32),
        ("env"@, "get_energy"@, 3u32),
        ("env"@, "get_age"@, 4u32),
        ("env"@, "move_dir"@, 5u32),
        ("env"@, "eat"@, 6u32),
        ("env"@, "attack"@, 7u32),
        ("env"@, "sense_neighbor"@, 8u32),
        ("env"@, "try_reproduce"@, 9u32),
        ("env"@, "emit_signal"@, 10u32),
    ]
}

/// The exports: every function under its name, after the imports, then the memory.
pub open spec fn module_exports(fs: Seq<FunctionModel>) -> Seq<(Seq<char>, ExportKindModel, u32)> {
    Seq::new(fs.len(), |i: int| (fs[i].name, ExportKindModel::Func, (9 + i) as u32))
        .push(("memory"@, ExportKindModel::Memory, 0u32))
}

/// The module the compiler builds for a program.
pub open spec fn module_model(p: ProgramModel, config: CompilerConfig) -> Seq<SectionModel> {
    seq![
        SectionModel::Types(module_types()),
        SectionModel::Imports(module_imports()),
        SectionModel::Functions(Seq::new(p.functions.len(), |i: int| function_type_index(p.functions[i]))),
        SectionModel::Memories(seq![(1u64, Some(config.max_memory_pages as u64))]),
        SectionModel::Exports(module_exports(p.functions)),
        SectionModel::Code(Seq::new(p.functions.len(), |i: int| (body_locals(p.functions[i]), body_ops(p.functions[i])))),
    ]
}

/// A program the encoder can take: few enough functions to index with
/// `u32`, and names short enough for the encoder's length prefixes.
pub open spec fn compilable(p: ProgramModel) -> bool {
    &&& p.functions.len() <= u32::MAX - 9
    &&& forall|i: int| 0 <= i < p.functions.len() ==> (#[trigger] p.functions[i].name).len() <= 0x3fff_ffff
}

/// Whether the encoder can take a program (see `compilable`).
pub fn program_compilable(p: &Program) -> (r: bool)
    ensures
        r == compilable(p@),
{
    if p.functions.len() > 4294967286 {
        return false;
    }
    let mut i: usize = 0;
    while i < p.functions.len()
        invariant
            i <= p.functions@.len(),
            p@.functions.len() <= u32::MAX - 9,
            forall|j: int| 0 <= j < i ==> (#[trigger] p@.functions[j].name).len() <= 0x3fff_ffff,
        decreases p.functions@.len() - i,
    {
        assert(p@.functions[i as int].name == p.functions@[i as int].name@);
        if p.functions[i].name.as_str().unicode_len() > 0x3fff_ffff {
            return false;
        }
        i += 1;
    }
    true
}

/// The named host imports have the indices the import section gives them.
pub proof fn lemma_import_indices()
    ensures
        spec_import_index("env_read"@) == 0,
        spec_import_index("get_energy"@) == 1,
        spec_import_index("get_age"@) == 2,
        spec_import_index("move_dir"@) == 3,
        spec_import_index("eat"@) == 4,
        spec_import_index("attack"@) == 5,
        spec_import_index("sense_neighbor"@) == 6,
        spec_import_index("try_reproduce"@) == 7,
        spec_import_index("emit_signal"@) == 8,
        forall|k: int| 0 <= k < 9 ==> spec_import_index(#[trigger] module_imports()[k].1) == k,
{
    reveal_strlit("env_read");
    reveal_strlit("get_energy");
    reveal_strlit("get_age");
    reveal_strlit("move_dir");
    reveal_strlit("eat");
    reveal_strlit("attack");
    reveal_strlit("sense_neighbor");
    reveal_strlit("try_reproduce");
    reveal_strlit("emit_signal");
    assert("env_read"@.len() == 8 && "get_energy"@.len() == 10 && "get_age"@.len() == 7);
    assert("move_dir"@.len() == 8 && "eat"@.len() == 3 && "attack"@.len() == 6);
    assert("sense_neighbor"@.len() == 14 && "try_reproduce"@.len() == 13 && "emit_signal"@.len() == 11);
    assert("move_dir"@[0] != "env_read"@[0]);
    assert(module_imports()[0].1 == "env_read"@);
}

/// Compilation is deterministic: equal programs compiled with equal
/// settings give the same module, hence the same bytes.
pub proof fn lemma_compile_deterministic(p1: ProgramModel, p2: ProgramModel, c1: CompilerConfig, c2: CompilerConfig)
    requires
        p1 == p2,
        c1 == c2,
    ensures
        module_model(p1, c1) == module_model(p2, c2),
        encode_module(module_model(p1, c1)) == encode_module(module_model(p2, c2)),
{
}

impl Compiler {
    pub fn new(config: CompilerConfig) -> (r: Compiler)
        ensures
            r.config == config,
    {
        Compiler { config }
    }

    /// Compile a program to a WebAssembly module: an `init` signature
    /// `(i64) -> ()`, a `step` signature `(i32) -> i32`, the nine host
    /// imports, one exported function per program function, one memory of
    /// one to `max_memory_pages` pages exported as `memory`, and the bodies.
    pub fn compile(&self, program: &Program) -> (r: Result<Vec<u8>, Error>)
        requires
            compilable(program@),
        ensures
            r matches Ok(bytes) && bytes@ == encode_module(module_model(program@, self.config)),
    {
        let mut module = module_new();

        // Type section: init, step, then the host import signatures.
        let mut types = types_new();
        types_add_function(&mut types, &types_i64(), &types_none());
        types_add_function(&mut types, &types_i32(), &types_i32());
        self.add_host_import_types(&mut types);
        assert(type_section_entries(types) =~= module_types());
        module_add_types(&mut module, &types);

        // Import section: host functions.
        let mut imports = imports_new();
        self.add_host_imports(&mut imports);
        module_add_imports(&mut module, &imports);

        // Function section: one declaration per program function.
        let mut functions = functions_new();
        let n = program.functions.len();
        let mut i: usize = 0;
        while i < n
            invariant
                n == program@.functions.len(),
                i <= n,
                function_section_entries(functions) =~= Seq::new(i as nat, |k: int| function_type_index(program@.functions[k])),
            decreases n - i,
        {
            let type_idx = self.get_function_type_index(&program.functions[i]);
            functions_add(&mut functions, type_idx);
            i += 1;
        }
        module_add_functions(&mut module, &functions);

        // Memory section.
        let mut memories = memories_new();
        memories_add(&mut memories, 1, Some(self.config.max_memory_pages as u64));
        module_add_memories(&mut module, &memories);

        // Export section: every function after the imports, then the memory.
        let mut exports = exports_new();
        let num_imports = self.num_host_imports();
        let mut i: usize = 0;
        while i < n
            invariant
                n == program@.functions.len(),
                compilable(program@),
                num_imports == 9,
                i <= n,
                export_section_entries(exports) =~= Seq::new(i as nat, |k: int| (program@.functions[k].name, ExportKindModel::Func, (9 + k) as u32)),
            decreases n - i,
        {
            let func_idx = num_imports + i as u32;
            assert(program@.functions[i as int].name == program.functions@[i as int].name@);
            assert(program@.functions[i as int].name.len() <= 0x3fff_ffff);
            exports_add(&mut exports, program.functions[i].name.as_str(), ExportKindModel::Func, func_idx);
            i += 1;
        }
        proof { reveal_strlit("memory"); }
        exports_add(&mut exports, "memory", ExportKindModel::Memory, 0);
        assert(export_section_entries(exports) =~= module_exports(program@.functions));
        module_add_exports(&mut module, &exports);

        // Code section: the function bodies.
        let mut code = code_new();
        let mut i: usize = 0;
        while i < n
            invariant
                n == program@.functions.len(),
                i <= n,
                code_section_entries(code) =~= Seq::new(i as nat, |k: int| (body_locals(program@.functions[k]), body_ops(program@.functions[k]))),
            decreases n - i,
        {
            let func_body = match self.compile_function(&program.functions[i]) {
                Ok(b) => b,
                Err(e) => { return Err(e); },
            };
            code_add(&mut code, &func_body);
            i += 1;
        }
        module_add_code(&mut module, &code);

        proof {
            lemma_import_indices();
            reveal_strlit("env");
            assert(import_section_entries(imports) =~= module_imports());
            assert(module_sections(module) =~= module_model(program@, self.config));
        }
        Ok(module_finish(module))
    }

    /// Compile one function: its locals, every block in order, then `end`.
    fn compile_function(&self, func: &Function) -> (r: Result<FunctionBody, Error>)
        ensures
            r matches Ok(b) && function_locals(b) == body_locals(func@) && function_ops(b) == body_ops(func@),
    {
        let mut locals: Vec<(u32, ValTy)> = Vec::new();
        if func.num_locals > 0 {
            locals.push((func.num_locals as u32, ValTy::I32));
        }
        assert(locals@ =~= body_locals(func@));
        let mut wasm_func = function_new(&locals);

        let mut block_idx: usize = 0;
        while block_idx < func.blocks.len()
            invariant
                block_idx <= func.blocks@.len(),
                function_locals(wasm_func) == body_locals(func@),
                function_ops(wasm_func) == blocks_ops(func@.blocks.subrange(0, block_idx as int)),
            decreases func.blocks@.len() - block_idx,
        {
            let block = &func.blocks[block_idx];
            let ghost before = function_ops(wasm_func);
            let mut j: usize = 0;
            while j < block.instructions.len()
                invariant
                    j <= block.instructions@.len(),
                    function_locals(wasm_func) == body_locals(func@),
                    function_ops(wasm_func) == before + block_ops(block@.subrange(0, j as int)),
                decreases block.instructions@.len() - j,
            {
                let ghost mid = function_ops(wasm_func);
                match self.compile_instruction(&mut wasm_func, &block.instructions[j]) {
                    Ok(()) => {},
                    Err(e) => { return Err(e); },
                }
                proof {
                    assert(block@.subrange(0, j + 1).drop_last() =~= block@.subrange(0, j as int));
                    assert(block@[j as int] == block.instructions@[j as int]@);
                }
                j += 1;
                assert(function_ops(wasm_func) =~= before + block_ops(block@.subrange(0, j as int)));
            }
            proof {
                assert(block@.subrange(0, j as int) =~= block@);
                let bs = func@.blocks;
                assert(bs.subrange(0, block_idx + 1).drop_last() =~= bs.subrange(0, block_idx as int));
                assert(bs[block_idx as int] == block@);
            }
            block_idx += 1;
        }
        proof {
            assert(func@.blocks.subrange(0, block_idx as int) =~= func@.blocks);
        }
        emit_misc(&mut wasm_func, MiscOp::End);
        Ok(wasm_func)
    }

    /// Emit the store to the destination register, if any.
    fn store_dest(&self, wasm_func: &mut FunctionBody, dest: Option<Register>)
        ensures
            function_locals(*final(wasm_func)) == function_locals(*old(wasm_func)),
            function_ops(*final(wasm_func)) == function_ops(*old(wasm_func)) + dest_ops(dest),
    {
        if let Some(d) = dest {
            emit_local(wasm_func, LocalOp::LocalSet, d.0 as u32);
        }
        assert(function_ops(*wasm_func) =~= function_ops(*old(wasm_func)) + dest_ops(dest));
    }

    /// Emit a sequence of instructions with no immediate operand beyond
    /// those of the ops themselves.
    fn emit_all(&self, wasm_func: &mut FunctionBody, ops: &Vec<WasmOp>)
        ensures
            function_locals(*final(wasm_func)) == function_locals(*old(wasm_func)),
            function_ops(*final(wasm_func)) == function_ops(*old(wasm_func)) + ops@,
    {
        let mut k: usize = 0;
        while k < ops.len()
            invariant
                k <= ops@.len(),
                function_locals(*wasm_func) == function_locals(*old(wasm_func)),
                function_ops(*wasm_func) == function_ops(*old(wasm_func)) + ops@.subrange(0, k as int),
            decreases ops@.len() - k,
        {
            emit_op(wasm_func, ops[k]);
            k += 1;
            assert(function_ops(*wasm_func) =~= function_ops(*old(wasm_func)) + ops@.subrange(0, k as int));
        }
        assert(ops@.subrange(0, k as int) =~= ops@);
    }

    /// Compile one instruction.
    fn compile_instruction(&self, wasm_func: &mut FunctionBody, inst: &Instruction) -> (r: Result<(), Error>)
        ensures
            r is Ok,
            function_locals(*final(wasm_func)) == function_locals(*old(wasm_func)),
            function_ops(*final(wasm_func)) == function_ops(*old(wasm_func)) + instruction_ops(inst@),
    {
        let ghost start = function_ops(*wasm_func);
        match inst.opcode {
            // Arithmetic operations
            Opcode::Add => self.compile_unary(wasm_func, inst, WasmOp::Arith(ArithOp::I32Add)),
            Opcode::Sub => self.compile_unary(wasm_func, inst, WasmOp::Arith(ArithOp::I32Sub)),
            Opcode::Mul => self.compile_unary(wasm_func, inst, WasmOp::Arith(ArithOp::I32Mul)),
            Opcode::Div => self.compile_unary(wasm_func, inst, WasmOp::Arith(ArithOp::I32DivS)),
            Opcode::Mod => self.compile_unary(wasm_func, inst, WasmOp::Arith(ArithOp::I32RemS)),
            // Comparison operations
            Opcode::Eq => self.compile_unary(wasm_func, inst, WasmOp::Compare(CompareOp::I32Eq)),
            Opcode::Ne => self.compile_unary(wasm_func, inst, WasmOp::Compare(CompareOp::I32Ne)),
            Opcode::Lt => self.compile_unary(wasm_func, inst, WasmOp::Compare(CompareOp::I32LtS)),
            Opcode::Le => self.compile_unary(wasm_func, inst, WasmOp::Compare(CompareOp::I32LeS)),
            Opcode::Gt => self.compile_unary(wasm_func, inst, WasmOp::Compare(CompareOp::I32GtS)),
            Opcode::Ge => self.compile_unary(wasm_func, inst, WasmOp::Compare(CompareOp::I32GeS)),
            // Logical operations
            Opcode::And => self.compile_unary(wasm_func, inst, WasmOp::Arith(ArithOp::I32And)),
            Opcode::Or => self.compile_unary(wasm_func, inst, WasmOp::Arith(ArithOp::I32Or)),
            Opcode::Xor => self.compile_unary(wasm_func, inst, WasmOp::Arith(ArithOp::I32Xor)),
            // Logical NOT: x == 0 ? 1 : 0
            Opcode::Not => self.compile_unary(wasm_func, inst, WasmOp::Compare(CompareOp::I32Eqz)),
            // Negate: 0 - x
            Opcode::Neg => {
                emit_misc(wasm_func, MiscOp::I32Const(0));
                self.compile_unary(wasm_func, inst, WasmOp::Arith(ArithOp::I32Sub));
                assert(function_ops(*wasm_func) =~= start + instruction_ops(inst@));
            },
            // Absolute value, with local 0 as scratch
            Opcode::Abs => {
                self.load_operands(wasm_func, &inst.operands);
                let ops = vec![
                    WasmOp::Local(LocalOp::LocalTee, 0),
                    WasmOp::Misc(MiscOp::I32Const(31)),
                    WasmOp::Arith(ArithOp::I32ShrS),
                    WasmOp::Local(LocalOp::LocalGet, 0),
                    WasmOp::Arith(ArithOp::I32Xor),
                    WasmOp::Local(LocalOp::LocalGet, 0),
                    WasmOp::Misc(MiscOp::I32Const(31)),
                    WasmOp::Arith(ArithOp::I32ShrS),
                    WasmOp::Arith(ArithOp::I32Sub),
                ];
                assert(ops@ =~= abs_ops());
                self.emit_all(wasm_func, &ops);
                self.store_dest(wasm_func, inst.dest);
                assert(function_ops(*wasm_func) =~= start + instruction_ops(inst@));
            },
            // Min: a < b ? a : b, with locals 0 and 1 as scratch
            Opcode::Min => {
                self.load_operands(wasm_func, &inst.operands);
                self.emit_select(wasm_func, CompareOp::I32LtS);
                self.store_dest(wasm_func, inst.dest);
                assert(function_ops(*wasm_func) =~= start + instruction_ops(inst@));
            },
            // Max: a > b ? a : b
            Opcode::Max => {
                self.load_operands(wasm_func, &inst.operands);
                self.emit_select(wasm_func, CompareOp::I32GtS);
                self.store_dest(wasm_func, inst.dest);
                assert(function_ops(*wasm_func) =~= start + instruction_ops(inst@));
            },
            // Load constant
            Opcode::LoadConst => {
                if inst.operands.len() > 0 {
                    if let Operand::Immediate(value) = inst.operands[0] {
                        emit_misc(wasm_func, MiscOp::I32Const(value.as_i32()));
                        self.store_dest(wasm_func, inst.dest);
                    }
                }
                assert(function_ops(*wasm_func) =~= start + instruction_ops(inst@));
            },
            // Control flow
            Opcode::Return => {
                if inst.operands.len() > 0 {
                    self.load_operands(wasm_func, &inst.operands);
                }
                emit_misc(wasm_func, MiscOp::Return);
                assert(function_ops(*wasm_func) =~= start + instruction_ops(inst@));
            },
            // Host calls
            Opcode::GetEnergy => self.compile_plain_call(wasm_func, inst, "get_energy"),
            Opcode::GetAge => self.compile_plain_call(wasm_func, inst, "get_age"),
            Opcode::Move => self.compile_host_call(wasm_func, inst, "move_dir"),
            Opcode::Eat => self.compile_plain_call(wasm_func, inst, "eat"),
            Opcode::SenseEnv => self.compile_host_call(wasm_func, inst, "env_read"),
            Opcode::SenseNeighbor => self.compile_host_call(wasm_func, inst, "sense_neighbor"),
            Opcode::Attack => self.compile_host_call(wasm_func, inst, "attack"),
            Opcode::Reproduce => self.compile_plain_call(wasm_func, inst, "try_reproduce"),
            Opcode::EmitSignal => {
                // emit_signal returns nothing: no destination
                self.load_operands(wasm_func, &inst.operands);
                let idx = self.get_import_index("emit_signal");
                emit_misc(wasm_func, MiscOp::Call(idx));
                assert(function_ops(*wasm_func) =~= start + instruction_ops(inst@));
            },
            // Branches, calls, loads and stores have no lowering yet: they
            // compile to nothing, which keeps the module valid.
            Opcode::Branch | Opcode::BranchIf | Opcode::Call | Opcode::Load | Opcode::Store => {
                assert(function_ops(*wasm_func) =~= start + instruction_ops(inst@));
            },
        }
        Ok(())
    }

    /// Operands, one instruction, then the store to the destination.
    fn compile_unary(&self, wasm_func: &mut FunctionBody, inst: &Instruction, op: WasmOp)
        ensures
            function_locals(*final(wasm_func)) == function_locals(*old(wasm_func)),
            function_ops(*final(wasm_func)) == function_ops(*old(wasm_func)) + unary_shape(inst@, op),
    {
        self.load_operands(wasm_func, &inst.operands);
        emit_op(wasm_func, op);
        self.store_dest(wasm_func, inst.dest);
        assert(function_ops(*wasm_func) =~= function_ops(*old(wasm_func)) + unary_shape(inst@, op));
    }

    /// Operands, a call of the named host import, then the store to the destination.
    fn compile_host_call(&self, wasm_func: &mut FunctionBody, inst: &Instruction, import: &str)
        ensures
            function_locals(*final(wasm_func)) == function_locals(*old(wasm_func)),
            function_ops(*final(wasm_func)) == function_ops(*old(wasm_func)) + host_call_shape(inst@, import@),
    {
        let idx = self.get_import_index(import);
        self.compile_unary(wasm_func, inst, WasmOp::Misc(MiscOp::Call(idx)));
    }

    /// A call of the named host import without arguments, then the store to
    /// the destination.
    fn compile_plain_call(&self, wasm_func: &mut FunctionBody, inst: &Instruction, import: &str)
        ensures
            function_locals(*final(wasm_func)) == function_locals(*old(wasm_func)),
            function_ops(*final(wasm_func)) == function_ops(*old(wasm_func)) + plain_call_shape(inst@, import@),
    {
        let idx = self.get_import_index(import);
        emit_op(wasm_func, WasmOp::Misc(MiscOp::Call(idx)));
        self.store_dest(wasm_func, inst.dest);
        assert(function_ops(*wasm_func) =~= function_ops(*old(wasm_func)) + plain_call_shape(inst@, import@));
    }

    /// `select(a, b, a <test> b)` with locals 0 and 1 as scratch.
    fn emit_select(&self, wasm_func: &mut FunctionBody, test: CompareOp)
        ensures
            function_locals(*final(wasm_func)) == function_locals(*old(wasm_func)),
            function_ops(*final(wasm_func)) == function_ops(*old(wasm_func)) + select_ops(test),
    {
        let ops = vec![
            WasmOp::Local(LocalOp::LocalSet, 1),
            WasmOp::Local(LocalOp::LocalSet, 0),
            WasmOp::Local(LocalOp::LocalGet, 0),
            WasmOp::Local(LocalOp::LocalGet, 1),
            WasmOp::Local(LocalOp::LocalGet, 0),
            WasmOp::Local(LocalOp::LocalGet, 1),
            WasmOp::Compare(test),
            WasmOp::Misc(MiscOp::Select),
        ];
        assert(ops@ =~= select_ops(test));
        self.emit_all(wasm_func, &ops);
    }

    /// Push every operand: registers are read, immediates pushed as `i32`
    /// constants, block and function indices ignored.
    fn load_operands(&self, wasm_func: &mut FunctionBody, operands: &Vec<Operand>) -> (r: Result<(), Error>)
        ensures
            r is Ok,
            function_locals(*final(wasm_func)) == function_locals(*old(wasm_func)),
            function_ops(*final(wasm_func)) == function_ops(*old(wasm_func)) + operands_ops(operands@),
    {
        let mut k: usize = 0;
        while k < operands.len()
            invariant
                k <= operands@.len(),
                function_locals(*wasm_func) == function_locals(*old(wasm_func)),
                function_ops(*wasm_func) == function_ops(*old(wasm_func)) + operands_ops(operands@.subrange(0, k as int)),
            decreases operands@.len() - k,
        {
            match operands[k] {
                Operand::Register(reg) => {
                    emit_local(wasm_func, LocalOp::LocalGet, reg.0 as u32);
                },
                Operand::Immediate(value) => {
                    emit_misc(wasm_func, MiscOp::I32Const(value.as_i32()));
                },
                _ => {},
            }
            proof {
                assert(operands@.subrange(0, k + 1).drop_last() =~= operands@.subrange(0, k as int));
            }
            k += 1;
            assert(function_ops(*wasm_func) =~= function_ops(*old(wasm_func)) + operands_ops(operands@.subrange(0, k as int)));
        }
        assert(operands@.subrange(0, k as int) =~= operands@);
        Ok(())
    }

    /// Add the signatures of the host imports, in import order.
    fn add_host_import_types(&self, types: &mut wasm_encoder::TypeSection)
        ensures
            type_section_entries(*final(types)) == type_section_entries(*old(types)) + module_types().subrange(2, 11),
    {
        // env_read: (i32, i32) -> i32
        types_add_function(types, &types_i32_i32(), &types_i32());
        // get_energy: () -> i32
        types_add_function(types, &types_none(), &types_i32());
        // get_age: () -> i32
        types_add_function(types, &types_none(), &types_i32());
        // move_dir: (i32, i32) -> i32
        types_add_function(types, &types_i32_i32(), &types_i32());
        // eat: () -> i32
        types_add_function(types, &types_none(), &types_i32());
        // attack: (i32, i32) -> i32
        types_add_function(types, &types_i32_i32(), &types_i32());
        // sense_neighbor: (i32) -> i32
        types_add_function(types, &types_i32(), &types_i32());
        // try_reproduce: () -> i32
        types_add_function(types, &types_none(), &types_i32());
        // emit_signal: (i32, i32) -> ()
        types_add_function(types, &types_i32_i32(), &types_none());
        assert(type_section_entries(*types) =~= type_section_entries(*old(types)) + module_types().subrange(2, 11));
    }

    /// Add the host imports, all from module `env`.
    fn add_host_imports(&self, imports: &mut wasm_encoder::ImportSection)
        ensures
            import_section_entries(*final(imports)) == import_section_entries(*old(imports)) + module_imports(),
    {
        proof {
            reveal_strlit("env");
            reveal_strlit("env_read");
            reveal_strlit("get_energy");
            reveal_strlit("get_age");
            reveal_strlit("move_dir");
            reveal_strlit("eat");
            reveal_strlit("attack");
            reveal_strlit("sense_neighbor");
            reveal_strlit("try_reproduce");
            reveal_strlit("emit_signal");
        }
        imports_add_function(imports, "env", "env_read", 2);
        imports_add_function(imports, "env", "get_energy", 3);
        imports_add_function(imports, "env", "get_age", 4);
        imports_add_function(imports, "env", "move_dir", 5);
        imports_add_function(imports, "env", "eat", 6);
        imports_add_function(imports, "env", "attack", 7);
        imports_add_function(imports, "env", "sense_neighbor", 8);
        imports_add_function(imports, "env", "try_reproduce", 9);
        imports_add_function(imports, "env", "emit_signal", 10);
        assert(import_section_entries(*imports) =~= import_section_entries(*old(imports)) + module_imports());
    }

    /// Number of host imports.
    fn num_host_imports(&self) -> (r: u32)
        ensures
            r == 9,
    {
        9
    }

    /// Index of a host import by name (0 for an unknown name).
    fn get_import_index(&self, name: &str) -> (r: u32)
        ensures
            r == spec_import_index(name@),
    {
        let n = name.to_owned();
        if name_is(&n, "env_read") {
            0
        } else if name_is(&n, "get_energy") {
            1
        } else if name_is(&n, "get_age") {
            2
        } else if name_is(&n, "move_dir") {
            3
        } else if name_is(&n, "eat") {
            4
        } else if name_is(&n, "attack") {
            5
        } else if name_is(&n, "sense_neighbor") {
            6
        } else if name_is(&n, "try_reproduce") {
            7
        } else if name_is(&n, "emit_signal") {
            8
        } else {
            0
        }
    }

    /// Signature index of a defined function.
    fn get_function_type_index(&self, func: &Function) -> (r: u32)
        ensures
            r == function_type_index(func@),
    {
        if name_is(&func.name, "init") {
            0
        } else if name_is(&func.name, "step") {
            1
        } else {
            1
        }
    }
}

/// `[]`
fn types_none() -> (r: Vec<ValTy>)
    ensures
        r@ == Seq::<ValTy>::empty(),
{
    Vec::new()
}

/// `[i32]`
fn types_i32() -> (r: Vec<ValTy>)
    ensures
        r@ == seq![ValTy::I32],
{
    let mut v: Vec<ValTy> = Vec::new();
    v.push(ValTy::I32);
    assert(v@ =~= seq![ValTy::I32]);
    v
}

/// `[i64]`
fn types_i64() -> (r: Vec<ValTy>)
    ensures
        r@ == seq![ValTy::I64],
{
    let mut v: Vec<ValTy> = Vec::new();
    v.push(ValTy::I64);
    assert(v@ =~= seq![ValTy::I64]);
    v
}

/// `[i32, i32]`
fn types_i32_i32() -> (r: Vec<ValTy>)
    ensures
        r@ == seq![ValTy::I32, ValTy::I32],
{
    let mut v: Vec<ValTy> = Vec::new();
    v.push(ValTy::I32);
    v.push(ValTy::I32);
    assert(v@ =~= seq![ValTy::I32, ValTy::I32]);
    v
}

/// Emit one instruction.
fn emit_op(wasm_func: &mut FunctionBody, op: WasmOp)
    ensures
        function_locals(*final(wasm_func)) == function_locals(*old(wasm_func)),
        function_ops(*final(wasm_func)) == function_ops(*old(wasm_func)).push(op),
{
    match op {
        WasmOp::Arith(a) => emit_arith(wasm_func, a),
        WasmOp::Compare(c) => emit_compare(wasm_func, c),
        WasmOp::Local(l, idx) => emit_local(wasm_func, l, idx),
        WasmOp::Misc(m) => emit_misc(wasm_func, m),
    }
}

} // verus!
