//! The WebAssembly encoder (`wasm_encoder`) as the compiler sees it.
//!
//! Each section builder and the module builder of `wasm_encoder` is an
//! opaque collection whose contents are named here: the contracts say how
//! each call changes what the collection holds, and the bytes of a finished
//! module are named as a function of the sections written into it.

use vstd::prelude::*;
use wasm_encoder::Instruction as WasmInstruction;
use wasm_encoder::Function as FunctionBody;

verus! {

/// Value types used by the organism ABI.
#[derive(Debug, Clone, Copy, PartialEq, Eq, Structural)]
pub enum ValTy {
    I32,
    I64,
}

/// Integer arithmetic and bit instructions.
#[derive(Debug, Clone, Copy, PartialEq, Eq, Structural)]
pub enum ArithOp {
    I32Add,
    I32Sub,
    I32Mul,
    I32DivS,
    I32RemS,
    I32And,
    I32Or,
    I32Xor,
    I32ShrS,
}

/// Integer comparisons.
#[derive(Debug, Clone, Copy, PartialEq, Eq, Structural)]
pub enum CompareOp {
    I32Eqz,
    I32Eq,
    I32Ne,
    I32LtS,
    I32LeS,
    I32GtS,
    I32GeS,
}

/// Local-variable access.
#[derive(Debug, Clone, Copy, PartialEq, Eq, Structural)]
pub enum LocalOp {
    LocalGet,
    LocalSet,
    LocalTee,
}

/// Constants, calls and structural instructions.
#[derive(Debug, Clone, Copy, PartialEq, Eq, Structural)]
pub enum MiscOp {
    I32Const(i32),
    Call(u32),
    Select,
    Return,
    End,
}

/// A WebAssembly instruction as the compiler emits it.
#[derive(Debug, Clone, Copy, PartialEq, Eq, Structural)]
pub enum WasmOp {
    Arith(ArithOp),
    Compare(CompareOp),
    Local(LocalOp, u32),
    Misc(MiscOp),
}

/// What may be exported.
#[derive(Debug, Clone, Copy, PartialEq, Eq, Structural)]
pub enum ExportKindModel {
    Func,
    Memory,
}

/// One section of a module, as the values written into it.
pub ghost enum SectionModel {
    /// Function signatures: parameter and result types.
    Types(Seq<(Seq<ValTy>, Seq<ValTy>)>),
    /// Function imports: module name, field name, type index.
    Imports(Seq<(Seq<char>, Seq<char>, u32)>),
    /// Type index of each defined function.
    Functions(Seq<u32>),
    /// Memories: minimum and maximum size in pages (32-bit, unshared).
    Memories(Seq<(u64, Option<u64>)>),
    /// Exports: name, kind, index.
    Exports(Seq<(Seq<char>, ExportKindModel, u32)>),
    /// Function bodies: local declarations and instructions.
    Code(Seq<(Seq<(u32, ValTy)>, Seq<WasmOp>)>),
}

#[verifier::external_type_specification]
#[verifier::external_body]
pub struct ExTypeSection(wasm_encoder::TypeSection);

#[verifier::external_type_specification]
#[verifier::external_body]
pub struct ExImportSection(wasm_encoder::ImportSection);

#[verifier::external_type_specification]
#[verifier::external_body]
pub struct ExFunctionSection(wasm_encoder::FunctionSection);

#[verifier::external_type_specification]
#[verifier::external_body]
pub struct ExMemorySection(wasm_encoder::MemorySection);

#[verifier::external_type_specification]
#[verifier::external_body]
pub struct ExExportSection(wasm_encoder::ExportSection);

#[verifier::external_type_specification]
#[verifier::external_body]
pub struct ExCodeSection(wasm_encoder::CodeSection);

#[verifier::external_type_specification]
#[verifier::external_body]
pub struct ExWasmFunction(FunctionBody);

#[verifier::external_type_specification]
#[verifier::external_body]
pub struct ExModule(wasm_encoder::Module);

/// The signatures a type section holds, in order.
pub uninterp spec fn type_section_entries(s: wasm_encoder::TypeSection) -> Seq<(Seq<ValTy>, Seq<ValTy>)>;

/// The function imports an import section holds, in order.
pub uninterp spec fn import_section_entries(s: wasm_encoder::ImportSection) -> Seq<(Seq<char>, Seq<char>, u32)>;

/// The type indices a function section holds, in order.
pub uninterp spec fn function_section_entries(s: wasm_encoder::FunctionSection) -> Seq<u32>;

/// The memories a memory section holds, in order.
pub uninterp spec fn memory_section_entries(s: wasm_encoder::MemorySection) -> Seq<(u64, Option<u64>)>;

/// The exports an export section holds, in order.
pub uninterp spec fn export_section_entries(s: wasm_encoder::ExportSection) -> Seq<(Seq<char>, ExportKindModel, u32)>;

/// The function bodies a code section holds, in order.
pub uninterp spec fn code_section_entries(s: wasm_encoder::CodeSection) -> Seq<(Seq<(u32, ValTy)>, Seq<WasmOp>)>;

/// The local declarations a function body was created with.
pub uninterp spec fn function_locals(f: FunctionBody) -> Seq<(u32, ValTy)>;

/// The instructions written into a function body, in order.
pub uninterp spec fn function_ops(f: FunctionBody) -> Seq<WasmOp>;

/// The sections written into a module, in order.
pub uninterp spec fn module_sections(m: wasm_encoder::Module) -> Seq<SectionModel>;

/// The binary encoding of a module made of these sections.
pub uninterp spec fn encode_module(sections: Seq<SectionModel>) -> Seq<u8>;

/// `TypeSection::new`: an empty type section.
#[verifier::external_body]
pub(crate) fn types_new() -> (r: wasm_encoder::TypeSection)
    ensures
        type_section_entries(r) == Seq::<(Seq<ValTy>, Seq<ValTy>)>::empty(),
{
    wasm_encoder::TypeSection::new()
}

/// `TypeSection::ty().function(params, results)`: appends one signature.
#[verifier::external_body]
pub(crate) fn types_add_function(s: &mut wasm_encoder::TypeSection, params: &Vec<ValTy>, results: &Vec<ValTy>)
    requires
        params@.len() <= u32::MAX,
        results@.len() <= u32::MAX,
    ensures
        type_section_entries(*final(s)) == type_section_entries(*old(s)).push((params@, results@)),
{
    let conv = |t: &ValTy| match t {
        ValTy::I32 => wasm_encoder::ValType::I32,
        ValTy::I64 => wasm_encoder::ValType::I64,
    };
    s.ty().function(params.iter().map(conv), results.iter().map(conv));
}

/// `ImportSection::new`: an empty import section.
#[verifier::external_body]
pub(crate) fn imports_new() -> (r: wasm_encoder::ImportSection)
    ensures
        import_section_entries(r) == Seq::<(Seq<char>, Seq<char>, u32)>::empty(),
{
    wasm_encoder::ImportSection::new()
}

/// `ImportSection::import(module, name, EntityType::Function(type_index))`:
/// appends one function import. The encoder panics on a name of more than
/// `u32::MAX` bytes; four bytes per character bound the UTF-8 length.
#[verifier::external_body]
pub(crate) fn imports_add_function(s: &mut wasm_encoder::ImportSection, module: &str, name: &str, type_index: u32)
    requires
        module@.len() <= 0x3fff_ffff,
        name@.len() <= 0x3fff_ffff,
    ensures
        import_section_entries(*final(s)) == import_section_entries(*old(s)).push((module@, name@, type_index)),
{
    s.import(module, name, wasm_encoder::EntityType::Function(type_index));
}

/// `FunctionSection::new`: an empty function section.
#[verifier::external_body]
pub(crate) fn functions_new() -> (r: wasm_encoder::FunctionSection)
    ensures
        function_section_entries(r) == Seq::<u32>::empty(),
{
    wasm_encoder::FunctionSection::new()
}

/// `FunctionSection::function(type_index)`: declares one function.
#[verifier::external_body]
pub(crate) fn functions_add(s: &mut wasm_encoder::FunctionSection, type_index: u32)
    ensures
        function_section_entries(*final(s)) == function_section_entries(*old(s)).push(type_index),
{
    s.function(type_index);
}

/// `MemorySection::new`: an empty memory section.
#[verifier::external_body]
pub(crate) fn memories_new() -> (r: wasm_encoder::MemorySection)
    ensures
        memory_section_entries(r) == Seq::<(u64, Option<u64>)>::empty(),
{
    wasm_encoder::MemorySection::new()
}

/// `MemorySection::memory`: appends a 32-bit, unshared memory with default
/// page size and the given limits.
#[verifier::external_body]
pub(crate) fn memories_add(s: &mut wasm_encoder::MemorySection, minimum: u64, maximum: Option<u64>)
    ensures
        memory_section_entries(*final(s)) == memory_section_entries(*old(s)).push((minimum, maximum)),
{
    s.memory(wasm_encoder::MemoryType { minimum, maximum, memory64: false, shared: false, page_size_log2: None });
}

/// `ExportSection::new`: an empty export section.
#[verifier::external_body]
pub(crate) fn exports_new() -> (r: wasm_encoder::ExportSection)
    ensures
        export_section_entries(r) == Seq::<(Seq<char>, ExportKindModel, u32)>::empty(),
{
    wasm_encoder::ExportSection::new()
}

/// `ExportSection::export(name, kind, index)`: appends one export. The
/// encoder panics on a name of more than `u32::MAX` bytes; four bytes per
/// character bound the UTF-8 length.
#[verifier::external_body]
pub(crate) fn exports_add(s: &mut wasm_encoder::ExportSection, name: &str, kind: ExportKindModel, index: u32)
    requires
        name@.len() <= 0x3fff_ffff,
    ensures
        export_section_entries(*final(s)) == export_section_entries(*old(s)).push((name@, kind, index)),
{
    let k = match kind {
        ExportKindModel::Func => wasm_encoder::ExportKind::Func,
        ExportKindModel::Memory => wasm_encoder::ExportKind::Memory,
    };
    s.export(name, k, index);
}

/// `CodeSection::new`: an empty code section.
#[verifier::external_body]
pub(crate) fn code_new() -> (r: wasm_encoder::CodeSection)
    ensures
        code_section_entries(r) == Seq::<(Seq<(u32, ValTy)>, Seq<WasmOp>)>::empty(),
{
    wasm_encoder::CodeSection::new()
}

/// `CodeSection::function(f)`: appends one function body.
#[verifier::external_body]
pub(crate) fn code_add(s: &mut wasm_encoder::CodeSection, f: &FunctionBody)
    ensures
        code_section_entries(*final(s)) == code_section_entries(*old(s)).push((function_locals(*f), function_ops(*f))),
{
    s.function(f);
}

/// `Function::new(locals)`: a function body with these local declarations
/// and no instructions yet.
#[verifier::external_body]
pub(crate) fn function_new(locals: &Vec<(u32, ValTy)>) -> (r: FunctionBody)
    requires
        locals@.len() <= u32::MAX,
    ensures
        function_locals(r) == locals@,
        function_ops(r) == Seq::<WasmOp>::empty(),
{
    let conv = |l: &(u32, ValTy)| match l.1 {
        ValTy::I32 => (l.0, wasm_encoder::ValType::I32),
        ValTy::I64 => (l.0, wasm_encoder::ValType::I64),
    };
    FunctionBody::new(locals.iter().map(conv))
}

/// `Function::instruction` for an arithmetic or bit instruction.
#[verifier::external_body]
pub(crate) fn emit_arith(f: &mut FunctionBody, op: ArithOp)
    ensures
        function_locals(*final(f)) == function_locals(*old(f)),
        function_ops(*final(f)) == function_ops(*old(f)).push(WasmOp::Arith(op)),
{
    let i = match op {
        ArithOp::I32Add => WasmInstruction::I32Add, ArithOp::I32Sub => WasmInstruction::I32Sub, ArithOp::I32Mul => WasmInstruction::I32Mul,
        ArithOp::I32DivS => WasmInstruction::I32DivS, ArithOp::I32RemS => WasmInstruction::I32RemS, ArithOp::I32And => WasmInstruction::I32And,
        ArithOp::I32Or => WasmInstruction::I32Or, ArithOp::I32Xor => WasmInstruction::I32Xor, ArithOp::I32ShrS => WasmInstruction::I32ShrS,
    };
    f.instruction(&i);
}

/// `Function::instruction` for a comparison.
#[verifier::external_body]
pub(crate) fn emit_compare(f: &mut FunctionBody, op: CompareOp)
    ensures
        function_locals(*final(f)) == function_locals(*old(f)),
        function_ops(*final(f)) == function_ops(*old(f)).push(WasmOp::Compare(op)),
{
    let i = match op {
        CompareOp::I32Eqz => WasmInstruction::I32Eqz, CompareOp::I32Eq => WasmInstruction::I32Eq, CompareOp::I32Ne => WasmInstruction::I32Ne,
        CompareOp::I32LtS => WasmInstruction::I32LtS, CompareOp::I32LeS => WasmInstruction::I32LeS, CompareOp::I32GtS => WasmInstruction::I32GtS,
        CompareOp::I32GeS => WasmInstruction::I32GeS,
    };
    f.instruction(&i);
}

/// `Function::instruction` for a local-variable access.
#[verifier::external_body]
pub(crate) fn emit_local(f: &mut FunctionBody, op: LocalOp, index: u32)
    ensures
        function_locals(*final(f)) == function_locals(*old(f)),
        function_ops(*final(f)) == function_ops(*old(f)).push(WasmOp::Local(op, index)),
{
    let i = match op {
        LocalOp::LocalGet => WasmInstruction::LocalGet(index),
        LocalOp::LocalSet => WasmInstruction::LocalSet(index),
        LocalOp::LocalTee => WasmInstruction::LocalTee(index),
    };
    f.instruction(&i);
}

/// `Function::instruction` for a constant, call or structural instruction.
#[verifier::external_body]
pub(crate) fn emit_misc(f: &mut FunctionBody, op: MiscOp)
    ensures
        function_locals(*final(f)) == function_locals(*old(f)),
        function_ops(*final(f)) == function_ops(*old(f)).push(WasmOp::Misc(op)),
{
    let i = match op {
        MiscOp::I32Const(v) => WasmInstruction::I32Const(v),
        MiscOp::Call(index) => WasmInstruction::Call(index),
        MiscOp::Select => WasmInstruction::Select,
        MiscOp::Return => WasmInstruction::Return,
        MiscOp::End => WasmInstruction::End,
    };
    f.instruction(&i);
}

/// `Module::new`: a module with only the header.
#[verifier::external_body]
pub(crate) fn module_new() -> (r: wasm_encoder::Module)
    ensures
        module_sections(r) == Seq::<SectionModel>::empty(),
{
    wasm_encoder::Module::new()
}

/// `Module::section` with a type section.
#[verifier::external_body]
pub(crate) fn module_add_types(m: &mut wasm_encoder::Module, s: &wasm_encoder::TypeSection)
    ensures
        module_sections(*final(m)) == module_sections(*old(m)).push(SectionModel::Types(type_section_entries(*s))),
{
    m.section(s);
}

/// `Module::section` with an import section.
#[verifier::external_body]
pub(crate) fn module_add_imports(m: &mut wasm_encoder::Module, s: &wasm_encoder::ImportSection)
    ensures
        module_sections(*final(m)) == module_sections(*old(m)).push(SectionModel::Imports(import_section_entries(*s))),
{
    m.section(s);
}

/// `Module::section` with a function section.
#[verifier::external_body]
pub(crate) fn module_add_functions(m: &mut wasm_encoder::Module, s: &wasm_encoder::FunctionSection)
    ensures
        module_sections(*final(m)) == module_sections(*old(m)).push(SectionModel::Functions(function_section_entries(*s))),
{
    m.section(s);
}

/// `Module::section` with a memory section.
#[verifier::external_body]
pub(crate) fn module_add_memories(m: &mut wasm_encoder::Module, s: &wasm_encoder::MemorySection)
    ensures
        module_sections(*final(m)) == module_sections(*old(m)).push(SectionModel::Memories(memory_section_entries(*s))),
{
    m.section(s);
}

/// `Module::section` with an export section.
#[verifier::external_body]
pub(crate) fn module_add_exports(m: &mut wasm_encoder::Module, s: &wasm_encoder::ExportSection)
    ensures
        module_sections(*final(m)) == module_sections(*old(m)).push(SectionModel::Exports(export_section_entries(*s))),
{
    m.section(s);
}

/// `Module::section` with a code section.
#[verifier::external_body]
pub(crate) fn module_add_code(m: &mut wasm_encoder::Module, s: &wasm_encoder::CodeSection)
    ensures
        module_sections(*final(m)) == module_sections(*old(m)).push(SectionModel::Code(code_section_entries(*s))),
{
    m.section(s);
}

/// `Module::finish`: the encoded module.
#[verifier::external_body]
pub(crate) fn module_finish(m: wasm_encoder::Module) -> (r: Vec<u8>)
    ensures
        r@ == encode_module(module_sections(m)),
{
    m.finish()
}

} // verus!
