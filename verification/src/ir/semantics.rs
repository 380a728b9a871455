//! What the emitted WebAssembly computes.
//!
//! A model of the WebAssembly stack machine for the instructions that read
//! and write locals, push constants, and compute on 32-bit integers, and the
//! laws that the code each IR instruction compiles to computes what the
//! instruction means: `r_d = r_a - r_b` stores the difference of the two
//! registers in the destination, `r_d = r_a < r_b` stores one exactly when
//! the first is smaller, and so on. The host calls are stated by the import
//! each one calls, named as the import section names it.

use vstd::prelude::*;
use crate::arith::{trunc_div, trunc_rem};
use crate::ir::compiler::{instruction_ops, module_imports, module_model, block_ops, blocks_ops, body_ops, CompilerConfig};
use crate::ir::program::{FunctionModel, ProgramModel, ReturnType};
use crate::ir::wasm::{ExportKindModel, SectionModel, ValTy};
use crate::ir::instruction::{InstructionModel, Opcode, Operand, Register, Value};
use crate::ir::wasm::{ArithOp, CompareOp, LocalOp, MiscOp, WasmOp};

verus! {

/// A mathematical integer wrapped to 32 bits, as WebAssembly's `i32`
/// arithmetic does.
pub open spec fn wrap_i32(v: int) -> i32 {
    v as i32
}

/// A truth value as WebAssembly's comparisons give it: one or zero.
pub open spec fn flag(b: bool) -> i32 {
    if b { 1 } else { 0 }
}

/// What a binary integer instruction computes from the second operand from
/// the top `x` and the top `y`; `None` where WebAssembly traps (division by
/// zero, or the quotient overflows).
pub open spec fn arith_result(op: ArithOp, x: i32, y: i32) -> Option<i32> {
    match op {
        ArithOp::I32Add => Some(wrap_i32(x + y)),
        ArithOp::I32Sub => Some(wrap_i32(x - y)),
        ArithOp::I32Mul => Some(wrap_i32(x * y)),
        ArithOp::I32DivS => if y == 0 || (x == i32::MIN && y == -1) {
            None
        } else {
            Some(trunc_div(x as int, y as int) as i32)
        },
        ArithOp::I32RemS => if y == 0 { None } else { Some(trunc_rem(x as int, y as int) as i32) },
        ArithOp::I32And => Some(x & y),
        ArithOp::I32Or => Some(x | y),
        ArithOp::I32Xor => Some(x ^ y),
        ArithOp::I32ShrS => Some(x >> ((y as int % 32) as u32)),
    }
}

/// What a binary comparison gives.
pub open spec fn compare_result(op: CompareOp, x: i32, y: i32) -> i32 {
    match op {
        CompareOp::I32Eqz => flag(y == 0),
        CompareOp::I32Eq => flag(x == y),
        CompareOp::I32Ne => flag(x != y),
        CompareOp::I32LtS => flag(x < y),
        CompareOp::I32LeS => flag(x <= y),
        CompareOp::I32GtS => flag(x > y),
        CompareOp::I32GeS => flag(x >= y),
    }
}

/// One instruction on the locals and the operand stack; `None` where it
/// traps, the stack is too short, a local does not exist, or the
/// instruction is outside the model (calls, returns).
pub open spec fn exec_op(op: WasmOp, locals: Seq<i32>, stack: Seq<i32>) -> Option<(Seq<i32>, Seq<i32>)> {
    let n = stack.len();
    match op {
        WasmOp::Local(LocalOp::LocalGet, k) => if k < locals.len() {
            Some((locals, stack.push(locals[k as int])))
        } else {
            None
        },
        WasmOp::Local(LocalOp::LocalSet, k) => if k < locals.len() && n >= 1 {
            Some((locals.update(k as int, stack[n - 1]), stack.drop_last()))
        } else {
            None
        },
        WasmOp::Local(LocalOp::LocalTee, k) => if k < locals.len() && n >= 1 {
            Some((locals.update(k as int, stack[n - 1]), stack))
        } else {
            None
        },
        WasmOp::Misc(MiscOp::I32Const(c)) => Some((locals, stack.push(c))),
        WasmOp::Arith(a) => if n >= 2 {
            match arith_result(a, stack[n - 2], stack[n - 1]) {
                Some(z) => Some((locals, stack.subrange(0, n - 2).push(z))),
                None => None,
            }
        } else {
            None
        },
        WasmOp::Compare(CompareOp::I32Eqz) => if n >= 1 {
            Some((locals, stack.drop_last().push(flag(stack[n - 1] == 0))))
        } else {
            None
        },
        WasmOp::Compare(c) => if n >= 2 {
            Some((locals, stack.subrange(0, n - 2).push(compare_result(c, stack[n - 2], stack[n - 1]))))
        } else {
            None
        },
        WasmOp::Misc(MiscOp::Select) => if n >= 3 {
            Some((locals, stack.subrange(0, n - 3).push(if stack[n - 1] != 0 { stack[n - 3] } else { stack[n - 2] })))
        } else {
            None
        },
        _ => None,
    }
}

/// A sequence of instructions run from the given locals and stack.
pub open spec fn run(ops: Seq<WasmOp>, locals: Seq<i32>, stack: Seq<i32>) -> Option<(Seq<i32>, Seq<i32>)>
    decreases ops.len(),
{
    if ops.len() == 0 {
        Some((locals, stack))
    } else {
        match exec_op(ops[0], locals, stack) {
            Some(s) => run(ops.drop_first(), s.0, s.1),
            None => None,
        }
    }
}

/// The IR instruction `r_d = op(r_a, r_b)`.
pub open spec fn reg_binary(op: Opcode, d: u8, a: u8, b: u8) -> InstructionModel {
    InstructionModel { opcode: op, dest: Some(Register(d)), operands: seq![Operand::Register(Register(a)), Operand::Register(Register(b))] }
}

/// The IR instruction `r_d = op(r_a)`.
pub open spec fn reg_unary(op: Opcode, d: u8, a: u8) -> InstructionModel {
    InstructionModel { opcode: op, dest: Some(Register(d)), operands: seq![Operand::Register(Register(a))] }
}

/// Running a sequence after another is running the first, then the second
/// from where it left off.
proof fn lemma_run_append(p: Seq<WasmOp>, q: Seq<WasmOp>, locals: Seq<i32>, stack: Seq<i32>)
    ensures
        run(p + q, locals, stack) == match run(p, locals, stack) {
            Some(s) => run(q, s.0, s.1),
            None => None,
        },
    decreases p.len(),
{
    if p.len() > 0 {
        assert((p + q)[0] == p[0]);
        assert((p + q).drop_first() =~= p.drop_first() + q);
        match exec_op(p[0], locals, stack) {
            Some(s) => lemma_run_append(p.drop_first(), q, s.0, s.1),
            None => {},
        }
    } else {
        assert(p + q =~= q);
    }
}

/// One instruction run alone.
proof fn lemma_run_one(op: WasmOp, locals: Seq<i32>, stack: Seq<i32>)
    ensures
        run(seq![op], locals, stack) == exec_op(op, locals, stack),
{
    reveal_with_fuel(run, 2);
    assert(seq![op].drop_first() =~= Seq::<WasmOp>::empty());
}

/// The shape `get a; get b; op; set d` with `op` a binary instruction.
proof fn lemma_run_binary_shape(op: WasmOp, a: u8, b: u8, d: u8, locals: Seq<i32>, stack: Seq<i32>)
    requires
        a < locals.len(),
        b < locals.len(),
        d < locals.len(),
    ensures
        run(seq![
            WasmOp::Local(LocalOp::LocalGet, a as u32),
            WasmOp::Local(LocalOp::LocalGet, b as u32),
            op,
            WasmOp::Local(LocalOp::LocalSet, d as u32),
        ], locals, stack) == match exec_op(op, locals, stack.push(locals[a as int]).push(locals[b as int])) {
            Some(s) => exec_op(WasmOp::Local(LocalOp::LocalSet, d as u32), s.0, s.1),
            None => None,
        },
{
    let g1 = WasmOp::Local(LocalOp::LocalGet, a as u32);
    let g2 = WasmOp::Local(LocalOp::LocalGet, b as u32);
    let st = WasmOp::Local(LocalOp::LocalSet, d as u32);
    let all = seq![g1, g2, op, st];
    assert(all =~= seq![g1] + (seq![g2] + (seq![op] + seq![st])));
    lemma_run_append(seq![g1], seq![g2] + (seq![op] + seq![st]), locals, stack);
    lemma_run_one(g1, locals, stack);
    let s1 = stack.push(locals[a as int]);
    lemma_run_append(seq![g2], seq![op] + seq![st], locals, s1);
    lemma_run_one(g2, locals, s1);
    let s2 = s1.push(locals[b as int]);
    lemma_run_append(seq![op], seq![st], locals, s2);
    lemma_run_one(op, locals, s2);
    match exec_op(op, locals, s2) {
        Some(s) => lemma_run_one(st, s.0, s.1),
        None => {},
    }
}

/// The code of `r_d = op(r_a, r_b)` for a plain binary opcode is
/// `get a; get b; <op>; set d`.
proof fn lemma_binary_ops(op: Opcode, w: WasmOp, d: u8, a: u8, b: u8)
    requires
        instruction_ops(reg_binary(op, d, a, b)) == crate::ir::compiler::unary_shape(reg_binary(op, d, a, b), w),
    ensures
        instruction_ops(reg_binary(op, d, a, b)) == seq![
            WasmOp::Local(LocalOp::LocalGet, a as u32),
            WasmOp::Local(LocalOp::LocalGet, b as u32),
            w,
            WasmOp::Local(LocalOp::LocalSet, d as u32),
        ],
{
    let i = reg_binary(op, d, a, b);
    reveal_with_fuel(crate::ir::compiler::operands_ops, 3);
    assert(i.operands.drop_last() =~= seq![Operand::Register(Register(a))]);
    assert(i.operands.drop_last().drop_last() =~= Seq::<Operand>::empty());
    assert(crate::ir::compiler::operands_ops(i.operands) =~= seq![
        WasmOp::Local(LocalOp::LocalGet, a as u32),
        WasmOp::Local(LocalOp::LocalGet, b as u32),
    ]);
    assert(instruction_ops(i) =~= seq![
        WasmOp::Local(LocalOp::LocalGet, a as u32),
        WasmOp::Local(LocalOp::LocalGet, b as u32),
        w,
        WasmOp::Local(LocalOp::LocalSet, d as u32),
    ]);
}

/// The compiled arithmetic and logical instructions compute their meaning:
/// for registers `a`, `b`, `d` among the locals, with `x` and `y` the values
/// of `r_a` and `r_b`, the code of `r_d = op(r_a, r_b)` leaves the operand
/// stack as it was and stores in `r_d` the wrapped sum, difference or
/// product, the quotient or remainder rounded toward zero (trapping on a
/// zero divisor or an overflowing quotient), or the bitwise and, or and
/// exclusive or; no other local changes.
pub proof fn lemma_arith_lowering(d: u8, a: u8, b: u8, locals: Seq<i32>, stack: Seq<i32>)
    requires
        a < locals.len(),
        b < locals.len(),
        d < locals.len(),
    ensures
        ({
            let x = locals[a as int];
            let y = locals[b as int];
            &&& run(instruction_ops(reg_binary(Opcode::Add, d, a, b)), locals, stack)
                == Some((locals.update(d as int, wrap_i32(x + y)), stack))
            &&& run(instruction_ops(reg_binary(Opcode::Sub, d, a, b)), locals, stack)
                == Some((locals.update(d as int, wrap_i32(x - y)), stack))
            &&& run(instruction_ops(reg_binary(Opcode::Mul, d, a, b)), locals, stack)
                == Some((locals.update(d as int, wrap_i32(x * y)), stack))
            &&& (y != 0 && !(x == i32::MIN && y == -1) ==> run(instruction_ops(reg_binary(Opcode::Div, d, a, b)), locals, stack)
                == Some((locals.update(d as int, trunc_div(x as int, y as int) as i32), stack)))
            &&& (y == 0 || (x == i32::MIN && y == -1) ==> run(instruction_ops(reg_binary(Opcode::Div, d, a, b)), locals, stack) is None)
            &&& (y != 0 ==> run(instruction_ops(reg_binary(Opcode::Mod, d, a, b)), locals, stack)
                == Some((locals.update(d as int, trunc_rem(x as int, y as int) as i32), stack)))
            &&& (y == 0 ==> run(instruction_ops(reg_binary(Opcode::Mod, d, a, b)), locals, stack) is None)
            &&& run(instruction_ops(reg_binary(Opcode::And, d, a, b)), locals, stack)
                == Some((locals.update(d as int, x & y), stack))
            &&& run(instruction_ops(reg_binary(Opcode::Or, d, a, b)), locals, stack)
                == Some((locals.update(d as int, x | y), stack))
            &&& run(instruction_ops(reg_binary(Opcode::Xor, d, a, b)), locals, stack)
                == Some((locals.update(d as int, x ^ y), stack))
        }),
{
    let x = locals[a as int];
    let y = locals[b as int];
    let ops = seq![
        (Opcode::Add, ArithOp::I32Add), (Opcode::Sub, ArithOp::I32Sub), (Opcode::Mul, ArithOp::I32Mul),
        (Opcode::Div, ArithOp::I32DivS), (Opcode::Mod, ArithOp::I32RemS), (Opcode::And, ArithOp::I32And),
        (Opcode::Or, ArithOp::I32Or), (Opcode::Xor, ArithOp::I32Xor),
    ];
    assert forall|k: int| 0 <= k < ops.len() implies
        run(instruction_ops(reg_binary(#[trigger] ops[k].0, d, a, b)), locals, stack)
            == match arith_result(ops[k].1, x, y) {
                Some(z) => Some((locals.update(d as int, z), stack)),
                None => None,
            } by {
        let (op, w) = ops[k];
        lemma_binary_ops(op, WasmOp::Arith(w), d, a, b);
        lemma_run_binary_shape(WasmOp::Arith(w), a, b, d, locals, stack);
        let s2 = stack.push(x).push(y);
        assert(s2.subrange(0, s2.len() - 2) =~= stack);
        match arith_result(w, x, y) {
            Some(z) => {
                assert(stack.push(z).drop_last() =~= stack);
            },
            None => {},
        }
    }
    assert(ops[0].0 == Opcode::Add && ops[1].0 == Opcode::Sub && ops[2].0 == Opcode::Mul && ops[3].0 == Opcode::Div);
    assert(ops[4].0 == Opcode::Mod && ops[5].0 == Opcode::And && ops[6].0 == Opcode::Or && ops[7].0 == Opcode::Xor);
}

/// The compiled comparisons compute their meaning: the code of
/// `r_d = r_a <cmp> r_b` stores one in `r_d` when the values of `r_a` and
/// `r_b` compare so (signed), and zero otherwise; the stack and the other
/// locals stay.
pub proof fn lemma_compare_lowering(d: u8, a: u8, b: u8, locals: Seq<i32>, stack: Seq<i32>)
    requires
        a < locals.len(),
        b < locals.len(),
        d < locals.len(),
    ensures
        ({
            let x = locals[a as int];
            let y = locals[b as int];
            &&& run(instruction_ops(reg_binary(Opcode::Eq, d, a, b)), locals, stack)
                == Some((locals.update(d as int, if x == y { 1i32 } else { 0i32 }), stack))
            &&& run(instruction_ops(reg_binary(Opcode::Ne, d, a, b)), locals, stack)
                == Some((locals.update(d as int, if x != y { 1i32 } else { 0i32 }), stack))
            &&& run(instruction_ops(reg_binary(Opcode::Lt, d, a, b)), locals, stack)
                == Some((locals.update(d as int, if x < y { 1i32 } else { 0i32 }), stack))
            &&& run(instruction_ops(reg_binary(Opcode::Le, d, a, b)), locals, stack)
                == Some((locals.update(d as int, if x <= y { 1i32 } else { 0i32 }), stack))
            &&& run(instruction_ops(reg_binary(Opcode::Gt, d, a, b)), locals, stack)
                == Some((locals.update(d as int, if x > y { 1i32 } else { 0i32 }), stack))
            &&& run(instruction_ops(reg_binary(Opcode::Ge, d, a, b)), locals, stack)
                == Some((locals.update(d as int, if x >= y { 1i32 } else { 0i32 }), stack))
        }),
{
    let x = locals[a as int];
    let y = locals[b as int];
    let ops = seq![
        (Opcode::Eq, CompareOp::I32Eq), (Opcode::Ne, CompareOp::I32Ne), (Opcode::Lt, CompareOp::I32LtS),
        (Opcode::Le, CompareOp::I32LeS), (Opcode::Gt, CompareOp::I32GtS), (Opcode::Ge, CompareOp::I32GeS),
    ];
    assert forall|k: int| 0 <= k < ops.len() implies
        run(instruction_ops(reg_binary(#[trigger] ops[k].0, d, a, b)), locals, stack)
            == Some((locals.update(d as int, compare_result(ops[k].1, x, y)), stack)) by {
        let (op, c) = ops[k];
        lemma_binary_ops(op, WasmOp::Compare(c), d, a, b);
        lemma_run_binary_shape(WasmOp::Compare(c), a, b, d, locals, stack);
        let s2 = stack.push(x).push(y);
        assert(s2.subrange(0, s2.len() - 2) =~= stack);
        assert(stack.push(compare_result(c, x, y)).drop_last() =~= stack);
    }
    assert(ops[0].0 == Opcode::Eq && ops[1].0 == Opcode::Ne && ops[2].0 == Opcode::Lt);
    assert(ops[3].0 == Opcode::Le && ops[4].0 == Opcode::Gt && ops[5].0 == Opcode::Ge);
}

/// The compiled unary instructions and constants compute their meaning:
/// `r_d = !r_a` stores one exactly when `r_a` is zero, `r_d = -r_a` stores
/// the wrapped negation, and `r_d = c` for an integer constant stores `c`;
/// the stack and the other locals stay.
pub proof fn lemma_unary_lowering(d: u8, a: u8, c: i32, locals: Seq<i32>, stack: Seq<i32>)
    requires
        a < locals.len(),
        d < locals.len(),
    ensures
        ({
            let x = locals[a as int];
            &&& run(instruction_ops(reg_unary(Opcode::Not, d, a)), locals, stack)
                == Some((locals.update(d as int, if x == 0 { 1i32 } else { 0i32 }), stack))
            &&& run(instruction_ops(reg_unary(Opcode::Neg, d, a)), locals, stack)
                == Some((locals.update(d as int, wrap_i32(0 - x)), stack))
            &&& run(instruction_ops(InstructionModel {
                    opcode: Opcode::LoadConst,
                    dest: Some(Register(d)),
                    operands: seq![Operand::Immediate(Value::Int(c))],
                }), locals, stack) == Some((locals.update(d as int, c), stack))
        }),
{
    let x = locals[a as int];
    let get = WasmOp::Local(LocalOp::LocalGet, a as u32);
    let set = WasmOp::Local(LocalOp::LocalSet, d as u32);
    reveal_with_fuel(crate::ir::compiler::operands_ops, 2);
    // Not
    let n = reg_unary(Opcode::Not, d, a);
    assert(n.operands.drop_last() =~= Seq::<Operand>::empty());
    let eqz = WasmOp::Compare(CompareOp::I32Eqz);
    assert(instruction_ops(n) =~= seq![get] + (seq![eqz] + seq![set]));
    lemma_run_append(seq![get], seq![eqz] + seq![set], locals, stack);
    lemma_run_one(get, locals, stack);
    lemma_run_append(seq![eqz], seq![set], locals, stack.push(x));
    lemma_run_one(eqz, locals, stack.push(x));
    assert(stack.push(x).drop_last() =~= stack);
    lemma_run_one(set, locals, stack.push(flag(x == 0)));
    assert(stack.push(flag(x == 0)).drop_last() =~= stack);
    // Neg
    let g = reg_unary(Opcode::Neg, d, a);
    let zero = WasmOp::Misc(MiscOp::I32Const(0));
    let sub = WasmOp::Arith(ArithOp::I32Sub);
    assert(g.operands.drop_last() =~= Seq::<Operand>::empty());
    assert(instruction_ops(g) =~= seq![zero] + (seq![get] + (seq![sub] + seq![set])));
    lemma_run_append(seq![zero], seq![get] + (seq![sub] + seq![set]), locals, stack);
    lemma_run_one(zero, locals, stack);
    let s1 = stack.push(0i32);
    lemma_run_append(seq![get], seq![sub] + seq![set], locals, s1);
    lemma_run_one(get, locals, s1);
    let s2 = s1.push(x);
    lemma_run_append(seq![sub], seq![set], locals, s2);
    lemma_run_one(sub, locals, s2);
    assert(s2.subrange(0, s2.len() - 2) =~= stack);
    lemma_run_one(set, locals, stack.push(wrap_i32(0 - x)));
    assert(stack.push(wrap_i32(0 - x)).drop_last() =~= stack);
    // LoadConst
    let k = InstructionModel { opcode: Opcode::LoadConst, dest: Some(Register(d)), operands: seq![Operand::Immediate(Value::Int(c))] };
    let push = WasmOp::Misc(MiscOp::I32Const(c));
    assert(instruction_ops(k) =~= seq![push] + seq![set]);
    lemma_run_append(seq![push], seq![set], locals, stack);
    lemma_run_one(push, locals, stack);
    lemma_run_one(set, locals, stack.push(c));
    assert(stack.push(c).drop_last() =~= stack);
}

/// Each host call calls the import of its own name: the code of a host
/// call loads its operands (none for the energy, age, eat and reproduce
/// queries), calls the import at the index under which the import section
/// lists the host function of that name, and stores the answer in the
/// destination, if any. Emitting a signal calls `emit_signal` and stores
/// nothing.
pub proof fn lemma_host_call_lowering(i: InstructionModel)
    ensures
        module_imports()[0].1 == "env_read"@,
        module_imports()[1].1 == "get_energy"@,
        module_imports()[2].1 == "get_age"@,
        module_imports()[3].1 == "move_dir"@,
        module_imports()[4].1 == "eat"@,
        module_imports()[5].1 == "attack"@,
        module_imports()[6].1 == "sense_neighbor"@,
        module_imports()[7].1 == "try_reproduce"@,
        module_imports()[8].1 == "emit_signal"@,
        ({
            let load = crate::ir::compiler::operands_ops(i.operands);
            let call = |k: u32| WasmOp::Misc(MiscOp::Call(k));
            let dest = crate::ir::compiler::dest_ops(i.dest);
            &&& i.opcode == Opcode::SenseEnv ==> instruction_ops(i) == load + seq![call(0)] + dest
            &&& i.opcode == Opcode::GetEnergy ==> instruction_ops(i) == seq![call(1)] + dest
            &&& i.opcode == Opcode::GetAge ==> instruction_ops(i) == seq![call(2)] + dest
            &&& i.opcode == Opcode::Move ==> instruction_ops(i) == load + seq![call(3)] + dest
            &&& i.opcode == Opcode::Eat ==> instruction_ops(i) == seq![call(4)] + dest
            &&& i.opcode == Opcode::Attack ==> instruction_ops(i) == load + seq![call(5)] + dest
            &&& i.opcode == Opcode::SenseNeighbor ==> instruction_ops(i) == load + seq![call(6)] + dest
            &&& i.opcode == Opcode::Reproduce ==> instruction_ops(i) == seq![call(7)] + dest
            &&& i.opcode == Opcode::EmitSignal ==> instruction_ops(i) == load + seq![call(8)]
        }),
{
    crate::ir::compiler::lemma_import_indices();
    let load = crate::ir::compiler::operands_ops(i.operands);
    let dest = crate::ir::compiler::dest_ops(i.dest);
    assert forall|k: u32| #[trigger] load.push(WasmOp::Misc(MiscOp::Call(k))) + dest
        == load + seq![WasmOp::Misc(MiscOp::Call(k))] + dest by {
        assert(load.push(WasmOp::Misc(MiscOp::Call(k))) =~= load + seq![WasmOp::Misc(MiscOp::Call(k))]);
    }
    assert forall|k: u32| #[trigger] load.push(WasmOp::Misc(MiscOp::Call(k))) == load + seq![WasmOp::Misc(MiscOp::Call(k))] by {
        assert(load.push(WasmOp::Misc(MiscOp::Call(k))) =~= load + seq![WasmOp::Misc(MiscOp::Call(k))]);
    }
}

/// One step of a run: the first instruction, then the rest.
proof fn lemma_run_step(ops: Seq<WasmOp>, locals: Seq<i32>, stack: Seq<i32>)
    requires
        ops.len() > 0,
    ensures
        run(ops, locals, stack) == match exec_op(ops[0], locals, stack) {
            Some(s) => run(ops.drop_first(), s.0, s.1),
            None => None,
        },
{
}

/// The selection code of minimum and maximum: with `x` under `y` on the
/// stack, it leaves `x` where `x <t> y` holds and `y` otherwise, with `x`
/// in local 0 and `y` in local 1.
proof fn lemma_run_select(t: CompareOp, x: i32, y: i32, locals: Seq<i32>, stack: Seq<i32>)
    requires
        locals.len() >= 2,
        t != CompareOp::I32Eqz,
    ensures
        run(crate::ir::compiler::select_ops(t), locals, stack.push(x).push(y))
            == Some((locals.update(1, y).update(0, x), stack.push(if compare_result(t, x, y) != 0 { x } else { y }))),
{
    let o0 = crate::ir::compiler::select_ops(t);
    assert(o0 =~= seq![WasmOp::Local(LocalOp::LocalSet, 1), WasmOp::Local(LocalOp::LocalSet, 0), WasmOp::Local(LocalOp::LocalGet, 0), WasmOp::Local(LocalOp::LocalGet, 1), WasmOp::Local(LocalOp::LocalGet, 0), WasmOp::Local(LocalOp::LocalGet, 1), WasmOp::Compare(t), WasmOp::Misc(MiscOp::Select)]);
    assert(o0.len() > 0 && o0[0] == WasmOp::Local(LocalOp::LocalSet, 1));
    let o1 = o0.drop_first();
    assert(o1 =~= seq![WasmOp::Local(LocalOp::LocalSet, 0), WasmOp::Local(LocalOp::LocalGet, 0), WasmOp::Local(LocalOp::LocalGet, 1), WasmOp::Local(LocalOp::LocalGet, 0), WasmOp::Local(LocalOp::LocalGet, 1), WasmOp::Compare(t), WasmOp::Misc(MiscOp::Select)]);
    assert(o1.len() > 0 && o1[0] == WasmOp::Local(LocalOp::LocalSet, 0));
    let o2 = o1.drop_first();
    assert(o2 =~= seq![WasmOp::Local(LocalOp::LocalGet, 0), WasmOp::Local(LocalOp::LocalGet, 1), WasmOp::Local(LocalOp::LocalGet, 0), WasmOp::Local(LocalOp::LocalGet, 1), WasmOp::Compare(t), WasmOp::Misc(MiscOp::Select)]);
    assert(o2.len() > 0 && o2[0] == WasmOp::Local(LocalOp::LocalGet, 0));
    let o3 = o2.drop_first();
    assert(o3 =~= seq![WasmOp::Local(LocalOp::LocalGet, 1), WasmOp::Local(LocalOp::LocalGet, 0), WasmOp::Local(LocalOp::LocalGet, 1), WasmOp::Compare(t), WasmOp::Misc(MiscOp::Select)]);
    assert(o3.len() > 0 && o3[0] == WasmOp::Local(LocalOp::LocalGet, 1));
    let o4 = o3.drop_first();
    assert(o4 =~= seq![WasmOp::Local(LocalOp::LocalGet, 0), WasmOp::Local(LocalOp::LocalGet, 1), WasmOp::Compare(t), WasmOp::Misc(MiscOp::Select)]);
    assert(o4.len() > 0 && o4[0] == WasmOp::Local(LocalOp::LocalGet, 0));
    let o5 = o4.drop_first();
    assert(o5 =~= seq![WasmOp::Local(LocalOp::LocalGet, 1), WasmOp::Compare(t), WasmOp::Misc(MiscOp::Select)]);
    assert(o5.len() > 0 && o5[0] == WasmOp::Local(LocalOp::LocalGet, 1));
    let o6 = o5.drop_first();
    assert(o6 =~= seq![WasmOp::Compare(t), WasmOp::Misc(MiscOp::Select)]);
    assert(o6.len() > 0 && o6[0] == WasmOp::Compare(t));
    let o7 = o6.drop_first();
    assert(o7 =~= seq![WasmOp::Misc(MiscOp::Select)]);
    assert(o7.len() > 0 && o7[0] == WasmOp::Misc(MiscOp::Select));
    let o8 = o7.drop_first();
    assert(o8 =~= seq![]);
    let l1 = locals.update(1, y);
    let l2 = l1.update(0, x);
    let s0 = stack.push(x).push(y);
    assert(s0.drop_last() =~= stack.push(x));
    assert(stack.push(x).drop_last() =~= stack);
    lemma_run_step(o0, locals, s0);
    lemma_run_step(o1, l1, stack.push(x));
    lemma_run_step(o2, l2, stack);
    lemma_run_step(o3, l2, stack.push(x));
    lemma_run_step(o4, l2, stack.push(x).push(y));
    lemma_run_step(o5, l2, stack.push(x).push(y).push(x));
    lemma_run_step(o6, l2, stack.push(x).push(y).push(x).push(y));
    let s7 = stack.push(x).push(y).push(x).push(y);
    assert(s7.subrange(0, s7.len() - 2) =~= stack.push(x).push(y));
    let c = compare_result(t, x, y);
    lemma_run_step(o7, l2, stack.push(x).push(y).push(c));
    let s8 = stack.push(x).push(y).push(c);
    assert(s8.subrange(0, s8.len() - 3) =~= stack);
    assert(o8.len() == 0);
}

/// Minimum and maximum compute their meaning: the code of
/// `r_d = min(r_a, r_b)` stores the smaller of the two values in `r_d`,
/// and that of `max` the larger; the stack stays, and locals 0 and 1,
/// which serve as scratch, end holding the values of `r_a` and `r_b`
/// unless `d` is one of them.
pub proof fn lemma_minmax_lowering(d: u8, a: u8, b: u8, locals: Seq<i32>, stack: Seq<i32>)
    requires
        a < locals.len(),
        b < locals.len(),
        d < locals.len(),
        locals.len() >= 2,
    ensures
        ({
            let x = locals[a as int];
            let y = locals[b as int];
            let scratch = locals.update(1, y).update(0, x);
            &&& run(instruction_ops(reg_binary(Opcode::Min, d, a, b)), locals, stack)
                == Some((scratch.update(d as int, if x < y { x } else { y }), stack))
            &&& run(instruction_ops(reg_binary(Opcode::Max, d, a, b)), locals, stack)
                == Some((scratch.update(d as int, if x > y { x } else { y }), stack))
        }),
{
    let x = locals[a as int];
    let y = locals[b as int];
    let get_a = WasmOp::Local(LocalOp::LocalGet, a as u32);
    let get_b = WasmOp::Local(LocalOp::LocalGet, b as u32);
    let set = WasmOp::Local(LocalOp::LocalSet, d as u32);
    reveal_with_fuel(crate::ir::compiler::operands_ops, 3);
    let scratch = locals.update(1, y).update(0, x);
    let ts = seq![(Opcode::Min, CompareOp::I32LtS), (Opcode::Max, CompareOp::I32GtS)];
    assert forall|k: int| 0 <= k < 2 implies
        run(instruction_ops(reg_binary(#[trigger] ts[k].0, d, a, b)), locals, stack)
            == Some((scratch.update(d as int, if compare_result(ts[k].1, x, y) != 0 { x } else { y }), stack)) by {
        let (op, t) = ts[k];
        let i = reg_binary(op, d, a, b);
        assert(i.operands.drop_last() =~= seq![Operand::Register(Register(a))]);
        assert(i.operands.drop_last().drop_last() =~= Seq::<Operand>::empty());
        let sel = crate::ir::compiler::select_ops(t);
        assert(instruction_ops(i) =~= seq![get_a] + (seq![get_b] + (sel + seq![set])));
        lemma_run_append(seq![get_a], seq![get_b] + (sel + seq![set]), locals, stack);
        lemma_run_one(get_a, locals, stack);
        lemma_run_append(seq![get_b], sel + seq![set], locals, stack.push(x));
        lemma_run_one(get_b, locals, stack.push(x));
        lemma_run_append(sel, seq![set], locals, stack.push(x).push(y));
        lemma_run_select(t, x, y, locals, stack);
        let v = if compare_result(t, x, y) != 0 { x } else { y };
        lemma_run_one(set, scratch, stack.push(v));
        assert(stack.push(v).drop_last() =~= stack);
    }
    assert(ts[0].0 == Opcode::Min && ts[1].0 == Opcode::Max);
}

/// The absolute-value code: with `x` on the stack, it leaves `|x|`
/// (wrapped, so the least `i32` stays itself), with `x` in local 0.
proof fn lemma_run_abs(x: i32, locals: Seq<i32>, stack: Seq<i32>)
    requires
        locals.len() >= 1,
    ensures
        run(crate::ir::compiler::abs_ops(), locals, stack.push(x))
            == Some((locals.update(0, x), stack.push(if x < 0 { wrap_i32(0 - x) } else { x }))),
{
    let o0 = crate::ir::compiler::abs_ops();
    assert(o0 =~= seq![WasmOp::Local(LocalOp::LocalTee, 0), WasmOp::Misc(MiscOp::I32Const(31)), WasmOp::Arith(ArithOp::I32ShrS), WasmOp::Local(LocalOp::LocalGet, 0), WasmOp::Arith(ArithOp::I32Xor), WasmOp::Local(LocalOp::LocalGet, 0), WasmOp::Misc(MiscOp::I32Const(31)), WasmOp::Arith(ArithOp::I32ShrS), WasmOp::Arith(ArithOp::I32Sub)]);
    assert(o0.len() > 0 && o0[0] == WasmOp::Local(LocalOp::LocalTee, 0));
    let o1 = o0.drop_first();
    assert(o1 =~= seq![WasmOp::Misc(MiscOp::I32Const(31)), WasmOp::Arith(ArithOp::I32ShrS), WasmOp::Local(LocalOp::LocalGet, 0), WasmOp::Arith(ArithOp::I32Xor), WasmOp::Local(LocalOp::LocalGet, 0), WasmOp::Misc(MiscOp::I32Const(31)), WasmOp::Arith(ArithOp::I32ShrS), WasmOp::Arith(ArithOp::I32Sub)]);
    assert(o1.len() > 0 && o1[0] == WasmOp::Misc(MiscOp::I32Const(31)));
    let o2 = o1.drop_first();
    assert(o2 =~= seq![WasmOp::Arith(ArithOp::I32ShrS), WasmOp::Local(LocalOp::LocalGet, 0), WasmOp::Arith(ArithOp::I32Xor), WasmOp::Local(LocalOp::LocalGet, 0), WasmOp::Misc(MiscOp::I32Const(31)), WasmOp::Arith(ArithOp::I32ShrS), WasmOp::Arith(ArithOp::I32Sub)]);
    assert(o2.len() > 0 && o2[0] == WasmOp::Arith(ArithOp::I32ShrS));
    let o3 = o2.drop_first();
    assert(o3 =~= seq![WasmOp::Local(LocalOp::LocalGet, 0), WasmOp::Arith(ArithOp::I32Xor), WasmOp::Local(LocalOp::LocalGet, 0), WasmOp::Misc(MiscOp::I32Const(31)), WasmOp::Arith(ArithOp::I32ShrS), WasmOp::Arith(ArithOp::I32Sub)]);
    assert(o3.len() > 0 && o3[0] == WasmOp::Local(LocalOp::LocalGet, 0));
    let o4 = o3.drop_first();
    assert(o4 =~= seq![WasmOp::Arith(ArithOp::I32Xor), WasmOp::Local(LocalOp::LocalGet, 0), WasmOp::Misc(MiscOp::I32Const(31)), WasmOp::Arith(ArithOp::I32ShrS), WasmOp::Arith(ArithOp::I32Sub)]);
    assert(o4.len() > 0 && o4[0] == WasmOp::Arith(ArithOp::I32Xor));
    let o5 = o4.drop_first();
    assert(o5 =~= seq![WasmOp::Local(LocalOp::LocalGet, 0), WasmOp::Misc(MiscOp::I32Const(31)), WasmOp::Arith(ArithOp::I32ShrS), WasmOp::Arith(ArithOp::I32Sub)]);
    assert(o5.len() > 0 && o5[0] == WasmOp::Local(LocalOp::LocalGet, 0));
    let o6 = o5.drop_first();
    assert(o6 =~= seq![WasmOp::Misc(MiscOp::I32Const(31)), WasmOp::Arith(ArithOp::I32ShrS), WasmOp::Arith(ArithOp::I32Sub)]);
    assert(o6.len() > 0 && o6[0] == WasmOp::Misc(MiscOp::I32Const(31)));
    let o7 = o6.drop_first();
    assert(o7 =~= seq![WasmOp::Arith(ArithOp::I32ShrS), WasmOp::Arith(ArithOp::I32Sub)]);
    assert(o7.len() > 0 && o7[0] == WasmOp::Arith(ArithOp::I32ShrS));
    let o8 = o7.drop_first();
    assert(o8 =~= seq![WasmOp::Arith(ArithOp::I32Sub)]);
    assert(o8.len() > 0 && o8[0] == WasmOp::Arith(ArithOp::I32Sub));
    let o9 = o8.drop_first();
    assert(o9 =~= seq![]);
    let l = locals.update(0, x);
    let sh: i32 = x >> 31u32;
    assert(((31i32 as int) % 32) as u32 == 31u32);
    assert(sh == (if x < 0 { -1i32 } else { 0i32 })) by (bit_vector)
        requires sh == x >> 31u32;
    let xr: i32 = sh ^ x;
    assert(x < 0 ==> xr as int == -(x as int) - 1) by (bit_vector)
        requires sh == (if x < 0 { -1i32 } else { 0i32 }), xr == sh ^ x;
    assert(x >= 0 ==> xr == x) by (bit_vector)
        requires sh == (if x < 0 { -1i32 } else { 0i32 }), xr == sh ^ x;
    let r = wrap_i32(xr - sh);
    assert(x >= 0 ==> r == x);
    assert(x < 0 ==> r == wrap_i32(0 - x));
    let s0 = stack.push(x);
    assert(s0.drop_last() =~= stack);
    lemma_run_step(o0, locals, s0);
    lemma_run_step(o1, l, s0);
    let s2 = s0.push(31i32);
    assert(s2.subrange(0, s2.len() - 2) =~= stack);
    lemma_run_step(o2, l, s2);
    lemma_run_step(o3, l, stack.push(sh));
    let s4 = stack.push(sh).push(x);
    assert(s4.subrange(0, s4.len() - 2) =~= stack);
    lemma_run_step(o4, l, s4);
    lemma_run_step(o5, l, stack.push(xr));
    lemma_run_step(o6, l, stack.push(xr).push(x));
    let s7 = stack.push(xr).push(x).push(31i32);
    assert(s7.subrange(0, s7.len() - 2) =~= stack.push(xr));
    lemma_run_step(o7, l, s7);
    let s8 = stack.push(xr).push(sh);
    assert(s8.subrange(0, s8.len() - 2) =~= stack);
    lemma_run_step(o8, l, s8);
    assert(o9.len() == 0);
}

/// The absolute value computes its meaning: the code of `r_d = |r_a|`
/// stores the value of `r_a` when it is not negative and its wrapped
/// negation otherwise; the stack stays, and local 0, which serves as
/// scratch, ends holding the value of `r_a` unless `d` is 0.
pub proof fn lemma_abs_lowering(d: u8, a: u8, locals: Seq<i32>, stack: Seq<i32>)
    requires
        a < locals.len(),
        d < locals.len(),
    ensures
        ({
            let x = locals[a as int];
            run(instruction_ops(reg_unary(Opcode::Abs, d, a)), locals, stack)
                == Some((locals.update(0, x).update(d as int, if x < 0 { wrap_i32(0 - x) } else { x }), stack))
        }),
{
    let x = locals[a as int];
    let i = reg_unary(Opcode::Abs, d, a);
    let get = WasmOp::Local(LocalOp::LocalGet, a as u32);
    let set = WasmOp::Local(LocalOp::LocalSet, d as u32);
    reveal_with_fuel(crate::ir::compiler::operands_ops, 2);
    assert(i.operands.drop_last() =~= Seq::<Operand>::empty());
    let abs = crate::ir::compiler::abs_ops();
    assert(instruction_ops(i) =~= seq![get] + (abs + seq![set]));
    lemma_run_append(seq![get], abs + seq![set], locals, stack);
    lemma_run_one(get, locals, stack);
    lemma_run_append(abs, seq![set], locals, stack.push(x));
    lemma_run_abs(x, locals, stack);
    let v = if x < 0 { wrap_i32(0 - x) } else { x };
    lemma_run_one(set, locals.update(0, x), stack.push(v));
    assert(stack.push(v).drop_last() =~= stack);
}

/// The code of a block is the code of its instructions in order: the code
/// of two blocks one after the other is the code of the first followed by
/// that of the second, and a single instruction's block has that
/// instruction's code.
pub proof fn lemma_block_code_in_order(b1: Seq<InstructionModel>, b2: Seq<InstructionModel>, i: InstructionModel)
    ensures
        block_ops(b1 + b2) == block_ops(b1) + block_ops(b2),
        block_ops(seq![i]) == instruction_ops(i),
    decreases b2.len(),
{
    if b2.len() > 0 {
        lemma_block_code_in_order(b1, b2.drop_last(), i);
        assert((b1 + b2).drop_last() =~= b1 + b2.drop_last());
        assert((b1 + b2).last() == b2.last());
    } else {
        assert(b1 + b2 =~= b1);
    }
    assert(seq![i].drop_last() =~= Seq::<InstructionModel>::empty());
    assert(block_ops(Seq::<InstructionModel>::empty()) == Seq::<WasmOp>::empty());
    assert(block_ops(seq![i]) =~= instruction_ops(i));
}

/// The code of a function is the code of its blocks, one after the other,
/// then `end`: blocks added after others add their code after the others'.
pub proof fn lemma_function_code_in_order(bs1: Seq<Seq<InstructionModel>>, bs2: Seq<Seq<InstructionModel>>, f: FunctionModel)
    ensures
        blocks_ops(bs1 + bs2) == blocks_ops(bs1) + blocks_ops(bs2),
        body_ops(f) == blocks_ops(f.blocks) + seq![WasmOp::Misc(MiscOp::End)],
        f.blocks.len() == 1 ==> body_ops(f) == block_ops(f.blocks[0]) + seq![WasmOp::Misc(MiscOp::End)],
    decreases bs2.len(),
{
    if bs2.len() > 0 {
        lemma_function_code_in_order(bs1, bs2.drop_last(), f);
        assert((bs1 + bs2).drop_last() =~= bs1 + bs2.drop_last());
        assert((bs1 + bs2).last() == bs2.last());
    } else {
        assert(bs1 + bs2 =~= bs1);
    }
    assert(body_ops(f) =~= blocks_ops(f.blocks) + seq![WasmOp::Misc(MiscOp::End)]);
    if f.blocks.len() == 1 {
        assert(f.blocks.drop_last() =~= Seq::<Seq<InstructionModel>>::empty());
        assert(blocks_ops(Seq::<Seq<InstructionModel>>::empty()) == Seq::<WasmOp>::empty());
        assert(blocks_ops(f.blocks) =~= block_ops(f.blocks[0]));
    }
}

/// The layout of a compiled module: signatures, host imports, one function
/// per program function, one memory, the exports and the bodies, in this
/// order. `init` takes an `i64` and returns nothing, every other function
/// takes and returns an `i32`; each host import has the signature of its
/// host function (two `i32` arguments for reading the environment,
/// moving, attacking and signalling, one for sensing a neighbour, none for
/// energy, age, eating and reproducing; an `i32` answer except for
/// signalling); function `i` is exported under its own name as function
/// `9 + i` (after the nine imports), and the memory as `memory`, of one
/// page at least and the configured pages at most; function `i`'s body
/// declares its locals as `i32` and holds its code.
pub proof fn lemma_module_layout(p: ProgramModel, c: CompilerConfig)
    ensures
        ({
            let m = module_model(p, c);
            let ty = |k: u32| crate::ir::compiler::module_types()[k as int];
            let two = seq![ValTy::I32, ValTy::I32];
            let one = seq![ValTy::I32];
            let none = Seq::<ValTy>::empty();
            &&& m.len() == 6
            &&& m[0] == SectionModel::Types(crate::ir::compiler::module_types())
            &&& m[1] == SectionModel::Imports(module_imports())
            &&& module_imports().len() == 9
            &&& forall|k: int| 0 <= k < 9 ==> (#[trigger] module_imports()[k]).0 == "env"@
            &&& ty(module_imports()[0].2) == (two, one)
            &&& ty(module_imports()[1].2) == (none, one)
            &&& ty(module_imports()[2].2) == (none, one)
            &&& ty(module_imports()[3].2) == (two, one)
            &&& ty(module_imports()[4].2) == (none, one)
            &&& ty(module_imports()[5].2) == (two, one)
            &&& ty(module_imports()[6].2) == (one, one)
            &&& ty(module_imports()[7].2) == (none, one)
            &&& ty(module_imports()[8].2) == (two, none)
            &&& ty(0) == (seq![ValTy::I64], none)
            &&& ty(1) == (one, one)
            &&& m[2] == SectionModel::Functions(Seq::new(p.functions.len(), |i: int| if p.functions[i].name == "init"@ { 0u32 } else { 1u32 }))
            &&& m[3] == SectionModel::Memories(seq![(1u64, Some(c.max_memory_pages as u64))])
            &&& m[4] matches SectionModel::Exports(ex) && {
                &&& ex.len() == p.functions.len() + 1
                &&& forall|i: int| 0 <= i < p.functions.len() ==> #[trigger] ex[i] == (p.functions[i].name, ExportKindModel::Func, (9 + i) as u32)
                &&& ex.last() == ("memory"@, ExportKindModel::Memory, 0u32)
            }
            &&& m[5] matches SectionModel::Code(code) && {
                &&& code.len() == p.functions.len()
                &&& forall|i: int| 0 <= i < p.functions.len() ==> #[trigger] code[i] == (
                    if p.functions[i].num_locals > 0 { seq![(p.functions[i].num_locals as u32, ValTy::I32)] } else { seq![] },
                    body_ops(p.functions[i]),
                )
            }
        }),
{
    crate::ir::compiler::lemma_import_indices();
    let m = module_model(p, c);
    assert(Seq::new(p.functions.len(), |i: int| crate::ir::compiler::function_type_index(p.functions[i]))
        =~= Seq::new(p.functions.len(), |i: int| if p.functions[i].name == "init"@ { 0u32 } else { 1u32 }));
    let ex = crate::ir::compiler::module_exports(p.functions);
    assert(ex.last() == ("memory"@, ExportKindModel::Memory, 0u32));
    assert(ex.len() == p.functions.len() + 1);
    assert forall|i: int| 0 <= i < p.functions.len() implies #[trigger] ex[i] == (p.functions[i].name, ExportKindModel::Func, (9 + i) as u32) by {}
}

/// Returns and the instructions without a lowering: `return r_a` reads
/// `r_a` then returns, a bare `return` only returns, and branches, calls,
/// loads and stores emit nothing.
pub proof fn lemma_control_lowering(a: u8, i: InstructionModel)
    ensures
        instruction_ops(InstructionModel { opcode: Opcode::Return, dest: None, operands: seq![Operand::Register(Register(a))] })
            == seq![WasmOp::Local(LocalOp::LocalGet, a as u32), WasmOp::Misc(MiscOp::Return)],
        instruction_ops(InstructionModel { opcode: Opcode::Return, dest: None, operands: seq![] })
            == seq![WasmOp::Misc(MiscOp::Return)],
        i.opcode == Opcode::Branch || i.opcode == Opcode::BranchIf || i.opcode == Opcode::Call
            || i.opcode == Opcode::Load || i.opcode == Opcode::Store ==> instruction_ops(i) == Seq::<WasmOp>::empty(),
{
    reveal_with_fuel(crate::ir::compiler::operands_ops, 2);
    let r = InstructionModel { opcode: Opcode::Return, dest: None, operands: seq![Operand::Register(Register(a))] };
    assert(r.operands.drop_last() =~= Seq::<Operand>::empty());
    assert(instruction_ops(r) =~= seq![WasmOp::Local(LocalOp::LocalGet, a as u32), WasmOp::Misc(MiscOp::Return)]);
    let e = InstructionModel { opcode: Opcode::Return, dest: None, operands: seq![] };
    assert(instruction_ops(e) =~= seq![WasmOp::Misc(MiscOp::Return)]);
}

} // verus!
