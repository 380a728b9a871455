//! Instruction set of the organism genome.

use vstd::prelude::*;
use vstd::arithmetic::power2::pow2;

verus! {

/// Register identifier (a local variable of the compiled function).
#[derive(Debug, Clone, Copy, PartialEq, Eq, Hash, Structural)]
pub struct Register(pub u8);

/// Immediate value. A float immediate is carried as the bit pattern of an
/// IEEE-754 single-precision number.
#[derive(Debug, Clone, Copy, PartialEq, Eq, Structural)]
pub enum Value {
    Int(i32),
    Float(u32),
    Bool(bool),
}

/// The sign bit of a single-precision bit pattern.
pub open spec fn f32_sign(bits: u32) -> bool {
    bits >= 0x8000_0000
}

/// The biased exponent field of a single-precision bit pattern.
pub open spec fn f32_exponent(bits: u32) -> int {
    (bits as int / 0x80_0000) % 256
}

/// The fraction field of a single-precision bit pattern.
pub open spec fn f32_fraction(bits: u32) -> int {
    bits as int % 0x80_0000
}

/// What Rust's `f as i32` gives for the single-precision number with these
/// bits: the value rounded toward zero, saturated to the `i32` range, and
/// `0` for NaN.
pub open spec fn f32_bits_to_i32(bits: u32) -> i32 {
    let exp = f32_exponent(bits);
    let frac = f32_fraction(bits);
    let neg = f32_sign(bits);
    if exp == 255 && frac != 0 {
        0
    } else if exp >= 158 {
        if neg { i32::MIN } else { i32::MAX }
    } else if exp < 127 {
        0
    } else {
        let sig = frac + 0x80_0000;
        let e = exp - 127;
        let mag = if e >= 23 { sig * pow2((e - 23) as nat) } else { sig / (pow2((23 - e) as nat) as int) };
        (if neg { -mag } else { mag }) as i32
    }
}

/// Whether the single-precision number with these bits differs from zero
/// (NaN differs from zero; both zeros do not).
pub open spec fn f32_bits_nonzero(bits: u32) -> bool {
    bits as int % 0x8000_0000 != 0
}

impl Value {
    pub open spec fn spec_as_i32(self) -> i32 {
        match self {
            Value::Int(v) => v,
            Value::Float(bits) => f32_bits_to_i32(bits),
            Value::Bool(b) => if b { 1i32 } else { 0i32 },
        }
    }

    pub open spec fn spec_as_bool(self) -> bool {
        match self {
            Value::Int(v) => v != 0,
            Value::Float(bits) => f32_bits_nonzero(bits),
            Value::Bool(b) => b,
        }
    }

    /// The value as an `i32`: integers as they are, floats rounded toward
    /// zero with saturation (NaN gives 0), booleans as 0 or 1.
    pub fn as_i32(&self) -> (r: i32)
        ensures
            r == self.spec_as_i32(),
    {
        match self {
            Value::Int(v) => *v,
            Value::Float(bits) => f32_bits_as_i32(*bits),
            Value::Bool(b) => if *b { 1 } else { 0 },
        }
    }

    /// The value as a boolean: whether it differs from zero.
    pub fn as_bool(&self) -> (r: bool)
        ensures
            r == self.spec_as_bool(),
    {
        match self {
            Value::Int(v) => *v != 0,
            Value::Float(bits) => {
                let b = *bits;
                let m = b & 0x7fff_ffff;
                assert(m == b % 0x8000_0000) by (bit_vector)
                    requires m == b & 0x7fff_ffff;
                m != 0
            },
            Value::Bool(b) => *b,
        }
    }
}

/// Rust's float-to-integer `as` cast, computed on the bit pattern.
fn f32_bits_as_i32(bits: u32) -> (r: i32)
    ensures
        r == f32_bits_to_i32(bits),
{
    let exp = (bits >> 23) & 0xff;
    let frac = bits & 0x7f_ffff;
    let neg = bits >= 0x8000_0000;
    assert(exp == (bits / 0x80_0000) % 256) by (bit_vector)
        requires exp == (bits >> 23) & 0xff;
    assert(frac == bits % 0x80_0000) by (bit_vector)
        requires frac == bits & 0x7f_ffff;
    if exp == 255 && frac != 0 {
        0
    } else if exp >= 158 {
        if neg { i32::MIN } else { i32::MAX }
    } else if exp < 127 {
        0
    } else {
        let sig = frac | 0x80_0000;
        assert(sig == frac + 0x80_0000) by (bit_vector)
            requires sig == frac | 0x80_0000, frac < 0x80_0000;
        let e = exp - 127;
        let mag: u32 = if e >= 23 {
            let s = e - 23;
            proof {
                vstd::arithmetic::power2::lemma2_to64();
                assert(s <= 7);
                lemma_pow2_le_128(s as nat);
                assert(sig * pow2(s as nat) <= (0xff_ffff * 128)) by (nonlinear_arith)
                    requires sig <= 0xff_ffff, pow2(s as nat) <= 128;
                vstd::bits::lemma_u32_shl_is_mul(sig, s);
            }
            sig << s
        } else {
            let s = 23 - e;
            proof {
                vstd::bits::lemma_u32_shr_is_div(sig, s);
                vstd::arithmetic::power2::lemma_pow2_pos(s as nat);
                vstd::arithmetic::div_mod::lemma_div_nonincreasing(sig as int, pow2(s as nat) as int);
            }
            sig >> s
        };
        assert(mag < 0x8000_0000);
        if neg { -(mag as i32) } else { mag as i32 }
    }
}

/// Powers of two up to the seventh.
proof fn lemma_pow2_le_128(s: nat)
    requires
        s <= 7,
    ensures
        pow2(s) <= 128,
{
    vstd::arithmetic::power2::lemma2_to64();
}

/// IR opcode.
#[derive(Debug, Clone, Copy, PartialEq, Eq, Hash, Structural)]
pub enum Opcode {
    // Arithmetic
    Add,
    Sub,
    Mul,
    Div,
    Mod,
    Neg,
    Abs,
    Min,
    Max,
    // Comparison
    Eq,
    Ne,
    Lt,
    Le,
    Gt,
    Ge,
    // Logical
    And,
    Or,
    Not,
    Xor,
    // Memory
    Load,
    Store,
    LoadConst,
    // Control flow
    Branch,
    BranchIf,
    Call,
    Return,
    // Host calls (organism ABI)
    SenseEnv,
    SenseNeighbor,
    GetEnergy,
    GetAge,
    Move,
    Eat,
    Attack,
    Reproduce,
    EmitSignal,
}

impl Opcode {
    pub open spec fn spec_is_control_flow(self) -> bool {
        self is Branch || self is BranchIf || self is Call || self is Return
    }

    pub open spec fn spec_is_host_call(self) -> bool {
        ||| self is SenseEnv
        ||| self is SenseNeighbor
        ||| self is GetEnergy
        ||| self is GetAge
        ||| self is Move
        ||| self is Eat
        ||| self is Attack
        ||| self is Reproduce
        ||| self is EmitSignal
    }

    pub open spec fn spec_num_operands(self) -> usize {
        match self {
            Opcode::Neg | Opcode::Not | Opcode::Abs => 1,
            Opcode::Add | Opcode::Sub | Opcode::Mul | Opcode::Div | Opcode::Mod => 2,
            Opcode::Eq | Opcode::Ne | Opcode::Lt | Opcode::Le | Opcode::Gt | Opcode::Ge => 2,
            Opcode::And | Opcode::Or | Opcode::Xor => 2,
            Opcode::Min | Opcode::Max => 2,
            Opcode::Load | Opcode::Store => 1,
            Opcode::LoadConst => 0,
            Opcode::Branch => 0,
            Opcode::BranchIf => 1,
            Opcode::Call => 0,
            Opcode::Return => 0,
            Opcode::SenseEnv => 2,
            Opcode::SenseNeighbor => 1,
            Opcode::GetEnergy => 0,
            Opcode::GetAge => 0,
            Opcode::Move => 2,
            Opcode::Eat => 0,
            Opcode::Attack => 2,
            Opcode::Reproduce => 0,
            Opcode::EmitSignal => 2,
        }
    }

    /// Returns true if this opcode is a control flow instruction.
    pub fn is_control_flow(&self) -> (r: bool)
        ensures
            r == self.spec_is_control_flow(),
    {
        matches!(self, Opcode::Branch | Opcode::BranchIf | Opcode::Call | Opcode::Return)
    }

    /// Returns true if this opcode is a host call (organism ABI).
    pub fn is_host_call(&self) -> (r: bool)
        ensures
            r == self.spec_is_host_call(),
    {
        matches!(
            self,
            Opcode::SenseEnv | Opcode::SenseNeighbor | Opcode::GetEnergy | Opcode::GetAge
                | Opcode::Move | Opcode::Eat | Opcode::Attack | Opcode::Reproduce
                | Opcode::EmitSignal
        )
    }

    /// Returns the number of operands this opcode expects.
    pub fn num_operands(&self) -> (r: usize)
        ensures
            r == self.spec_num_operands(),
    {
        match self {
            Opcode::Neg | Opcode::Not | Opcode::Abs => 1,
            Opcode::Add | Opcode::Sub | Opcode::Mul | Opcode::Div | Opcode::Mod => 2,
            Opcode::Eq | Opcode::Ne | Opcode::Lt | Opcode::Le | Opcode::Gt | Opcode::Ge => 2,
            Opcode::And | Opcode::Or | Opcode::Xor => 2,
            Opcode::Min | Opcode::Max => 2,
            Opcode::Load | Opcode::Store => 1,
            Opcode::LoadConst => 0,
            Opcode::Branch => 0,
            Opcode::BranchIf => 1,
            Opcode::Call => 0,
            Opcode::Return => 0,
            Opcode::SenseEnv => 2,
            Opcode::SenseNeighbor => 1,
            Opcode::GetEnergy => 0,
            Opcode::GetAge => 0,
            Opcode::Move => 2,
            Opcode::Eat => 0,
            Opcode::Attack => 2,
            Opcode::Reproduce => 0,
            Opcode::EmitSignal => 2,
        }
    }
}

/// No opcode is both a control-flow instruction and a host call, and every
/// opcode takes at most two operands.
pub proof fn lemma_opcode_classes(op: Opcode)
    ensures
        !(op.spec_is_control_flow() && op.spec_is_host_call()),
        op.spec_num_operands() <= 2,
{
}

/// An instruction operand.
#[derive(Debug, Clone, Copy, PartialEq, Eq, Structural)]
pub enum Operand {
    Register(Register),
    Immediate(Value),
    BlockIndex(u32),
    FunctionIndex(u32),
}

/// A single instruction in the IR.
#[derive(Debug, PartialEq)]
pub struct Instruction {
    pub opcode: Opcode,
    pub dest: Option<Register>,
    pub operands: Vec<Operand>,
}

/// The mathematical content of an instruction.
pub ghost struct InstructionModel {
    pub opcode: Opcode,
    pub dest: Option<Register>,
    pub operands: Seq<Operand>,
}

impl View for Instruction {
    type V = InstructionModel;

    open spec fn view(&self) -> InstructionModel {
        InstructionModel { opcode: self.opcode, dest: self.dest, operands: self.operands@ }
    }
}

impl Clone for Instruction {
    fn clone(&self) -> (r: Self)
        ensures
            r@ == self@,
    {
        let mut operands: Vec<Operand> = Vec::new();
        let mut i: usize = 0;
        while i < self.operands.len()
            invariant
                i <= self.operands@.len(),
                operands@ == self.operands@.subrange(0, i as int),
            decreases self.operands@.len() - i,
        {
            operands.push(self.operands[i]);
            i += 1;
        }
        assert(operands@ == self.operands@);
        Instruction { opcode: self.opcode, dest: self.dest, operands }
    }
}

impl Instruction {
    pub fn new(opcode: Opcode) -> (r: Instruction)
        ensures
            r@ == (InstructionModel { opcode, dest: None, operands: seq![] }),
    {
        Instruction { opcode, dest: None, operands: Vec::new() }
    }

    pub fn with_dest(self, reg: Register) -> (r: Instruction)
        ensures
            r@ == (InstructionModel { dest: Some(reg), ..self@ }),
    {
        let mut s = self;
        s.dest = Some(reg);
        s
    }

    pub fn with_operand(self, operand: Operand) -> (r: Instruction)
        ensures
            r@ == (InstructionModel { operands: self@.operands.push(operand), ..self@ }),
    {
        let mut s = self;
        s.operands.push(operand);
        s
    }

    pub fn with_operands(self, operands: Vec<Operand>) -> (r: Instruction)
        ensures
            r@ == (InstructionModel { operands: operands@, ..self@ }),
    {
        let mut s = self;
        s.operands = operands;
        s
    }

    /// A binary instruction `dest = a <op> b`.
    pub fn arithmetic(opcode: Opcode, dest: Register, a: Register, b: Register) -> (r: Instruction)
        ensures
            r@ == (InstructionModel {
                opcode,
                dest: Some(dest),
                operands: seq![Operand::Register(a), Operand::Register(b)],
            }),
    {
        let mut operands: Vec<Operand> = Vec::new();
        operands.push(Operand::Register(a));
        operands.push(Operand::Register(b));
        assert(operands@ =~= seq![Operand::Register(a), Operand::Register(b)]);
        Instruction { opcode, dest: Some(dest), operands }
    }

    /// A load-constant instruction `dest = value`.
    pub fn load_const(dest: Register, value: Value) -> (r: Instruction)
        ensures
            r@ == (InstructionModel {
                opcode: Opcode::LoadConst,
                dest: Some(dest),
                operands: seq![Operand::Immediate(value)],
            }),
    {
        let mut operands: Vec<Operand> = Vec::new();
        operands.push(Operand::Immediate(value));
        Instruction { opcode: Opcode::LoadConst, dest: Some(dest), operands }
    }

    /// An unconditional branch to a block.
    pub fn branch(block: u32) -> (r: Instruction)
        ensures
            r@ == (InstructionModel {
                opcode: Opcode::Branch,
                dest: None,
                operands: seq![Operand::BlockIndex(block)],
            }),
    {
        let mut operands: Vec<Operand> = Vec::new();
        operands.push(Operand::BlockIndex(block));
        Instruction { opcode: Opcode::Branch, dest: None, operands }
    }

    /// A conditional branch to a block.
    pub fn branch_if(condition: Register, block: u32) -> (r: Instruction)
        ensures
            r@ == (InstructionModel {
                opcode: Opcode::BranchIf,
                dest: None,
                operands: seq![Operand::Register(condition), Operand::BlockIndex(block)],
            }),
    {
        let mut operands: Vec<Operand> = Vec::new();
        operands.push(Operand::Register(condition));
        operands.push(Operand::BlockIndex(block));
        assert(operands@ =~= seq![Operand::Register(condition), Operand::BlockIndex(block)]);
        Instruction { opcode: Opcode::BranchIf, dest: None, operands }
    }

    /// A return without a value.
    pub fn return_void() -> (r: Instruction)
        ensures
            r@ == (InstructionModel { opcode: Opcode::Return, dest: None, operands: seq![] }),
    {
        Instruction { opcode: Opcode::Return, dest: None, operands: Vec::new() }
    }

    /// A return of a register's value.
    pub fn return_value(reg: Register) -> (r: Instruction)
        ensures
            r@ == (InstructionModel {
                opcode: Opcode::Return,
                dest: None,
                operands: seq![Operand::Register(reg)],
            }),
    {
        let mut operands: Vec<Operand> = Vec::new();
        operands.push(Operand::Register(reg));
        Instruction { opcode: Opcode::Return, dest: None, operands }
    }
}

} // verus!
