use evo_wasm::ir::instruction::{Instruction, Opcode, Operand, Register, Value};

#[test]
fn test_opcode_properties() {
    assert!(Opcode::Branch.is_control_flow());
    assert!(!Opcode::Add.is_control_flow());

    assert!(Opcode::GetEnergy.is_host_call());
    assert!(!Opcode::Add.is_host_call());

    assert_eq!(Opcode::Add.num_operands(), 2);
    assert_eq!(Opcode::Not.num_operands(), 1);
    assert_eq!(Opcode::GetEnergy.num_operands(), 0);
}

#[test]
fn test_value_conversions() {
    let v = Value::Int(42);
    assert_eq!(v.as_i32(), 42);
    assert!(v.as_bool());

    let v = Value::Bool(false);
    assert_eq!(v.as_i32(), 0);
    assert!(!v.as_bool());
}

#[test]
fn float_immediates_convert_like_rust_casts() {
    for f in [0.0f32, -0.0, 1.5, -1.5, 42.9, -42.9, 1e10, -1e10, 2147483520.0, -2147483648.0,
              0.3, 8388607.5, 16777216.0, f32::INFINITY, f32::NEG_INFINITY, f32::NAN, 1e-40] {
        let v = Value::Float(f.to_bits());
        assert_eq!(v.as_i32(), f as i32, "cast of {}", f);
        assert_eq!(v.as_bool(), f != 0.0, "truth of {}", f);
    }
}

#[test]
fn test_instruction_builders() {
    let inst = Instruction::arithmetic(Opcode::Add, Register(0), Register(1), Register(2));
    assert_eq!(inst.opcode, Opcode::Add);
    assert_eq!(inst.dest, Some(Register(0)));
    assert_eq!(inst.operands.len(), 2);

    let inst = Instruction::load_const(Register(0), Value::Int(42));
    assert_eq!(inst.opcode, Opcode::LoadConst);
    assert_eq!(inst.dest, Some(Register(0)));

    let inst = Instruction::branch_if(Register(0), 1);
    assert_eq!(inst.opcode, Opcode::BranchIf);
    assert_eq!(inst.operands.len(), 2);
}

#[test]
fn chained_builders_collect_operands_in_order() {
    let inst = Instruction::new(Opcode::Move)
        .with_operand(Operand::Immediate(Value::Int(1)))
        .with_operand(Operand::Register(Register(3)))
        .with_dest(Register(7));
    assert_eq!(inst.operands, vec![Operand::Immediate(Value::Int(1)), Operand::Register(Register(3))]);
    assert_eq!(inst.dest, Some(Register(7)));
    let inst = inst.with_operands(vec![]);
    assert!(inst.operands.is_empty());
    assert_eq!(Instruction::return_void().operands.len(), 0);
    assert_eq!(Instruction::return_value(Register(2)).operands, vec![Operand::Register(Register(2))]);
    assert_eq!(Instruction::branch(3).operands, vec![Operand::BlockIndex(3)]);
}
