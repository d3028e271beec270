use arith_vm::bytecode::{InsnOpcode, InsnOperand, Instruction};
use arith_vm::vm::{run, RuntimeError, State};

fn one(opcode: InsnOpcode, a: InsnOperand) -> Instruction {
    Instruction::unary(opcode, a)
}

fn two(opcode: InsnOpcode, dest: InsnOperand, src: InsnOperand) -> Instruction {
    Instruction::binary(opcode, dest, src)
}

fn ldc(dest: InsnOperand, value: i32) -> Instruction {
    two(InsnOpcode::Ldc, dest, InsnOperand::Imm(value))
}

fn push(value: i32) -> Instruction {
    one(InsnOpcode::Push, InsnOperand::Imm(value))
}

fn illegal(program: Vec<Instruction>) -> bool {
    let last = program.len() - 1;
    run(program) == Err(RuntimeError::IllegalInstruction { pc: last })
}

#[test]
fn constructors_put_the_destination_first() {
    assert_eq!(
        two(InsnOpcode::Sub, InsnOperand::Reg3, InsnOperand::Stack(2)),
        Instruction {
            opcode: InsnOpcode::Sub,
            operands: vec![InsnOperand::Reg3, InsnOperand::Stack(2)],
        }
    );
    assert_eq!(
        one(InsnOpcode::Pop, InsnOperand::Reg7),
        Instruction { opcode: InsnOpcode::Pop, operands: vec![InsnOperand::Reg7] }
    );
}

#[test]
fn empty_program_leaves_the_initial_machine() {
    let state = run(vec![]).unwrap();
    let shown = state.debug();
    assert_eq!(shown.i, 0);
    assert_eq!(
        [
            shown.reg0, shown.reg1, shown.reg2, shown.reg3, shown.reg4, shown.reg5, shown.reg6,
            shown.reg7
        ],
        [0; 8]
    );
    assert!(shown.stack.is_empty());
    assert!(state.halted());
}

#[test]
fn adds_two_constants() {
    let program = vec![
        ldc(InsnOperand::Reg0, 1),
        ldc(InsnOperand::Reg1, 2),
        two(InsnOpcode::Add, InsnOperand::Reg0, InsnOperand::Reg1),
    ];
    let state = run(program).unwrap();
    assert_eq!(state.register(0), 3);
    assert_eq!(state.register(1), 2);
    assert_eq!(state.pc(), 3);
}

#[test]
fn every_register_can_be_written() {
    let registers = [
        InsnOperand::Reg0,
        InsnOperand::Reg1,
        InsnOperand::Reg2,
        InsnOperand::Reg3,
        InsnOperand::Reg4,
        InsnOperand::Reg5,
        InsnOperand::Reg6,
        InsnOperand::Reg7,
    ];
    let program: Vec<Instruction> =
        registers.iter().enumerate().map(|(i, r)| ldc(*r, 10 + i as i32)).collect();
    let state = run(program).unwrap();
    for i in 0..8 {
        assert_eq!(state.register(i), 10 + i as i32);
    }
    let shown = state.debug();
    assert_eq!((shown.reg0, shown.reg3, shown.reg7), (10, 13, 17));
    assert_eq!(shown.i, 8);
}

#[test]
fn loads_accumulate() {
    let program = vec![
        ldc(InsnOperand::Reg0, 5),
        ldc(InsnOperand::Reg0, 6),
        ldc(InsnOperand::Reg1, 100),
        two(InsnOpcode::Copy, InsnOperand::Reg1, InsnOperand::Reg0),
    ];
    let state = run(program).unwrap();
    assert_eq!(state.register(0), 11);
    assert_eq!(state.register(1), 111);
}

#[test]
fn constant_load_reads_a_stack_cell() {
    let program = vec![push(40), two(InsnOpcode::Ldc, InsnOperand::Reg2, InsnOperand::Stack(0))];
    assert_eq!(run(program).unwrap().register(2), 40);
}

#[test]
fn arithmetic_on_stack_cells() {
    let program = vec![
        push(0),
        push(0),
        ldc(InsnOperand::Stack(0), 20),
        ldc(InsnOperand::Stack(1), 6),
        two(InsnOpcode::Sub, InsnOperand::Stack(0), InsnOperand::Stack(1)),
        two(InsnOpcode::Mul, InsnOperand::Stack(1), InsnOperand::Stack(0)),
        two(InsnOpcode::Div, InsnOperand::Stack(1), InsnOperand::Stack(0)),
        two(InsnOpcode::Copy, InsnOperand::Stack(0), InsnOperand::Stack(1)),
        two(InsnOpcode::Add, InsnOperand::Stack(1), InsnOperand::Stack(1)),
    ];
    let state = run(program).unwrap();
    assert_eq!(state.stack(), &vec![20, 12]);
}

#[test]
fn stack_cells_are_counted_from_the_bottom() {
    let program = vec![push(1), push(2), push(3), ldc(InsnOperand::Stack(0), 10)];
    assert_eq!(run(program).unwrap().stack(), &vec![11, 2, 3]);
}

#[test]
fn push_and_pop() {
    let program = vec![
        ldc(InsnOperand::Reg4, 9),
        one(InsnOpcode::Push, InsnOperand::Reg4),
        push(-3),
        one(InsnOpcode::Pop, InsnOperand::Reg0),
        one(InsnOpcode::Pop, InsnOperand::Reg1),
    ];
    let state = run(program).unwrap();
    assert_eq!(state.register(0), -3);
    assert_eq!(state.register(1), 9);
    assert!(state.stack().is_empty());
}

#[test]
fn pop_overwrites_the_register() {
    let program = vec![ldc(InsnOperand::Reg0, 5), push(2), one(InsnOpcode::Pop, InsnOperand::Reg0)];
    assert_eq!(run(program).unwrap().register(0), 2);
}

#[test]
fn extra_operands_are_ignored() {
    let program = vec![
        Instruction {
            opcode: InsnOpcode::Ldc,
            operands: vec![InsnOperand::Reg0, InsnOperand::Imm(4), InsnOperand::Imm(9)],
        },
        Instruction {
            opcode: InsnOpcode::Push,
            operands: vec![InsnOperand::Reg0, InsnOperand::Stack(7)],
        },
    ];
    let state = run(program).unwrap();
    assert_eq!(state.register(0), 4);
    assert_eq!(state.stack(), &vec![4]);
}

#[test]
fn missing_operands_are_illegal() {
    for opcode in [
        InsnOpcode::Ldc,
        InsnOpcode::Copy,
        InsnOpcode::Add,
        InsnOpcode::Sub,
        InsnOpcode::Mul,
        InsnOpcode::Div,
    ] {
        assert!(illegal(vec![Instruction { opcode, operands: vec![] }]));
        assert!(illegal(vec![one(opcode, InsnOperand::Reg0)]));
    }
    assert!(illegal(vec![Instruction { opcode: InsnOpcode::Push, operands: vec![] }]));
    assert!(illegal(vec![push(1), Instruction { opcode: InsnOpcode::Pop, operands: vec![] }]));
}

#[test]
fn immediate_is_never_a_destination() {
    for opcode in [
        InsnOpcode::Ldc,
        InsnOpcode::Copy,
        InsnOpcode::Add,
        InsnOpcode::Sub,
        InsnOpcode::Mul,
        InsnOpcode::Div,
    ] {
        assert!(illegal(vec![push(1), two(opcode, InsnOperand::Imm(0), InsnOperand::Stack(0))]));
    }
    assert!(illegal(vec![push(1), one(InsnOpcode::Pop, InsnOperand::Imm(0))]));
}

#[test]
fn immediate_is_a_source_only_for_load_and_push() {
    for opcode in
        [InsnOpcode::Copy, InsnOpcode::Add, InsnOpcode::Sub, InsnOpcode::Mul, InsnOpcode::Div]
    {
        assert!(illegal(vec![two(opcode, InsnOperand::Reg0, InsnOperand::Imm(1))]));
    }
}

#[test]
fn constant_load_does_not_read_registers() {
    assert!(illegal(vec![two(InsnOpcode::Ldc, InsnOperand::Reg0, InsnOperand::Reg1)]));
}

#[test]
fn push_does_not_read_stack_cells() {
    assert!(illegal(vec![push(1), one(InsnOpcode::Push, InsnOperand::Stack(0))]));
}

#[test]
fn pop_needs_a_value_and_a_register() {
    assert!(illegal(vec![one(InsnOpcode::Pop, InsnOperand::Reg0)]));
    assert!(illegal(vec![push(1), one(InsnOpcode::Pop, InsnOperand::Stack(0))]));
}

#[test]
fn stack_index_out_of_range() {
    assert_eq!(
        run(vec![push(1), ldc(InsnOperand::Stack(1), 5)]),
        Err(RuntimeError::StackOutOfBounds { pc: 1, index: 1 })
    );
    assert_eq!(
        run(vec![two(InsnOpcode::Add, InsnOperand::Reg0, InsnOperand::Stack(3))]),
        Err(RuntimeError::StackOutOfBounds { pc: 0, index: 3 })
    );
}

#[test]
fn source_is_resolved_before_destination() {
    assert_eq!(
        run(vec![two(InsnOpcode::Add, InsnOperand::Stack(8), InsnOperand::Stack(9))]),
        Err(RuntimeError::StackOutOfBounds { pc: 0, index: 9 })
    );
    assert_eq!(
        run(vec![two(InsnOpcode::Add, InsnOperand::Imm(0), InsnOperand::Stack(9))]),
        Err(RuntimeError::StackOutOfBounds { pc: 0, index: 9 })
    );
    assert_eq!(
        run(vec![two(InsnOpcode::Add, InsnOperand::Stack(9), InsnOperand::Imm(0))]),
        Err(RuntimeError::IllegalInstruction { pc: 0 })
    );
}

#[test]
fn division_by_zero_stops_the_machine() {
    let program = vec![
        ldc(InsnOperand::Reg0, 7),
        two(InsnOpcode::Div, InsnOperand::Reg0, InsnOperand::Reg1),
        ldc(InsnOperand::Reg0, 1),
    ];
    let error = run(program).unwrap_err();
    assert_eq!(error, RuntimeError::DivisionByZero { pc: 1 });
    assert_eq!(error.pc(), 1);
}

#[test]
fn divisor_is_examined_after_the_operands() {
    assert_eq!(
        run(vec![two(InsnOpcode::Div, InsnOperand::Stack(0), InsnOperand::Reg1)]),
        Err(RuntimeError::StackOutOfBounds { pc: 0, index: 0 })
    );
}

#[test]
fn error_reports_its_instruction() {
    assert_eq!(RuntimeError::IllegalInstruction { pc: 4 }.pc(), 4);
    assert_eq!(RuntimeError::StackOutOfBounds { pc: 5, index: 9 }.pc(), 5);
    assert_eq!(RuntimeError::DivisionByZero { pc: 6 }.pc(), 6);
}

#[test]
fn stepping_by_hand() {
    let program = vec![ldc(InsnOperand::Reg3, 5), push(8)];
    let mut state = State::new(program);
    assert_eq!(state.pc(), 0);
    assert!(!state.halted());
    assert_eq!(state.step(), Ok(()));
    assert_eq!(state.pc(), 1);
    assert_eq!(state.register(3), 5);
    assert_eq!(state.step(), Ok(()));
    assert!(state.halted());
    assert_eq!(state.stack(), &vec![8]);
}

#[test]
fn step_leaves_the_machine_unchanged_on_failure() {
    let program = vec![
        ldc(InsnOperand::Reg3, 5),
        push(1),
        one(InsnOpcode::Pop, InsnOperand::Stack(0)),
    ];
    let mut state = State::new(program);
    assert_eq!(state.step(), Ok(()));
    assert_eq!(state.step(), Ok(()));
    let before = state.clone();
    assert_eq!(state.step(), Err(RuntimeError::IllegalInstruction { pc: 2 }));
    assert_eq!(state, before);
    assert_eq!(state.stack(), &vec![1]);
    assert!(!state.halted());
}

#[test]
fn wrapping_in_the_machine() {
    let program = vec![
        ldc(InsnOperand::Reg0, i32::MAX),
        ldc(InsnOperand::Reg0, 1),
        ldc(InsnOperand::Reg1, i32::MIN),
        ldc(InsnOperand::Reg2, -1),
        two(InsnOpcode::Div, InsnOperand::Reg1, InsnOperand::Reg2),
    ];
    let state = run(program).unwrap();
    assert_eq!(state.register(0), i32::MIN);
    assert_eq!(state.register(1), i32::MIN);
}
