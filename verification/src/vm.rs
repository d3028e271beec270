//! The virtual machine: eight registers, a value stack and a program counter.
//!
//! [`Machine`] is the mathematical model of the machine and [`step`] the
//! meaning of one instruction on it. [`State`] is the executable machine;
//! every operation on it is specified by the model.

use vstd::prelude::*;
use crate::arith::{apply, compute, BinOp};
use crate::bytecode::{InsnOpcode, InsnOperand, InsnView, Instruction};

verus! {

/// Why an execution stopped early. Every variant carries the index of the
/// instruction that failed.
#[derive(Debug, Copy, Clone, PartialEq, Eq, Structural)]
pub enum RuntimeError {
    /// The instruction lacks an operand, has an operand of a kind its opcode
    /// does not take, or pops an empty stack.
    IllegalInstruction { pc: usize },
    /// An operand names the stack cell `index`, which does not exist.
    StackOutOfBounds { pc: usize, index: usize },
    /// The divisor of a division was zero.
    DivisionByZero { pc: usize },
}

impl RuntimeError {
    /// The index of the instruction that failed.
    pub open spec fn at(self) -> usize {
        match self {
            RuntimeError::IllegalInstruction { pc } => pc,
            RuntimeError::StackOutOfBounds { pc, .. } => pc,
            RuntimeError::DivisionByZero { pc } => pc,
        }
    }

    /// The index of the instruction that failed.
    pub fn pc(&self) -> (pc: usize)
        ensures
            pc == self.at(),
    {
        match self {
            RuntimeError::IllegalInstruction { pc } => *pc,
            RuntimeError::StackOutOfBounds { pc, .. } => *pc,
            RuntimeError::DivisionByZero { pc } => *pc,
        }
    }
}

/// The machine as a mathematical value.
pub struct Machine {
    /// How many instructions have been executed.
    pub pc: nat,
    /// The eight registers.
    pub regs: Seq<i32>,
    /// The value stack, bottom first.
    pub stack: Seq<i32>,
}

impl Machine {
    /// The machine before the first instruction: registers zero, stack empty.
    pub open spec fn initial() -> Machine {
        Machine { pc: 0, regs: Seq::new(8, |i: int| 0i32), stack: Seq::empty() }
    }

    /// A machine has exactly eight registers.
    pub open spec fn wf(self) -> bool {
        self.regs.len() == 8
    }

    /// Whether `loc` can be resolved: every operand but a stack cell beyond
    /// the top of the stack.
    pub open spec fn addressable(self, loc: InsnOperand) -> bool {
        loc matches InsnOperand::Stack(n) ==> n < self.stack.len()
    }

    /// The value that `loc` resolves to.
    pub open spec fn get(self, loc: InsnOperand) -> i32 {
        match loc {
            InsnOperand::Imm(n) => n,
            InsnOperand::Stack(n) => self.stack[n as int],
            _ => self.regs[loc.reg_index().unwrap()],
        }
    }

    /// The machine after `v` is stored at the register or stack cell `loc`.
    pub open spec fn set(self, loc: InsnOperand, v: i32) -> Machine {
        match loc {
            InsnOperand::Imm(_) => self,
            InsnOperand::Stack(n) => Machine { stack: self.stack.update(n as int, v), ..self },
            _ => Machine { regs: self.regs.update(loc.reg_index().unwrap(), v), ..self },
        }
    }

    /// The machine with the program counter moved past one instruction.
    pub open spec fn advance(self) -> Machine {
        Machine { pc: self.pc + 1, ..self }
    }
}

/// The arithmetic that a two-operand opcode performs on its destination and
/// source. The two loads accumulate: they add the source to the destination.
pub open spec fn operation(opcode: InsnOpcode) -> BinOp {
    match opcode {
        InsnOpcode::Sub => BinOp::Sub,
        InsnOpcode::Mul => BinOp::Mul,
        InsnOpcode::Div => BinOp::Div,
        _ => BinOp::Add,
    }
}

/// Whether a two-operand opcode may take `src` as its source: a constant
/// load reads an immediate or a stack cell, every other opcode a register or
/// a stack cell.
pub open spec fn source_permitted(opcode: InsnOpcode, src: InsnOperand) -> bool {
    if opcode == InsnOpcode::Ldc {
        src is Imm || src is Stack
    } else {
        !(src is Imm)
    }
}

/// The meaning of a two-operand instruction: `dest := dest op src`.
///
/// The source is resolved before the destination, and the divisor is
/// examined last.
pub open spec fn step_binary(m: Machine, insn: InsnView) -> Result<Machine, RuntimeError> {
    let pc = m.pc as usize;
    if insn.operands.len() < 2 {
        Err(RuntimeError::IllegalInstruction { pc })
    } else {
        let dest = insn.operands[0];
        let src = insn.operands[1];
        if !source_permitted(insn.opcode, src) {
            Err(RuntimeError::IllegalInstruction { pc })
        } else if !m.addressable(src) {
            Err(RuntimeError::StackOutOfBounds { pc, index: src->Stack_0 })
        } else if dest is Imm {
            Err(RuntimeError::IllegalInstruction { pc })
        } else if !m.addressable(dest) {
            Err(RuntimeError::StackOutOfBounds { pc, index: dest->Stack_0 })
        } else {
            match apply(operation(insn.opcode), m.get(dest), m.get(src)) {
                None => Err(RuntimeError::DivisionByZero { pc }),
                Some(v) => Ok(m.set(dest, v).advance()),
            }
        }
    }
}

/// The meaning of `push`: the value of an immediate or a register becomes
/// the new top of the stack.
pub open spec fn step_push(m: Machine, insn: InsnView) -> Result<Machine, RuntimeError> {
    if insn.operands.len() < 1 || insn.operands[0] is Stack {
        Err(RuntimeError::IllegalInstruction { pc: m.pc as usize })
    } else {
        Ok(Machine { stack: m.stack.push(m.get(insn.operands[0])), ..m }.advance())
    }
}

/// The meaning of `pop`: the top of the stack is removed and stored in a
/// register.
pub open spec fn step_pop(m: Machine, insn: InsnView) -> Result<Machine, RuntimeError> {
    if insn.operands.len() < 1 || m.stack.len() == 0 || insn.operands[0].reg_index() is None {
        Err(RuntimeError::IllegalInstruction { pc: m.pc as usize })
    } else {
        Ok(
            Machine { stack: m.stack.drop_last(), ..m }.set(
                insn.operands[0],
                m.stack.last(),
            ).advance(),
        )
    }
}

/// The meaning of one instruction: the machine after it, or the reason it
/// cannot be executed. Operands beyond those an opcode reads are ignored.
pub open spec fn step(m: Machine, insn: InsnView) -> Result<Machine, RuntimeError> {
    match insn.opcode {
        InsnOpcode::Push => step_push(m, insn),
        InsnOpcode::Pop => step_pop(m, insn),
        _ => step_binary(m, insn),
    }
}

/// The meaning of an instruction sequence: its instructions in order, up to
/// and including the first that fails.
pub open spec fn exec(code: Seq<InsnView>, m: Machine) -> Result<Machine, RuntimeError>
    decreases code.len(),
{
    if code.len() == 0 {
        Ok(m)
    } else {
        match step(m, code[0]) {
            Ok(next) => exec(code.drop_first(), next),
            Err(e) => Err(e),
        }
    }
}

/// The meaning of a program: its execution from the initial machine.
pub open spec fn run_spec(program: Seq<InsnView>) -> Result<Machine, RuntimeError> {
    exec(program, Machine::initial())
}

/// Whether an instruction has the operands its opcode takes, in count and
/// kind, and names no stack cell beyond the first `cells`.
pub open spec fn well_formed(insn: InsnView, cells: nat) -> bool {
    match insn.opcode {
        InsnOpcode::Push => insn.operands.len() == 1 && !(insn.operands[0] is Stack),
        InsnOpcode::Pop => insn.operands.len() == 1 && insn.operands[0].reg_index() is Some,
        _ => {
            &&& insn.operands.len() == 2
            &&& !(insn.operands[0] is Imm)
            &&& source_permitted(insn.opcode, insn.operands[1])
            &&& insn.operands[0] matches InsnOperand::Stack(n) ==> n < cells
            &&& insn.operands[1] matches InsnOperand::Stack(n) ==> n < cells
        },
    }
}

/// A well-formed instruction other than a pop can fail only by dividing by
/// zero, on any machine whose stack holds the cells it names.
pub proof fn lemma_well_formed_step(m: Machine, insn: InsnView, cells: nat)
    requires
        well_formed(insn, cells),
        cells <= m.stack.len(),
        insn.opcode != InsnOpcode::Pop,
    ensures
        step(m, insn) matches Err(e) ==> e is DivisionByZero && insn.opcode == InsnOpcode::Div,
{
}

/// Executing a single instruction is taking its step.
pub proof fn lemma_exec_one(insn: InsnView, m: Machine)
    ensures
        exec(seq![insn], m) == step(m, insn),
{
    assert(seq![insn].drop_first() =~= Seq::<InsnView>::empty());
    if let Ok(next) = step(m, insn) {
        assert(exec(seq![insn].drop_first(), next) == Ok::<Machine, RuntimeError>(next));
    }
}

/// Executing `first + second` is executing `first` and then, if that
/// succeeded, `second` from where `first` stopped.
pub proof fn lemma_exec_concat(first: Seq<InsnView>, second: Seq<InsnView>, m: Machine)
    ensures
        exec(first + second, m) == match exec(first, m) {
            Ok(mid) => exec(second, mid),
            Err(e) => Err(e),
        },
    decreases first.len(),
{
    if first.len() == 0 {
        assert(first + second =~= second);
    } else {
        assert((first + second)[0] == first[0]);
        assert((first + second).drop_first() =~= first.drop_first() + second);
        match step(m, first[0]) {
            Ok(next) => lemma_exec_concat(first.drop_first(), second, next),
            Err(_) => {},
        }
    }
}

/// A step keeps the machine well formed and moves the program counter by
/// one; a failed step reports the program counter it started from.
pub proof fn lemma_step_pc(m: Machine, insn: InsnView)
    requires
        m.wf(),
    ensures
        match step(m, insn) {
            Ok(next) => next.wf() && next.pc == m.pc + 1,
            Err(e) => e.at() == m.pc as usize,
        },
{
}

/// A sequence that executes to the end leaves the program counter advanced
/// by its length. One that fails does so at one of its own instructions,
/// before the remaining ones are executed.
pub proof fn lemma_exec_pc(code: Seq<InsnView>, m: Machine)
    requires
        m.wf(),
        m.pc + code.len() <= usize::MAX,
    ensures
        match exec(code, m) {
            Ok(end) => end.wf() && end.pc == m.pc + code.len(),
            Err(e) => m.pc <= e.at() < m.pc + code.len(),
        },
    decreases code.len(),
{
    if code.len() > 0 {
        lemma_step_pc(m, code[0]);
        match step(m, code[0]) {
            Ok(next) => lemma_exec_pc(code.drop_first(), next),
            Err(_) => {},
        }
    }
}

/// The executable machine together with the program it runs.
#[derive(Debug, Clone, PartialEq, Eq)]
pub struct State {
    i: usize,
    instructions: Vec<Instruction>,
    regs: [i32; 8],
    stack: Vec<i32>,
}

impl View for State {
    type V = Machine;

    closed spec fn view(&self) -> Machine {
        Machine { pc: self.i as nat, regs: self.regs@, stack: self.stack@ }
    }
}

/// What a machine shows when it is printed: the program counter, the eight
/// registers and the stack, without the program.
#[derive(Debug, Copy, Clone, PartialEq, Eq)]
pub struct StateDebug<'a> {
    pub i: usize,
    pub reg0: i32,
    pub reg1: i32,
    pub reg2: i32,
    pub reg3: i32,
    pub reg4: i32,
    pub reg5: i32,
    pub reg6: i32,
    pub reg7: i32,
    pub stack: &'a Vec<i32>,
}

/// The position of a register operand in the register bank.
fn register_slot(loc: InsnOperand) -> (slot: Option<usize>)
    ensures
        match slot {
            Some(i) => loc.reg_index() == Some(i as int) && i < 8,
            None => loc.reg_index() is None,
        },
{
    match loc {
        InsnOperand::Reg0 => Some(0),
        InsnOperand::Reg1 => Some(1),
        InsnOperand::Reg2 => Some(2),
        InsnOperand::Reg3 => Some(3),
        InsnOperand::Reg4 => Some(4),
        InsnOperand::Reg5 => Some(5),
        InsnOperand::Reg6 => Some(6),
        InsnOperand::Reg7 => Some(7),
        _ => None,
    }
}

/// The arithmetic of a two-operand opcode.
fn operation_of(opcode: InsnOpcode) -> (op: BinOp)
    ensures
        op == operation(opcode),
{
    match opcode {
        InsnOpcode::Sub => BinOp::Sub,
        InsnOpcode::Mul => BinOp::Mul,
        InsnOpcode::Div => BinOp::Div,
        _ => BinOp::Add,
    }
}

impl State {
    /// The program this machine runs.
    pub closed spec fn program(&self) -> Seq<InsnView> {
        self.instructions.deep_view()
    }

    /// A fresh machine at the start of `instructions`.
    pub fn new(instructions: Vec<Instruction>) -> (state: State)
        ensures
            state@ == Machine::initial(),
            state.program() == instructions.deep_view(),
    {
        let state = State { i: 0, instructions, regs: [0i32; 8], stack: Vec::new() };
        assert(state@.regs =~= Machine::initial().regs);
        state
    }

    /// Whether every instruction has been executed.
    pub fn halted(&self) -> (done: bool)
        ensures
            done == (self@.pc >= self.program().len()),
    {
        self.i >= self.instructions.len()
    }

    /// The number of instructions executed so far.
    pub fn pc(&self) -> (pc: usize)
        ensures
            pc == self@.pc,
    {
        self.i
    }

    /// The value of register `index`.
    pub fn register(&self, index: usize) -> (value: i32)
        requires
            index < 8,
        ensures
            value == self@.regs[index as int],
            self@.wf(),
    {
        self.regs[index]
    }

    /// The value stack, bottom first.
    pub fn stack(&self) -> (stack: &Vec<i32>)
        ensures
            stack@ == self@.stack,
    {
        &self.stack
    }

    /// The machine without its program, for printing.
    pub fn debug(&self) -> (shown: StateDebug<'_>)
        ensures
            self@.wf(),
            shown.i == self@.pc,
            shown.reg0 == self@.regs[0],
            shown.reg1 == self@.regs[1],
            shown.reg2 == self@.regs[2],
            shown.reg3 == self@.regs[3],
            shown.reg4 == self@.regs[4],
            shown.reg5 == self@.regs[5],
            shown.reg6 == self@.regs[6],
            shown.reg7 == self@.regs[7],
            shown.stack@ == self@.stack,
    {
        StateDebug {
            i: self.i,
            reg0: self.regs[0],
            reg1: self.regs[1],
            reg2: self.regs[2],
            reg3: self.regs[3],
            reg4: self.regs[4],
            reg5: self.regs[5],
            reg6: self.regs[6],
            reg7: self.regs[7],
            stack: &self.stack,
        }
    }

    /// The value that a resolvable operand stands for.
    fn load(&self, loc: InsnOperand) -> (value: i32)
        requires
            self@.addressable(loc),
        ensures
            value == self@.get(loc),
    {
        match loc {
            InsnOperand::Imm(n) => n,
            InsnOperand::Stack(n) => self.stack[n],
            _ => {
                match register_slot(loc) {
                    Some(i) => self.regs[i],
                    None => 0,
                }
            },
        }
    }

    /// Stores `value` in a register or an existing stack cell.
    fn store(&mut self, loc: InsnOperand, value: i32)
        requires
            old(self)@.addressable(loc),
        ensures
            final(self)@ == old(self)@.set(loc, value),
            final(self).program() == old(self).program(),
    {
        match loc {
            InsnOperand::Imm(_) => {},
            InsnOperand::Stack(n) => {
                self.stack[n] = value;
            },
            _ => {
                match register_slot(loc) {
                    Some(i) => {
                        self.regs[i] = value;
                    },
                    None => {},
                }
            },
        }
    }

    /// Executes the instruction at the program counter.
    ///
    /// On success the machine has taken one step of [`step`]. On failure the
    /// machine is left as it was before the instruction.
    pub fn step(&mut self) -> (result: Result<(), RuntimeError>)
        requires
            old(self)@.pc < old(self).program().len(),
        ensures
            final(self).program() == old(self).program(),
            match step(old(self)@, old(self).program()[old(self)@.pc as int]) {
                Ok(next) => result is Ok && final(self)@ == next,
                Err(e) => result == Err::<(), RuntimeError>(e) && final(self)@ == old(self)@,
            },
    {
        let pc = self.i;
        let insn = &self.instructions[pc];
        let opcode = insn.opcode;
        let count = insn.operands.len();
        assert(self.program()[pc as int] == insn@);
        assert(pc < self.instructions.len());
        match opcode {
            InsnOpcode::Push => {
                if count < 1 {
                    return Err(RuntimeError::IllegalInstruction { pc });
                }
                let src = insn.operands[0];
                match src {
                    InsnOperand::Stack(_) => {
                        return Err(RuntimeError::IllegalInstruction { pc });
                    },
                    _ => {},
                }
                let value = self.load(src);
                self.stack.push(value);
            },
            InsnOpcode::Pop => {
                if count < 1 {
                    return Err(RuntimeError::IllegalInstruction { pc });
                }
                let dest = insn.operands[0];
                if self.stack.len() == 0 || register_slot(dest).is_none() {
                    return Err(RuntimeError::IllegalInstruction { pc });
                }
                match self.stack.pop() {
                    Some(value) => {
                        self.store(dest, value);
                    },
                    None => {},
                }
            },
            _ => {
                if count < 2 {
                    return Err(RuntimeError::IllegalInstruction { pc });
                }
                let dest = insn.operands[0];
                let src = insn.operands[1];
                match src {
                    InsnOperand::Imm(_) => {
                        if opcode != InsnOpcode::Ldc {
                            return Err(RuntimeError::IllegalInstruction { pc });
                        }
                    },
                    InsnOperand::Stack(n) => {
                        if n >= self.stack.len() {
                            return Err(RuntimeError::StackOutOfBounds { pc, index: n });
                        }
                    },
                    _ => {
                        if opcode == InsnOpcode::Ldc {
                            return Err(RuntimeError::IllegalInstruction { pc });
                        }
                    },
                }
                match dest {
                    InsnOperand::Imm(_) => {
                        return Err(RuntimeError::IllegalInstruction { pc });
                    },
                    InsnOperand::Stack(n) => {
                        if n >= self.stack.len() {
                            return Err(RuntimeError::StackOutOfBounds { pc, index: n });
                        }
                    },
                    _ => {},
                }
                match compute(operation_of(opcode), self.load(dest), self.load(src)) {
                    None => {
                        return Err(RuntimeError::DivisionByZero { pc });
                    },
                    Some(value) => {
                        self.store(dest, value);
                    },
                }
            },
        }
        self.i = pc + 1;
        Ok(())
    }
}

/// Executes `instructions` from the first to the last on a fresh machine.
///
/// Returns the final machine, whose program counter equals the number of
/// instructions, or the error of the first instruction that fails; no
/// instruction after that one is executed.
pub fn run(instructions: Vec<Instruction>) -> (result: Result<State, RuntimeError>)
    ensures
        match run_spec(instructions.deep_view()) {
            Ok(end) => result matches Ok(state) && state@ == end && state.program()
                == instructions.deep_view() && end.pc == instructions.len(),
            Err(e) => result matches Err(r) && r == e && e.at() < instructions.len(),
        },
{
    let ghost program = instructions.deep_view();
    let count = instructions.len();
    let mut state = State::new(instructions);
    proof {
        lemma_exec_pc(program, Machine::initial());
        assert(program.skip(0) =~= program);
    }
    while !state.halted()
        invariant
            program == instructions.deep_view(),
            count == instructions.len(),
            state.program() == program,
            state@.pc <= program.len() == count,
            run_spec(program) == exec(program.skip(state@.pc as int), state@),
            run_spec(program) matches Err(e) ==> e.at() < count,
        decreases program.len() - state@.pc,
    {
        let ghost before = state@;
        assert(program.skip(before.pc as int)[0] == program[before.pc as int]);
        assert(program.skip(before.pc as int).drop_first() =~= program.skip(before.pc as int + 1));
        match state.step() {
            Ok(()) => {},
            Err(e) => {
                return Err(e);
            },
        }
    }
    assert(program.skip(state@.pc as int).len() == 0);
    Ok(state)
}

} // verus!
