//! The instruction set, and the code generator that lowers an expression
//! tree to it.

use vstd::prelude::*;
use crate::lowering::{
    binary, generate, generate_in, lower, lower_side, opcode_of, pool_after, pool_after_side,
    prologue, result_location, Pool,
};
use crate::token::{Opcode, Operand, Token};
use crate::expr::{defect, operator_of, side_defect, CodegenError};
use crate::tree::Node;

verus! {

/// What an instruction does.
#[derive(Debug, Copy, Clone, PartialEq, Eq, Structural)]
pub enum InsnOpcode {
    // data
    Ldc,
    Push,
    Pop,
    Copy,
    // math
    Add,
    Sub,
    Mul,
    Div,
}

/// Where an instruction reads or writes a value.
#[derive(Debug, Copy, Clone, PartialEq, Eq, Structural)]
pub enum InsnOperand {
    /// A constant baked into the instruction.
    Imm(i32),
    Reg0,
    Reg1,
    Reg2,
    Reg3,
    Reg4,
    Reg5,
    Reg6,
    Reg7,
    /// A cell of the value stack, counted from the bottom.
    Stack(usize),
}

/// One instruction: an opcode and its operands, destination first.
#[derive(Debug, Clone, PartialEq, Eq)]
pub struct Instruction {
    pub opcode: InsnOpcode,
    pub operands: Vec<InsnOperand>,
}

/// An instruction as a mathematical value.
pub struct InsnView {
    pub opcode: InsnOpcode,
    pub operands: Seq<InsnOperand>,
}

impl View for Instruction {
    type V = InsnView;

    open spec fn view(&self) -> InsnView {
        InsnView { opcode: self.opcode, operands: self.operands@ }
    }
}

impl DeepView for Instruction {
    type V = InsnView;

    open spec fn deep_view(&self) -> InsnView {
        self@
    }
}

impl InsnOperand {
    /// The number of the register this operand names, if it names one.
    pub open spec fn reg_index(self) -> Option<int> {
        match self {
            InsnOperand::Reg0 => Some(0),
            InsnOperand::Reg1 => Some(1),
            InsnOperand::Reg2 => Some(2),
            InsnOperand::Reg3 => Some(3),
            InsnOperand::Reg4 => Some(4),
            InsnOperand::Reg5 => Some(5),
            InsnOperand::Reg6 => Some(6),
            InsnOperand::Reg7 => Some(7),
            _ => None,
        }
    }

    /// The operand that names register `i`, for `0 <= i < 8`.
    pub open spec fn reg(i: int) -> InsnOperand {
        if i == 0 {
            InsnOperand::Reg0
        } else if i == 1 {
            InsnOperand::Reg1
        } else if i == 2 {
            InsnOperand::Reg2
        } else if i == 3 {
            InsnOperand::Reg3
        } else if i == 4 {
            InsnOperand::Reg4
        } else if i == 5 {
            InsnOperand::Reg5
        } else if i == 6 {
            InsnOperand::Reg6
        } else {
            InsnOperand::Reg7
        }
    }
}

impl Instruction {
    /// An instruction with one operand.
    pub fn unary(opcode: InsnOpcode, a: InsnOperand) -> (insn: Instruction)
        ensures
            insn@ == (InsnView { opcode, operands: seq![a] }),
    {
        let mut operands: Vec<InsnOperand> = Vec::new();
        operands.push(a);
        assert(operands@ =~= seq![a]);
        Instruction { opcode, operands }
    }

    /// An instruction with a destination and a source.
    pub fn binary(opcode: InsnOpcode, dest: InsnOperand, src: InsnOperand) -> (insn: Instruction)
        ensures
            insn@ == (InsnView { opcode, operands: seq![dest, src] }),
    {
        let mut operands: Vec<InsnOperand> = Vec::new();
        operands.push(dest);
        operands.push(src);
        assert(operands@ =~= seq![dest, src]);
        Instruction { opcode, operands }
    }
}

/// Hands out the locations that operator nodes compute in: registers while
/// any are free, stack cells after that. Nothing is ever handed out twice.
#[derive(Debug)]
pub struct Allocator {
    next: usize,
    limit: usize,
    reserved: Vec<Instruction>,
}

impl View for Allocator {
    type V = Pool;

    closed spec fn view(&self) -> Pool {
        Pool { next: self.next as nat, limit: self.limit as nat, slots: self.reserved@.len() }
    }
}

impl Allocator {
    /// Free registers exist, and there is one reservation for every stack
    /// cell handed out.
    #[verifier::type_invariant]
    spec fn wf(&self) -> bool {
        &&& self@.wf()
        &&& self.reserved.deep_view() == prologue(self.reserved@.len())
    }

    /// An allocator with all eight registers free.
    pub fn new() -> (alloc: Allocator)
        ensures
            alloc@ == Pool::full(),
    {
        let reserved: Vec<Instruction> = Vec::new();
        assert(reserved.deep_view() =~= prologue(0));
        Allocator { next: 0, limit: 8, reserved }
    }

    /// An allocator with the first `count` registers free, all eight if
    /// `count` is larger than that.
    pub fn with_registers(count: usize) -> (alloc: Allocator)
        ensures
            alloc@ == Pool::first(if count < 8 { count as nat } else { 8 }),
    {
        let limit: usize = if count < 8 { count } else { 8 };
        let reserved: Vec<Instruction> = Vec::new();
        assert(reserved.deep_view() =~= prologue(0));
        Allocator { next: 0, limit, reserved }
    }

    /// How many registers are still free.
    pub fn free_registers(&self) -> (count: usize)
        ensures
            count == self@.free(),
            self@.wf(),
    {
        proof {
            use_type_invariant(self);
        }
        self.limit - self.next
    }

    /// How many stack cells have been handed out.
    pub fn slots(&self) -> (count: usize)
        ensures
            count == self@.slots,
    {
        self.reserved.len()
    }

    /// Gives up the allocator for the reservations it has made.
    pub fn into_reservations(self) -> (reserved: Vec<Instruction>)
        ensures
            reserved.deep_view() == prologue(self@.slots),
    {
        proof {
            use_type_invariant(&self);
        }
        self.reserved
    }

    /// Takes the first free register.
    fn take_register(&mut self) -> (loc: InsnOperand)
        requires
            old(self)@.free() >= 1,
        ensures
            loc == InsnOperand::reg(old(self)@.next as int),
            final(self)@ == (Pool { next: old(self)@.next + 1, ..old(self)@ }),
    {
        proof {
            use_type_invariant(&*self);
        }
        let loc = register(self.next);
        self.next = self.next + 1;
        loc
    }

    /// Hands out a fresh stack cell and records the push that creates it.
    fn take_slot(&mut self) -> (loc: InsnOperand)
        ensures
            loc == InsnOperand::Stack(old(self)@.slots as usize),
            final(self)@ == (Pool { slots: old(self)@.slots + 1, ..old(self)@ }),
    {
        proof {
            use_type_invariant(&*self);
        }
        let mut reserved: Vec<Instruction> = Vec::new();
        assert(reserved.deep_view() =~= prologue(0));
        std::mem::swap(&mut reserved, &mut self.reserved);
        let index = reserved.len();
        emit(&mut reserved, Instruction::unary(InsnOpcode::Push, InsnOperand::Imm(0)));
        assert(reserved.deep_view() =~= prologue(reserved@.len())) by {
            assert(reserved.deep_view().len() == reserved@.len());
            assert(old(self).reserved.deep_view().len() == old(self).reserved@.len());
        }
        self.reserved = reserved;
        InsnOperand::Stack(index)
    }

    /// Takes the two locations of one operator node, left side first.
    ///
    /// With two or more registers free, both sides get a register. With one
    /// free, the left side gets it and the right side a fresh stack cell.
    /// With none free, both sides get fresh stack cells.
    pub fn allocate_pair(&mut self) -> (pair: (InsnOperand, InsnOperand))
        ensures
            pair.0 == old(self)@.left(),
            pair.1 == old(self)@.right(),
            final(self)@ == old(self)@.after_pair(),
    {
        proof {
            use_type_invariant(&*self);
        }
        let free = self.limit - self.next;
        if free >= 2 {
            let left = self.take_register();
            let right = self.take_register();
            (left, right)
        } else if free == 1 {
            let left = self.take_register();
            let right = self.take_slot();
            (left, right)
        } else {
            let left = self.take_slot();
            let right = self.take_slot();
            (left, right)
        }
    }
}

/// The operand that names register `index`.
fn register(index: usize) -> (loc: InsnOperand)
    requires
        index < 8,
    ensures
        loc == InsnOperand::reg(index as int),
{
    if index == 0 {
        InsnOperand::Reg0
    } else if index == 1 {
        InsnOperand::Reg1
    } else if index == 2 {
        InsnOperand::Reg2
    } else if index == 3 {
        InsnOperand::Reg3
    } else if index == 4 {
        InsnOperand::Reg4
    } else if index == 5 {
        InsnOperand::Reg5
    } else if index == 6 {
        InsnOperand::Reg6
    } else {
        InsnOperand::Reg7
    }
}

/// The immediate operand for a literal token's payload.
pub fn operand_to_insn_operand(operand: Operand) -> (result: Result<InsnOperand, CodegenError>)
    ensures
        result == match operand {
            Operand::Int(value) => Ok::<InsnOperand, CodegenError>(InsnOperand::Imm(value)),
            _ => Err(CodegenError::InvalidOperand),
        },
{
    match operand {
        Operand::Int(value) => Ok(InsnOperand::Imm(value)),
        _ => Err(CodegenError::InvalidOperand),
    }
}

/// The arithmetic opcode for an operator token's payload.
pub fn operand_to_insn_opcode(operand: Operand) -> (result: Result<InsnOpcode, CodegenError>)
    ensures
        result == match operator_of(operand) {
            Some(op) => Ok::<InsnOpcode, CodegenError>(opcode_of(op)),
            None => Err(CodegenError::InvalidOperand),
        },
{
    match operand {
        Operand::Add => Ok(InsnOpcode::Add),
        Operand::Sub => Ok(InsnOpcode::Sub),
        Operand::Mul => Ok(InsnOpcode::Mul),
        Operand::Div => Ok(InsnOpcode::Div),
        _ => Err(CodegenError::InvalidOperand),
    }
}

/// Appends one instruction.
fn emit(out: &mut Vec<Instruction>, insn: Instruction)
    ensures
        final(out).deep_view() == old(out).deep_view().push(insn@),
{
    out.push(insn);
    assert(out.deep_view() =~= old(out).deep_view().push(insn@));
}

/// The location that the last instruction of `out` writes.
fn last_result(out: &Vec<Instruction>) -> (loc: InsnOperand)
    requires
        out.deep_view().len() > 0,
        out.deep_view().last().operands.len() > 0,
    ensures
        loc == result_location(out.deep_view()),
{
    let last = &out[out.len() - 1];
    assert(out.deep_view().last() == last@);
    last.operands[0]
}

/// Lowers the right side of an operator node into `right_reg` and emits the
/// node's own instruction `opcode(left_reg, right_reg)`.
fn handle_right(
    alloc: &mut Allocator,
    opcode: InsnOpcode,
    left_reg: InsnOperand,
    right_reg: InsnOperand,
    node: &Node<Token>,
    out: &mut Vec<Instruction>,
) -> (result: Result<(), CodegenError>)
    ensures
        match side_defect(node.right, false) {
            Some(e) => result == Err::<(), CodegenError>(e),
            None => {
                &&& result is Ok
                &&& final(alloc)@ == pool_after_side(node.right, old(alloc)@)
                &&& final(out).deep_view() == old(out).deep_view() + lower_side(
                    node.right,
                    right_reg,
                    old(alloc)@,
                ).push(binary(opcode, left_reg, right_reg))
            },
        },
    decreases *node, 0nat,
{
    match &node.right {
        None => {
            return Err(CodegenError::MissingRight);
        },
        Some(right_node) => match &right_node.value {
            None => {
                return Err(CodegenError::MissingRightValue);
            },
            Some(right) => match right.op {
                Opcode::Const => {
                    let value = operand_to_insn_operand(right.or)?;
                    emit(out, Instruction::binary(InsnOpcode::Ldc, right_reg, value));
                },
                Opcode::Operand => {
                    let ghost before = out.deep_view();
                    let ghost pool = alloc@;
                    node_to_instructions(alloc, &**right_node, out)?;
                    assert(out.deep_view().last() == lower(**right_node, pool).last());
                    let source = last_result(out);
                    emit(out, Instruction::binary(InsnOpcode::Copy, right_reg, source));
                    assert(out.deep_view() =~= before + lower_side(node.right, right_reg, pool));
                },
            },
        },
    }
    emit(out, Instruction::binary(opcode, left_reg, right_reg));
    assert(out.deep_view() =~= old(out).deep_view() + lower_side(
        node.right,
        right_reg,
        old(alloc)@,
    ).push(binary(opcode, left_reg, right_reg)));
    Ok(())
}

/// Lowers both sides of an operator node whose locations are `left_reg` and
/// `right_reg`, the left side first, and emits the node's own instruction.
fn handle_node(
    alloc: &mut Allocator,
    opcode: InsnOpcode,
    left_reg: InsnOperand,
    right_reg: InsnOperand,
    node: &Node<Token>,
    out: &mut Vec<Instruction>,
) -> (result: Result<(), CodegenError>)
    ensures
        match side_defect(node.left, true) {
            Some(e) => result == Err::<(), CodegenError>(e),
            None => match side_defect(node.right, false) {
                Some(e) => result == Err::<(), CodegenError>(e),
                None => {
                    &&& result is Ok
                    &&& final(alloc)@ == pool_after_side(
                        node.right,
                        pool_after_side(node.left, old(alloc)@),
                    )
                    &&& final(out).deep_view() == old(out).deep_view() + lower_side(
                        node.left,
                        left_reg,
                        old(alloc)@,
                    ) + lower_side(
                        node.right,
                        right_reg,
                        pool_after_side(node.left, old(alloc)@),
                    ).push(binary(opcode, left_reg, right_reg))
                },
            },
        },
    decreases *node, 1nat,
{
    match &node.left {
        None => {
            return Err(CodegenError::MissingLeft);
        },
        Some(left_node) => match &left_node.value {
            None => {
                return Err(CodegenError::MissingLeftValue);
            },
            Some(left) => match left.op {
                Opcode::Const => {
                    let value = operand_to_insn_operand(left.or)?;
                    emit(out, Instruction::binary(InsnOpcode::Ldc, left_reg, value));
                },
                Opcode::Operand => {
                    let ghost pool = alloc@;
                    node_to_instructions(alloc, &**left_node, out)?;
                    assert(out.deep_view().last() == lower(**left_node, pool).last());
                    let source = last_result(out);
                    emit(out, Instruction::binary(InsnOpcode::Copy, left_reg, source));
                },
            },
        },
    }
    assert(out.deep_view() =~= old(out).deep_view() + lower_side(
        node.left,
        left_reg,
        old(alloc)@,
    ));
    handle_right(alloc, opcode, left_reg, right_reg, node, out)
}

/// Lowers the subtree at `node`, appending its instructions to `out`.
///
/// A node without a token yields nothing. A node whose token is not an
/// operator is refused. Otherwise the node takes its pair of locations and
/// its two sides are lowered, which leaves the node's value in its left
/// location.
fn node_to_instructions(alloc: &mut Allocator, node: &Node<Token>, out: &mut Vec<Instruction>) -> (result:
    Result<(), CodegenError>)
    ensures
        node.value is None ==> result is Ok && final(alloc)@ == old(alloc)@ && final(out)@ == old(
            out,
        )@,
        node.value is Some ==> match defect(*node) {
            Some(e) => result == Err::<(), CodegenError>(e),
            None => {
                &&& result is Ok
                &&& final(alloc)@ == pool_after(*node, old(alloc)@)
                &&& final(out).deep_view() == old(out).deep_view() + lower(*node, old(alloc)@)
            },
        },
    decreases *node, 2nat,
{
    match &node.value {
        None => Ok(()),
        Some(token) => {
            match operand_to_insn_opcode(token.or) {
                Err(_) => Err(CodegenError::UnexpectedToken),
                Ok(opcode) => {
                    let (left_reg, right_reg) = alloc.allocate_pair();
                    handle_node(alloc, opcode, left_reg, right_reg, node, out)
                },
            }
        },
    }
}

/// Generates the program for `tree` with the locations that `alloc` has left
/// to hand out.
///
/// The program first reserves every stack cell that `alloc` has handed out
/// by the end, by one push of zero each, and then computes the expression;
/// it leaves the value in the first location that `alloc` had to offer. A
/// root without a token yields the empty program. A tree that is not an
/// expression is refused with its first defect.
pub fn generate_with(alloc: Allocator, tree: &Node<Token>) -> (result: Result<
    Vec<Instruction>,
    CodegenError,
>)
    ensures
        match generate_in(*tree, alloc@) {
            Ok(program) => result matches Ok(insns) && insns.deep_view() == program
                && program.len() == insns.len(),
            Err(e) => result matches Err(r) && r == e,
        },
{
    let mut alloc = alloc;
    let mut body: Vec<Instruction> = Vec::new();
    assert(body.deep_view() =~= Seq::empty());
    node_to_instructions(&mut alloc, tree, &mut body)?;
    if tree.value.is_none() {
        return Ok(body);
    }
    let ghost lowered = body.deep_view();
    let mut insns = alloc.into_reservations();
    let ghost reserved = insns.deep_view();
    insns.append(&mut body);
    assert(insns.deep_view() =~= reserved + lowered);
    Ok(insns)
}

/// Generates the program for `tree` with all eight registers free.
///
/// The program leaves the value of the expression in register 0. A root
/// without a token yields the empty program. A tree that is not an
/// expression is refused with its first defect.
pub fn tree_to_instructions(tree: Node<Token>) -> (result: Result<Vec<Instruction>, CodegenError>)
    ensures
        match generate(tree) {
            Ok(program) => result matches Ok(insns) && insns.deep_view() == program
                && program.len() == insns.len(),
            Err(e) => result matches Err(r) && r == e,
        },
{
    generate_with(Allocator::new(), &tree)
}

} // verus!
