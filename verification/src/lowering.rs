//! What the code generator emits, as a mathematical function of the tree.
//!
//! Every operator node is given two locations, one for each side. Locations
//! come from a pool of free registers and, when those run out, from stack
//! cells that a prologue of pushes creates before anything else runs.
//! Nothing is returned to the pool, so every location is written by exactly
//! one load and the accumulating loads find it zero.

use vstd::prelude::*;
use crate::arith::BinOp;
use crate::bytecode::{InsnOpcode, InsnOperand, InsnView};
use crate::token::Token;
use crate::expr::{defect, operator_of, side, CodegenError, Side};
use crate::tree::Node;

verus! {

/// The allocator's state: the registers numbered from `next` up to but not
/// including `limit` are free, the lowest first in line, and `slots` stack
/// cells have been handed out.
pub struct Pool {
    pub next: nat,
    pub limit: nat,
    pub slots: nat,
}

impl Pool {
    /// The pool before anything is allocated: all eight registers, no slot.
    pub open spec fn full() -> Pool {
        Pool { next: 0, limit: 8, slots: 0 }
    }

    /// A pool of the first `count` registers.
    pub open spec fn first(count: nat) -> Pool {
        Pool { next: 0, limit: count, slots: 0 }
    }

    /// The free registers lie among the eight that exist.
    pub open spec fn wf(self) -> bool {
        self.next <= self.limit <= 8
    }

    /// How many registers are free.
    pub open spec fn free(self) -> nat {
        (self.limit - self.next) as nat
    }

    /// The location the next operator node gets for its left side: the first
    /// free register, or a fresh stack cell when none is free.
    pub open spec fn left(self) -> InsnOperand {
        if self.free() >= 1 {
            InsnOperand::reg(self.next as int)
        } else {
            InsnOperand::Stack(self.slots as usize)
        }
    }

    /// The location the next operator node gets for its right side: the
    /// second free register, or a fresh stack cell when fewer than two
    /// registers are free.
    pub open spec fn right(self) -> InsnOperand {
        if self.free() >= 2 {
            InsnOperand::reg(self.next as int + 1)
        } else if self.free() == 1 {
            InsnOperand::Stack(self.slots as usize)
        } else {
            InsnOperand::Stack((self.slots + 1) as usize)
        }
    }

    /// The pool after an operator node has taken its two locations.
    pub open spec fn after_pair(self) -> Pool {
        if self.free() >= 2 {
            Pool { next: self.next + 2, ..self }
        } else if self.free() == 1 {
            Pool { next: self.next + 1, slots: self.slots + 1, ..self }
        } else {
            Pool { slots: self.slots + 2, ..self }
        }
    }
}

/// The pool after `pairs` operator nodes have taken their locations, one
/// after the other: registers as far as they last, stack cells for the rest.
pub open spec fn after_pairs(pool: Pool, pairs: nat) -> Pool {
    let registers = if pool.free() <= 2 * pairs {
        pool.free()
    } else {
        2 * pairs
    };
    Pool {
        next: pool.next + registers,
        slots: pool.slots + (2 * pairs - registers) as nat,
        ..pool
    }
}

/// The opcode that performs `op`.
pub open spec fn opcode_of(op: BinOp) -> InsnOpcode {
    match op {
        BinOp::Add => InsnOpcode::Add,
        BinOp::Sub => InsnOpcode::Sub,
        BinOp::Mul => InsnOpcode::Mul,
        BinOp::Div => InsnOpcode::Div,
    }
}

/// The instruction `opcode(dest, src)`.
pub open spec fn binary(opcode: InsnOpcode, dest: InsnOperand, src: InsnOperand) -> InsnView {
    InsnView { opcode, operands: seq![dest, src] }
}

/// The instruction that creates one zeroed stack cell.
pub open spec fn reserve() -> InsnView {
    InsnView { opcode: InsnOpcode::Push, operands: seq![InsnOperand::Imm(0)] }
}

/// Where a lowered expression leaves its value: the first operand of its
/// last instruction.
pub open spec fn result_location(code: Seq<InsnView>) -> InsnOperand {
    code.last().operands[0]
}

/// The pool after one side of an operator node has been lowered.
pub open spec fn pool_after_side(child: Option<Box<Node<Token>>>, pool: Pool) -> Pool
    decreases child, 0nat,
{
    match side(child) {
        Side::Nested(node) => pool_after(node, pool),
        _ => pool,
    }
}

/// The pool after the expression `node` has been lowered: the node takes its
/// pair first, then its left side is lowered, then its right side.
pub open spec fn pool_after(node: Node<Token>, pool: Pool) -> Pool
    decreases node, 1nat,
{
    pool_after_side(node.right, pool_after_side(node.left, pool.after_pair()))
}

/// The instructions that bring the value of one side of an operator node
/// into `dest`: a constant load for a literal; for a nested expression its
/// own instructions, followed by a copy from where they leave their result.
pub open spec fn lower_side(child: Option<Box<Node<Token>>>, dest: InsnOperand, pool: Pool) -> Seq<
    InsnView,
>
    decreases child, 0nat,
{
    match side(child) {
        Side::Literal(value) => seq![binary(InsnOpcode::Ldc, dest, InsnOperand::Imm(value))],
        Side::Nested(node) => {
            let code = lower(node, pool);
            code.push(binary(InsnOpcode::Copy, dest, result_location(code)))
        },
        _ => Seq::empty(),
    }
}

/// The instructions for the expression `node` when the allocator is in state
/// `pool`: the left side into the node's left location, the right side into
/// its right location, then the node's operation on the two, which leaves
/// the result in the left location.
pub open spec fn lower(node: Node<Token>, pool: Pool) -> Seq<InsnView>
    decreases node, 1nat,
{
    let taken = pool.after_pair();
    let opcode = match node.value {
        Some(token) => match operator_of(token.or) {
            Some(op) => opcode_of(op),
            None => InsnOpcode::Add,
        },
        None => InsnOpcode::Add,
    };
    lower_side(node.left, pool.left(), taken) + lower_side(
        node.right,
        pool.right(),
        pool_after_side(node.left, taken),
    ) + seq![binary(opcode, pool.left(), pool.right())]
}

/// `count` reservations, one zeroed stack cell each.
pub open spec fn prologue(count: nat) -> Seq<InsnView> {
    Seq::new(count, |i: int| reserve())
}

/// The program for the expression `tree` when the allocator starts in state
/// `pool`: a reservation for every stack cell handed out by the end, then
/// the lowered expression.
pub open spec fn program_in(tree: Node<Token>, pool: Pool) -> Seq<InsnView> {
    prologue(pool_after(tree, pool).slots) + lower(tree, pool)
}

/// What code generation yields for `tree` when the allocator starts in state
/// `pool`: no instruction for a root without a token, the first defect of a
/// tree that is not an expression, and otherwise its program.
pub open spec fn generate_in(tree: Node<Token>, pool: Pool) -> Result<Seq<InsnView>, CodegenError> {
    if tree.value is None {
        Ok(Seq::empty())
    } else {
        match defect(tree) {
            Some(e) => Err(e),
            None => Ok(program_in(tree, pool)),
        }
    }
}

/// What code generation yields for `tree` with all eight registers free.
pub open spec fn generate(tree: Node<Token>) -> Result<Seq<InsnView>, CodegenError> {
    generate_in(tree, Pool::full())
}

} // verus!
