//! What a tree of tokens means as an arithmetic expression.
//!
//! An expression is an operator node whose two sides are literals or again
//! expressions. Nothing in the type of a tree forces it to be one: [`defect`]
//! finds what is wrong with a tree that is not, and [`eval`] gives the value
//! of one that is.

use vstd::prelude::*;
use crate::arith::{apply, BinOp};
use crate::token::{Opcode, Operand, Token};
use crate::tree::Node;

verus! {

/// What is wrong with a tree that is not an expression.
#[derive(Debug, Copy, Clone, PartialEq, Eq, Structural)]
pub enum CodegenError {
    /// An operator node has no left child.
    MissingLeft,
    /// The left child of an operator node carries no token.
    MissingLeftValue,
    /// An operator node has no right child.
    MissingRight,
    /// The right child of an operator node carries no token.
    MissingRightValue,
    /// A token classed as a literal carries an operator.
    InvalidOperand,
    /// A token classed as an operator carries a literal.
    UnexpectedToken,
}

/// The operation an operator token stands for; none for a literal.
pub open spec fn operator_of(operand: Operand) -> Option<BinOp> {
    match operand {
        Operand::Int(_) => None,
        Operand::Add => Some(BinOp::Add),
        Operand::Sub => Some(BinOp::Sub),
        Operand::Mul => Some(BinOp::Mul),
        Operand::Div => Some(BinOp::Div),
    }
}

/// One side of an operator node, as the code generator reads it.
pub enum Side {
    /// A literal with its value. Children of a literal node are not read.
    Literal(i32),
    /// A nested operator node.
    Nested(Node<Token>),
    /// No child at all.
    Absent,
    /// A child without a token.
    Empty,
    /// A child classed as a literal whose token carries an operator.
    Invalid,
}

/// Reads one side of an operator node. The token's class decides between a
/// literal and a nested node.
pub open spec fn side(child: Option<Box<Node<Token>>>) -> Side {
    match child {
        None => Side::Absent,
        Some(node) => match node.value {
            None => Side::Empty,
            Some(token) => match token.op {
                Opcode::Operand => Side::Nested(*node),
                Opcode::Const => match token.or {
                    Operand::Int(value) => Side::Literal(value),
                    _ => Side::Invalid,
                },
            },
        },
    }
}

/// The first defect on the left or right side of an operator node, none if
/// that side is a literal or an expression.
pub open spec fn side_defect(child: Option<Box<Node<Token>>>, left: bool) -> Option<CodegenError>
    decreases child, 0nat,
{
    match side(child) {
        Side::Literal(_) => None,
        Side::Nested(node) => defect(node),
        Side::Absent => Some(
            if left {
                CodegenError::MissingLeft
            } else {
                CodegenError::MissingRight
            },
        ),
        Side::Empty => Some(
            if left {
                CodegenError::MissingLeftValue
            } else {
                CodegenError::MissingRightValue
            },
        ),
        Side::Invalid => Some(CodegenError::InvalidOperand),
    }
}

/// The first defect of a node that carries a token, in the order in which a
/// left-to-right, depth-first walk meets it; none if the node is an
/// expression. The node's own token is examined before its children, the
/// left side before the right.
pub open spec fn defect(node: Node<Token>) -> Option<CodegenError>
    decreases node, 1nat,
{
    match node.value {
        None => None,
        Some(token) => if operator_of(token.or) is None {
            Some(CodegenError::UnexpectedToken)
        } else {
            match side_defect(node.left, true) {
                Some(e) => Some(e),
                None => side_defect(node.right, false),
            }
        },
    }
}

/// Whether `node` is an expression: an operator node, every side of which is
/// a literal or again an expression.
pub open spec fn is_expression(node: Node<Token>) -> bool {
    node.value is Some && defect(node) is None
}

/// The value of one side of an expression.
pub open spec fn side_value(child: Option<Box<Node<Token>>>) -> Option<i32>
    decreases child, 0nat,
{
    match side(child) {
        Side::Literal(value) => Some(value),
        Side::Nested(node) => eval(node),
        _ => None,
    }
}

/// The value of an expression: its operator applied to the values of its left
/// and right sides, in 32-bit wrapping arithmetic with division rounding
/// toward zero. There is none where a division by zero occurs anywhere in
/// the tree.
pub open spec fn eval(node: Node<Token>) -> Option<i32>
    decreases node, 1nat,
{
    match node.value {
        None => None,
        Some(token) => match (operator_of(token.or), side_value(node.left), side_value(node.right)) {
            (Some(op), Some(a), Some(b)) => apply(op, a, b),
            _ => None,
        },
    }
}

/// Whether evaluating one side of an expression divides by zero.
pub open spec fn side_divides_by_zero(child: Option<Box<Node<Token>>>) -> bool
    decreases child, 0nat,
{
    match side(child) {
        Side::Nested(node) => divides_by_zero(node),
        _ => false,
    }
}

/// Whether evaluating the expression `node` divides by zero anywhere: in its
/// left side, in its right side, or at `node` itself, when it is a division
/// and its right side has the value zero.
pub open spec fn divides_by_zero(node: Node<Token>) -> bool
    decreases node, 1nat,
{
    ||| side_divides_by_zero(node.left)
    ||| side_divides_by_zero(node.right)
    ||| (node.value matches Some(token) && token.or == Operand::Div && side_value(node.right)
        == Some(0i32))
}

/// How many operator nodes one side of an expression holds.
pub open spec fn side_operators(child: Option<Box<Node<Token>>>) -> nat
    decreases child, 0nat,
{
    match side(child) {
        Side::Nested(node) => operators(node),
        _ => 0,
    }
}

/// How many operator nodes the expression `node` holds, itself included.
pub open spec fn operators(node: Node<Token>) -> nat
    decreases node, 1nat,
{
    1 + side_operators(node.left) + side_operators(node.right)
}

/// One side of an expression has a value unless its evaluation divides by
/// zero.
pub proof fn lemma_side_value_exists(child: Option<Box<Node<Token>>>, left: bool)
    requires
        side_defect(child, left) is None,
    ensures
        side_value(child) is None <==> side_divides_by_zero(child),
    decreases child, 0nat,
{
    match side(child) {
        Side::Nested(node) => lemma_value_exists(node),
        _ => {},
    }
}

/// An expression has a value unless its evaluation divides by zero.
pub proof fn lemma_value_exists(node: Node<Token>)
    requires
        is_expression(node),
    ensures
        eval(node) is None <==> divides_by_zero(node),
    decreases node, 1nat,
{
    lemma_side_value_exists(node.left, true);
    lemma_side_value_exists(node.right, false);
}

} // verus!
