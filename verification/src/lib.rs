//! A small compiler and virtual machine for integer arithmetic.
//!
//! Source text is split into tokens ([`token`]), tokens are assembled into a
//! binary tree ([`tree`]), the tree is lowered to a flat instruction list
//! ([`bytecode`]), and the list is executed on a machine with eight
//! registers and a value stack ([`vm`]).
//!
//! What a tree means as an expression is defined in [`expr`], what the code
//! generator emits for it in [`lowering`], and [`correctness`] proves that
//! running the one yields the value of the other. [`infix`] describes the tree
//! and the value of an ordinary infix text. [`arith`] holds the machine's
//! arithmetic and [`dot`] draws a tree as a graph.

pub mod arith;
pub mod bytecode;
pub mod correctness;
pub mod dot;
pub mod expr;
pub mod infix;
pub mod lowering;
pub mod token;
pub mod tree;
pub mod vm;
