//! The tree of an ordinary infix text, and its value.
//!
//! An infix text is a literal followed by any number of operator-literal
//! pairs, as in `7-2*3`. Its tree has the first operator at the root, the
//! first literal on the left, and on the right everything after the first
//! operator, nested to the left in the order of the text. So the part after
//! the first operator is evaluated from left to right, and the first
//! operator is applied last.

use vstd::prelude::*;
use crate::arith::{apply, BinOp};
use crate::correctness::theorem_generated_code_computes_value;
use crate::expr::{defect, eval, is_expression, operator_of, side_defect, side_value};
use crate::lowering::generate;
use crate::token::{literal_token, Opcode, Operand, Token};
use crate::tree::{empty_tree, insert, insert_all, leaf, place_right, Node, TreeError};
use crate::vm::run_spec;

verus! {

/// The token of the operator `op`.
pub open spec fn operator(op: BinOp) -> Token {
    Token {
        op: Opcode::Operand,
        or: match op {
            BinOp::Add => Operand::Add,
            BinOp::Sub => Operand::Sub,
            BinOp::Mul => Operand::Mul,
            BinOp::Div => Operand::Div,
        },
    }
}

/// The tokens of the infix text that starts with the literal `first` and
/// goes on with the operator-literal pairs of `rest`.
pub open spec fn infix(first: i32, rest: Seq<(BinOp, i32)>) -> Seq<Token>
    decreases rest.len(),
{
    if rest.len() == 0 {
        seq![literal_token(first)]
    } else {
        infix(first, rest.drop_last()) + seq![operator(rest.last().0), literal_token(rest.last().1)]
    }
}

/// The tree in which the pairs of `rest` are applied to `first` one after
/// the other: the last operator is at the root.
pub open spec fn chain(first: i32, rest: Seq<(BinOp, i32)>) -> Node<Token>
    decreases rest.len(),
{
    if rest.len() == 0 {
        leaf(literal_token(first))
    } else {
        Node {
            value: Some(Box::new(operator(rest.last().0))),
            left: Some(Box::new(chain(first, rest.drop_last()))),
            right: Some(Box::new(leaf(literal_token(rest.last().1)))),
        }
    }
}

/// The result of applying the pairs of `rest` to `first` one after the
/// other, from left to right; none if one of the steps divides by zero.
pub open spec fn chain_value(first: i32, rest: Seq<(BinOp, i32)>) -> Option<i32>
    decreases rest.len(),
{
    if rest.len() == 0 {
        Some(first)
    } else {
        match chain_value(first, rest.drop_last()) {
            Some(so_far) => apply(rest.last().0, so_far, rest.last().1),
            None => None,
        }
    }
}

/// The tree of the infix text `first rest`.
pub open spec fn infix_tree(first: i32, rest: Seq<(BinOp, i32)>) -> Node<Token> {
    if rest.len() == 0 {
        Node { value: None, left: Some(Box::new(leaf(literal_token(first)))), right: None }
    } else {
        Node {
            value: Some(Box::new(operator(rest[0].0))),
            left: Some(Box::new(leaf(literal_token(first)))),
            right: Some(Box::new(chain(rest[0].1, rest.skip(1)))),
        }
    }
}

/// The value of the infix text `first rest`, for a text with an operator:
/// the first operator applied to the first literal and to the value of the
/// remaining text taken from left to right.
pub open spec fn infix_value(first: i32, rest: Seq<(BinOp, i32)>) -> Option<i32> {
    match chain_value(rest[0].1, rest.skip(1)) {
        Some(right) => apply(rest[0].0, first, right),
        None => None,
    }
}

/// Inserting `first + second` is inserting `first` and then, if that
/// succeeded, `second`.
pub proof fn lemma_insert_all_concat(tree: Node<Token>, first: Seq<Token>, second: Seq<Token>)
    ensures
        insert_all(tree, first + second) == match insert_all(tree, first) {
            Ok(built) => insert_all(built, second),
            Err(e) => Err(e),
        },
    decreases first.len(),
{
    if first.len() == 0 {
        assert(first + second =~= second);
    } else {
        assert((first + second).drop_first() =~= first.drop_first() + second);
        if let Ok(next) = insert(tree, first[0]) {
            lemma_insert_all_concat(next, first.drop_first(), second);
        }
    }
}

/// Assembling the tokens of an infix text gives the tree of that text.
pub proof fn lemma_infix_tree(first: i32, rest: Seq<(BinOp, i32)>)
    ensures
        insert_all(empty_tree(), infix(first, rest)) == Ok::<Node<Token>, TreeError>(
            infix_tree(first, rest),
        ),
    decreases rest.len(),
{
    if rest.len() == 0 {
        assert(infix(first, rest).drop_first() =~= Seq::<Token>::empty());
        reveal_with_fuel(insert_all, 2);
    } else {
        let shorter = rest.drop_last();
        let op = operator(rest.last().0);
        let literal = literal_token(rest.last().1);
        let before = infix_tree(first, shorter);
        lemma_infix_tree(first, shorter);
        lemma_insert_all_concat(empty_tree(), infix(first, shorter), seq![op, literal]);
        let with_operator = insert(before, op)->Ok_0;
        assert(insert_all(before, seq![op, literal]) == insert(with_operator, literal)) by {
            reveal_with_fuel(insert_all, 3);
            assert(seq![op, literal].drop_first() =~= seq![literal]);
            assert(seq![literal].drop_first() =~= Seq::<Token>::empty());
        }
        if shorter.len() == 0 {
            assert(rest.skip(1) =~= Seq::<(BinOp, i32)>::empty());
        } else {
            let tail = rest.skip(1);
            assert(shorter[0] == rest[0]);
            assert(tail.drop_last() =~= shorter.skip(1));
            assert(tail.last() == rest.last());
            let child = *with_operator.right.unwrap();
            assert(place_right(child, literal) == Ok::<Node<Token>, TreeError>(
                chain(rest[0].1, tail),
            ));
            assert(place_right(with_operator, literal) == Ok::<Node<Token>, TreeError>(
                infix_tree(first, rest),
            ));
        }
    }
}

/// A chain is a literal or an expression, and its value is the result of
/// applying its pairs from left to right.
pub proof fn lemma_chain_value(first: i32, rest: Seq<(BinOp, i32)>, left: bool)
    ensures
        side_defect(Some(Box::new(chain(first, rest))), left) is None,
        side_value(Some(Box::new(chain(first, rest)))) == chain_value(first, rest),
    decreases rest.len(),
{
    if rest.len() > 0 {
        let node = chain(first, rest);
        lemma_chain_value(first, rest.drop_last(), true);
        assert(operator_of(operator(rest.last().0).or) == Some(rest.last().0));
        assert(side_defect(node.right, false) is None);
        assert(side_value(node.right) == Some(rest.last().1));
        assert(defect(node) is None);
        assert(eval(node) == chain_value(first, rest));
    }
}

/// The tree of an infix text with an operator is an expression, and its
/// value is the value of the text.
pub proof fn lemma_infix_value(first: i32, rest: Seq<(BinOp, i32)>)
    requires
        rest.len() > 0,
    ensures
        is_expression(infix_tree(first, rest)),
        eval(infix_tree(first, rest)) == infix_value(first, rest),
{
    lemma_chain_value(rest[0].1, rest.skip(1), false);
}

/// The program generated for an infix text with an operator leaves the
/// value of the text in register 0, or fails by dividing by zero where the
/// text has no value.
pub proof fn theorem_infix_text_runs(first: i32, rest: Seq<(BinOp, i32)>)
    requires
        rest.len() > 0,
        generate(infix_tree(first, rest)) matches Ok(program) && program.len() <= usize::MAX,
    ensures
        insert_all(empty_tree(), infix(first, rest)) == Ok::<Node<Token>, TreeError>(
            infix_tree(first, rest),
        ),
        generate(infix_tree(first, rest)) matches Ok(program) && match infix_value(first, rest) {
            Some(v) => run_spec(program) matches Ok(end) && end.regs[0] == v,
            None => run_spec(program) matches Err(e) && e is DivisionByZero,
        },
{
    lemma_infix_tree(first, rest);
    lemma_infix_value(first, rest);
    theorem_generated_code_computes_value(infix_tree(first, rest));
}

} // verus!
