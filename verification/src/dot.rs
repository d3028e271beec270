//! Drawing a tree as a graph description in the DOT language.

use vstd::prelude::*;
use crate::token::{Operand, Token};
use crate::tree::Node;

verus! {

/// The numeral for a digit.
pub open spec fn digit_text(digit: nat) -> Seq<char> {
    if digit == 0 {
        "0"@
    } else if digit == 1 {
        "1"@
    } else if digit == 2 {
        "2"@
    } else if digit == 3 {
        "3"@
    } else if digit == 4 {
        "4"@
    } else if digit == 5 {
        "5"@
    } else if digit == 6 {
        "6"@
    } else if digit == 7 {
        "7"@
    } else if digit == 8 {
        "8"@
    } else {
        "9"@
    }
}

/// A natural number in base ten, without leading zeros.
pub open spec fn decimal_text(n: nat) -> Seq<char>
    decreases n,
{
    if n < 10 {
        digit_text(n)
    } else {
        decimal_text(n / 10) + digit_text(n % 10)
    }
}

/// An integer in base ten, with a minus sign if it is negative.
pub open spec fn int_text(value: int) -> Seq<char> {
    if value < 0 {
        "-"@ + decimal_text((-value) as nat)
    } else {
        decimal_text(value as nat)
    }
}

/// The label of a token: the operator's name, or `Int(..)` around a
/// literal's value.
pub open spec fn operand_text(operand: Operand) -> Seq<char> {
    match operand {
        Operand::Int(value) => "Int("@ + int_text(value as int) + ")"@,
        Operand::Add => "Add"@,
        Operand::Sub => "Sub"@,
        Operand::Mul => "Mul"@,
        Operand::Div => "Div"@,
    }
}

/// The line that joins graph node `above` to graph node `id`.
pub open spec fn edge_line(above: nat, id: nat) -> Seq<char> {
    "    n"@ + decimal_text(above) + " -- n"@ + decimal_text(id) + "; \n"@
}

/// The line that labels graph node `id`.
pub open spec fn label_line(id: nat, operand: Operand) -> Seq<char> {
    "    n"@ + decimal_text(id) + " [label=\""@ + operand_text(operand) + "\"];\n"@
}

/// How many nodes a subtree that may be absent holds.
pub open spec fn size_of(child: Option<Box<Node<Token>>>) -> nat
    decreases child,
{
    match child {
        None => 0,
        Some(node) => size(*node),
    }
}

/// How many nodes the tree at `node` holds.
pub open spec fn size(node: Node<Token>) -> nat
    decreases node,
{
    1 + size_of(node.left) + size_of(node.right)
}

/// Whether every node of a subtree that may be absent carries a token.
pub open spec fn labelled_in(child: Option<Box<Node<Token>>>) -> bool
    decreases child,
{
    match child {
        None => true,
        Some(node) => labelled(*node),
    }
}

/// Whether every node of the tree at `node` carries a token.
pub open spec fn labelled(node: Node<Token>) -> bool
    decreases node,
{
    node.value is Some && labelled_in(node.left) && labelled_in(node.right)
}

/// The lines for a subtree that may be absent.
pub open spec fn subtree_lines(child: Option<Box<Node<Token>>>, above: nat, id: nat) -> Seq<char>
    decreases child,
{
    match child {
        None => Seq::empty(),
        Some(node) => node_lines(*node, above, id),
    }
}

/// The lines for the tree at `node`, which hangs below graph node `above`
/// and is numbered from `id` on: the node itself, then its right subtree,
/// then its left subtree.
pub open spec fn node_lines(node: Node<Token>, above: nat, id: nat) -> Seq<char>
    decreases node,
{
    edge_line(above, id) + label_line(id, node.value.unwrap().or) + subtree_lines(
        node.right,
        id,
        id + 1,
    ) + subtree_lines(node.left, id, id + 1 + size_of(node.right))
}

/// The graph of `tree`: a start node numbered 0, and below it the nodes of
/// the tree, numbered from 1 in the order root, right subtree, left subtree.
pub open spec fn dot_text(tree: Node<Token>) -> Seq<char> {
    "graph G {\n    n0 [shape=Mdiamond];\n    n0 [label=\"start\"];\n"@ + node_lines(tree, 0, 1)
        + "}\n"@
}

/// Whether a tree can be drawn: every node carries a token, and the nodes
/// can be numbered within `i32`.
pub open spec fn drawable(tree: Node<Token>) -> bool {
    labelled(tree) && size(tree) <= i32::MAX
}

/// Appends the numeral for `digit`.
fn push_digit(buff: &mut String, digit: u32)
    requires
        digit < 10,
    ensures
        final(buff)@ == old(buff)@ + digit_text(digit as nat),
{
    if digit == 0 {
        buff.append("0");
    } else if digit == 1 {
        buff.append("1");
    } else if digit == 2 {
        buff.append("2");
    } else if digit == 3 {
        buff.append("3");
    } else if digit == 4 {
        buff.append("4");
    } else if digit == 5 {
        buff.append("5");
    } else if digit == 6 {
        buff.append("6");
    } else if digit == 7 {
        buff.append("7");
    } else if digit == 8 {
        buff.append("8");
    } else {
        buff.append("9");
    }
}

/// Appends `n` in base ten.
fn push_decimal(buff: &mut String, n: u32)
    ensures
        final(buff)@ == old(buff)@ + decimal_text(n as nat),
    decreases n,
{
    if n < 10 {
        push_digit(buff, n);
    } else {
        push_decimal(buff, n / 10);
        push_digit(buff, n % 10);
        assert(buff@ =~= old(buff)@ + decimal_text(n as nat));
    }
}

/// Appends the label of a token.
fn push_operand(buff: &mut String, operand: Operand)
    ensures
        final(buff)@ == old(buff)@ + operand_text(operand),
{
    match operand {
        Operand::Int(value) => {
            buff.append("Int(");
            if value < 0 {
                buff.append("-");
                push_decimal(buff, (-(value as i64)) as u32);
            } else {
                push_decimal(buff, value as u32);
            }
            buff.append(")");
            assert(buff@ =~= old(buff)@ + operand_text(operand));
        },
        Operand::Add => {
            buff.append("Add");
        },
        Operand::Sub => {
            buff.append("Sub");
        },
        Operand::Mul => {
            buff.append("Mul");
        },
        Operand::Div => {
            buff.append("Div");
        },
    }
}

/// Counts the nodes of a tree against a budget. Returns what is left of the
/// budget, or nothing if a node lacks a token or the budget does not cover
/// the tree.
fn count_labelled(node: &Node<Token>, budget: u32) -> (rest: Option<u32>)
    ensures
        match rest {
            Some(rest) => labelled(*node) && size(*node) + rest == budget,
            None => !labelled(*node) || size(*node) > budget,
        },
    decreases *node,
{
    if node.value.is_none() || budget == 0 {
        return None;
    }
    let mut rest = budget - 1;
    if let Some(right) = &node.right {
        rest = count_labelled(&**right, rest)?;
    }
    if let Some(left) = &node.left {
        rest = count_labelled(&**left, rest)?;
    }
    Some(rest)
}

impl Node<Token> {
    /// Whether this tree can be drawn by [`Node::convert_dot`].
    pub fn is_drawable(&self) -> (yes: bool)
        ensures
            yes == drawable(*self),
    {
        count_labelled(self, 0x7fff_ffff).is_some()
    }

    /// Draws the tree as an undirected graph in the DOT language.
    pub fn convert_dot(&self) -> (text: String)
        requires
            drawable(*self),
        ensures
            text@ == dot_text(*self),
    {
        let mut buff = String::from_str(
            "graph G {\n    n0 [shape=Mdiamond];\n    n0 [label=\"start\"];\n",
        );
        let mut last_id: i32 = 0;
        self.convert_dot_inner(&mut buff, &mut last_id, 0);
        buff.append("}\n");
        buff
    }

    /// Appends the lines for this subtree, which hangs below graph node
    /// `id_above`, numbering its nodes from `last_id + 1` on.
    fn convert_dot_inner(&self, buff: &mut String, last_id: &mut i32, id_above: i32)
        requires
            labelled(*self),
            0 <= id_above,
            0 <= *old(last_id),
            *old(last_id) + size(*self) <= i32::MAX,
        ensures
            *final(last_id) == *old(last_id) + size(*self),
            final(buff)@ == old(buff)@ + node_lines(
                *self,
                id_above as nat,
                (*old(last_id) + 1) as nat,
            ),
        decreases *self,
    {
        let my_id = *last_id + 1;
        *last_id = my_id;
        let operand = match &self.value {
            Some(token) => token.or,
            None => Operand::Add,
        };
        buff.append("    n");
        push_decimal(buff, id_above as u32);
        buff.append(" -- n");
        push_decimal(buff, my_id as u32);
        buff.append("; \n");
        assert(buff@ =~= old(buff)@ + edge_line(id_above as nat, my_id as nat));
        buff.append("    n");
        push_decimal(buff, my_id as u32);
        buff.append(" [label=\"");
        push_operand(buff, operand);
        buff.append("\"];\n");
        assert(buff@ =~= old(buff)@ + edge_line(id_above as nat, my_id as nat) + label_line(
            my_id as nat,
            operand,
        ));
        let ghost own = buff@;
        if let Some(right) = &self.right {
            right.convert_dot_inner(buff, last_id, my_id);
        }
        assert(buff@ =~= own + subtree_lines(self.right, my_id as nat, my_id as nat + 1));
        let ghost with_right = buff@;
        if let Some(left) = &self.left {
            left.convert_dot_inner(buff, last_id, my_id);
        }
        assert(buff@ =~= with_right + subtree_lines(
            self.left,
            my_id as nat,
            my_id as nat + 1 + size_of(self.right),
        ));
    }
}

} // verus!
