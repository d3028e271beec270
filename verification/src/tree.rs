//! Binary trees over tokens, and how a token sequence is assembled into one.

use vstd::prelude::*;
use crate::token::{Opcode, Token};

verus! {

/// A node of a binary tree: a token, if it has one, and up to two children.
#[derive(Debug, PartialEq, Eq)]
pub struct Node<T> {
    pub value: Option<Box<T>>,
    pub left: Option<Box<Node<T>>>,
    pub right: Option<Box<Node<T>>>,
}

/// Whether `copy` can be the result of cloning `source`: the two have the
/// same shape, and each token of `copy` is a clone of the token in its place.
pub open spec fn is_clone_of<T: Clone>(source: Node<T>, copy: Node<T>) -> bool
    decreases source,
{
    &&& match (source.value, copy.value) {
        (None, None) => true,
        (Some(a), Some(b)) => cloned::<T>(*a, *b),
        _ => false,
    }
    &&& match (source.left, copy.left) {
        (None, None) => true,
        (Some(a), Some(b)) => is_clone_of(*a, *b),
        _ => false,
    }
    &&& match (source.right, copy.right) {
        (None, None) => true,
        (Some(a), Some(b)) => is_clone_of(*a, *b),
        _ => false,
    }
}

impl<T: Clone> Clone for Node<T> {
    fn clone(&self) -> (copy: Self)
        ensures
            is_clone_of(*self, copy),
        decreases self,
    {
        Node {
            value: match &self.value {
                Some(value) => Some(Box::new((&**value).clone())),
                None => None,
            },
            left: match &self.left {
                Some(node) => Some(Box::new((&**node).clone())),
                None => None,
            },
            right: match &self.right {
                Some(node) => Some(Box::new((&**node).clone())),
                None => None,
            },
        }
    }
}

/// A clone of a tree of tokens is equal to the tree.
pub proof fn lemma_token_tree_clone(source: Node<Token>, copy: Node<Token>)
    requires
        is_clone_of(source, copy),
    ensures
        copy == source,
    decreases source,
{
    if let Some(node) = source.left {
        lemma_token_tree_clone(*node, *copy.left.unwrap());
    }
    if let Some(node) = source.right {
        lemma_token_tree_clone(*node, *copy.right.unwrap());
    }
}

/// Why a token sequence cannot be assembled into a tree.
#[derive(Debug, Copy, Clone, PartialEq, Eq, Structural)]
pub enum TreeError {
    /// A literal arrived while the place it would take, to the right of the
    /// most recent operator, already holds a literal.
    NoOpenSlot,
    /// The search for an open slot met a node without a token.
    MissingValue,
}

/// The tree before the first token: no token, no children.
pub open spec fn empty_tree() -> Node<Token> {
    Node { value: None, left: None, right: None }
}

/// The node that holds `token` and nothing else.
pub open spec fn leaf(token: Token) -> Node<Token> {
    Node { value: Some(Box::new(token)), left: None, right: None }
}

/// `node` with the literal `token` hung into the first open right slot
/// found by going down to the right past operator nodes.
pub open spec fn place_right(node: Node<Token>, token: Token) -> Result<Node<Token>, TreeError>
    decreases node,
{
    match node.right {
        None => Ok(Node { right: Some(Box::new(leaf(token))), ..node }),
        Some(child) => match child.value {
            None => Err(TreeError::MissingValue),
            Some(below) => if below.op == Opcode::Operand {
                match place_right(*child, token) {
                    Ok(placed) => Ok(Node { right: Some(Box::new(placed)), ..node }),
                    Err(e) => Err(e),
                }
            } else {
                Err(TreeError::NoOpenSlot)
            },
        },
    }
}

/// `tree` after one more token.
///
/// A literal fills the root's left slot if that is open, else the root's
/// right slot if that is open, else the first open right slot below. An
/// operator becomes the root's token if the root has none; otherwise it
/// becomes the root's new right child and takes the former right child as
/// its left child.
pub open spec fn insert(tree: Node<Token>, token: Token) -> Result<Node<Token>, TreeError> {
    match token.op {
        Opcode::Const => if tree.left is None {
            Ok(Node { left: Some(Box::new(leaf(token))), ..tree })
        } else if tree.right is None {
            Ok(Node { right: Some(Box::new(leaf(token))), ..tree })
        } else {
            place_right(tree, token)
        },
        Opcode::Operand => if tree.value is None {
            Ok(Node { value: Some(Box::new(token)), ..tree })
        } else {
            Ok(
                Node {
                    right: Some(
                        Box::new(Node { value: Some(Box::new(token)), left: tree.right, right: None }),
                    ),
                    ..tree
                },
            )
        },
    }
}

/// `tree` after the tokens of `tokens`, first to last, or the error of the
/// first token that cannot be inserted.
pub open spec fn insert_all(tree: Node<Token>, tokens: Seq<Token>) -> Result<Node<Token>, TreeError>
    decreases tokens.len(),
{
    if tokens.len() == 0 {
        Ok(tree)
    } else {
        match insert(tree, tokens[0]) {
            Ok(next) => insert_all(next, tokens.drop_first()),
            Err(e) => Err(e),
        }
    }
}

/// Whether every node on the way down to the right from `child` carries a
/// token.
pub open spec fn right_spine_labelled(child: Option<Box<Node<Token>>>) -> bool
    decreases child,
{
    match child {
        None => true,
        Some(node) => node.value is Some && right_spine_labelled(node.right),
    }
}

/// Below a root whose right spine is labelled, the search for an open slot
/// meets no node without a token, and leaves the spine labelled.
pub proof fn lemma_place_right_keeps_spine(node: Node<Token>, token: Token)
    requires
        right_spine_labelled(node.right),
    ensures
        match place_right(node, token) {
            Ok(placed) => placed.value == node.value && right_spine_labelled(placed.right),
            Err(e) => e == TreeError::NoOpenSlot,
        },
    decreases node,
{
    match node.right {
        None => {
            assert(right_spine_labelled(leaf(token).right));
        },
        Some(child) => {
            if child.value.unwrap().op == Opcode::Operand {
                lemma_place_right_keeps_spine(*child, token);
            }
        },
    }
}

/// Inserting a token into a tree whose right spine is labelled meets no
/// node without a token, and leaves the spine labelled.
pub proof fn lemma_insert_keeps_spine(tree: Node<Token>, token: Token)
    requires
        right_spine_labelled(tree.right),
    ensures
        match insert(tree, token) {
            Ok(next) => right_spine_labelled(next.right),
            Err(e) => e == TreeError::NoOpenSlot,
        },
{
    match token.op {
        Opcode::Const => {
            if tree.left is Some && tree.right is Some {
                lemma_place_right_keeps_spine(tree, token);
            } else if tree.left is Some {
                assert(right_spine_labelled(leaf(token).right));
            }
        },
        Opcode::Operand => {
            if tree.value is Some {
                let child = Node { value: Some(Box::new(token)), left: tree.right, right: None };
                assert(right_spine_labelled(child.right));
            }
        },
    }
}

/// Assembling a tree from tokens fails only for want of an open slot.
pub proof fn lemma_insert_all_keeps_spine(tree: Node<Token>, tokens: Seq<Token>)
    requires
        right_spine_labelled(tree.right),
    ensures
        match insert_all(tree, tokens) {
            Ok(built) => right_spine_labelled(built.right),
            Err(e) => e == TreeError::NoOpenSlot,
        },
    decreases tokens.len(),
{
    if tokens.len() > 0 {
        lemma_insert_keeps_spine(tree, tokens[0]);
        match insert(tree, tokens[0]) {
            Ok(next) => lemma_insert_all_keeps_spine(next, tokens.drop_first()),
            Err(_) => {},
        }
    }
}

/// Hangs the literal `token` into the first open right slot below `node`.
fn place_literal(node: Node<Token>, token: Token) -> (result: Result<Node<Token>, TreeError>)
    ensures
        result == place_right(node, token),
    decreases node,
{
    let Node { value, left, right } = node;
    match right {
        None => Ok(
            Node {
                value,
                left,
                right: Some(Box::new(Node { value: Some(Box::new(token)), left: None, right: None })),
            },
        ),
        Some(child) => {
            let child = *child;
            let descend = match &child.value {
                None => {
                    return Err(TreeError::MissingValue);
                },
                Some(below) => below.op == Opcode::Operand,
            };
            if descend {
                match place_literal(child, token) {
                    Ok(placed) => Ok(Node { value, left, right: Some(Box::new(placed)) }),
                    Err(e) => Err(e),
                }
            } else {
                Err(TreeError::NoOpenSlot)
            }
        },
    }
}

/// Adds one token to a tree under construction.
pub fn insert_token(tree: Node<Token>, token: Token) -> (result: Result<Node<Token>, TreeError>)
    ensures
        result == insert(tree, token),
{
    match token.op {
        Opcode::Const => {
            if tree.left.is_none() {
                let Node { value, left: _, right } = tree;
                Ok(
                    Node {
                        value,
                        left: Some(
                            Box::new(Node { value: Some(Box::new(token)), left: None, right: None }),
                        ),
                        right,
                    },
                )
            } else if tree.right.is_none() {
                let Node { value, left, right: _ } = tree;
                Ok(
                    Node {
                        value,
                        left,
                        right: Some(
                            Box::new(Node { value: Some(Box::new(token)), left: None, right: None }),
                        ),
                    },
                )
            } else {
                place_literal(tree, token)
            }
        },
        Opcode::Operand => {
            if tree.value.is_none() {
                let Node { value: _, left, right } = tree;
                Ok(Node { value: Some(Box::new(token)), left, right })
            } else {
                let Node { value, left, right } = tree;
                Ok(
                    Node {
                        value,
                        left,
                        right: Some(
                            Box::new(Node { value: Some(Box::new(token)), left: right, right: None }),
                        ),
                    },
                )
            }
        },
    }
}

/// Assembles a token sequence into a tree, one token after the other,
/// starting from the tree without token or children.
///
/// Operators are not ranked: the tree nests to the right in the order in
/// which the operators arrive. The only failure is a literal that finds no
/// open slot.
pub fn tokens_to_tree(tokens: Vec<Token>) -> (result: Result<Node<Token>, TreeError>)
    ensures
        result == insert_all(empty_tree(), tokens@),
        result matches Err(e) ==> e == TreeError::NoOpenSlot,
{
    let mut tree: Node<Token> = Node { value: None, left: None, right: None };
    let mut index: usize = 0;
    proof {
        assert(tokens@.skip(0) =~= tokens@);
        lemma_insert_all_keeps_spine(empty_tree(), tokens@);
    }
    while index < tokens.len()
        invariant
            index <= tokens.len(),
            insert_all(empty_tree(), tokens@) == insert_all(tree, tokens@.skip(index as int)),
            insert_all(empty_tree(), tokens@) matches Err(e) ==> e == TreeError::NoOpenSlot,
        decreases tokens.len() - index,
    {
        assert(tokens@.skip(index as int).drop_first() =~= tokens@.skip(index as int + 1));
        tree = insert_token(tree, tokens[index])?;
        index = index + 1;
    }
    Ok(tree)
}

} // verus!
