use arith_vm::token::{tokenize, Opcode, Operand, Token};
use arith_vm::tree::{tokens_to_tree, Node};

fn lit(value: i32) -> Node<Token> {
    Node {
        value: Some(Box::new(Token { op: Opcode::Const, or: Operand::Int(value) })),
        left: None,
        right: None,
    }
}

fn op(operator: Operand, left: Node<Token>, right: Node<Token>) -> Node<Token> {
    Node {
        value: Some(Box::new(Token { op: Opcode::Operand, or: operator })),
        left: Some(Box::new(left)),
        right: Some(Box::new(right)),
    }
}

#[test]
fn draws_one_plus_two() {
    let tree = op(Operand::Add, lit(1), lit(2));
    assert!(tree.is_drawable());
    assert_eq!(
        tree.convert_dot(),
        "graph G {\n    n0 [shape=Mdiamond];\n    n0 [label=\"start\"];\n    n0 -- n1; \n    n1 [label=\"Add\"];\n    n1 -- n2; \n    n2 [label=\"Int(2)\"];\n    n1 -- n3; \n    n3 [label=\"Int(1)\"];\n}\n"
    );
}

#[test]
fn draws_the_right_subtree_before_the_left() {
    // (7 - 8) * (-20 / 2147483647)
    let tree = op(
        Operand::Mul,
        op(Operand::Sub, lit(7), lit(8)),
        op(Operand::Div, lit(-20), lit(i32::MAX)),
    );
    let expected = [
        "graph G {",
        "    n0 [shape=Mdiamond];",
        "    n0 [label=\"start\"];",
        "    n0 -- n1; ",
        "    n1 [label=\"Mul\"];",
        "    n1 -- n2; ",
        "    n2 [label=\"Div\"];",
        "    n2 -- n3; ",
        "    n3 [label=\"Int(2147483647)\"];",
        "    n2 -- n4; ",
        "    n4 [label=\"Int(-20)\"];",
        "    n1 -- n5; ",
        "    n5 [label=\"Sub\"];",
        "    n5 -- n6; ",
        "    n6 [label=\"Int(8)\"];",
        "    n5 -- n7; ",
        "    n7 [label=\"Int(7)\"];",
        "}",
        "",
    ]
    .join("\n");
    assert_eq!(tree.convert_dot(), expected);
}

#[test]
fn draws_the_least_integer() {
    let tree = op(Operand::Add, lit(i32::MIN), lit(0));
    let text = tree.convert_dot();
    assert!(text.contains("    n3 [label=\"Int(-2147483648)\"];\n"));
    assert!(text.contains("    n2 [label=\"Int(0)\"];\n"));
}

#[test]
fn numbers_nodes_past_nine() {
    let tree = tokens_to_tree(tokenize(b"1+2+3+4+5+6+7").unwrap()).unwrap();
    let text = tree.convert_dot();
    assert_eq!(text.lines().count(), 3 + 2 * 13 + 1);
    assert!(text.contains("    n10 -- n12; \n    n12 [label=\"Int(2)\"];\n"));
    assert!(text.ends_with("    n1 -- n13; \n    n13 [label=\"Int(1)\"];\n}\n"));
}

#[test]
fn tree_with_an_empty_node_is_not_drawable() {
    let tree = tokens_to_tree(tokenize(b"7").unwrap()).unwrap();
    assert!(!tree.is_drawable());
    let mut tree = op(Operand::Add, lit(1), lit(2));
    tree.right = Some(Box::new(Node { value: None, left: None, right: None }));
    assert!(!tree.is_drawable());
}
