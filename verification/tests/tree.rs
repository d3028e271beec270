use arith_vm::bytecode::tree_to_instructions;
use arith_vm::token::{tokenize, Opcode, Operand, Token};
use arith_vm::expr::CodegenError;
use arith_vm::tree::{insert_token, tokens_to_tree, Node, TreeError};
use arith_vm::vm::{run, RuntimeError};

fn lit(value: i32) -> Node<Token> {
    Node {
        value: Some(Box::new(Token { op: Opcode::Const, or: Operand::Int(value) })),
        left: None,
        right: None,
    }
}

fn node(operator: Operand, left: Option<Node<Token>>, right: Option<Node<Token>>) -> Node<Token> {
    Node {
        value: Some(Box::new(Token { op: Opcode::Operand, or: operator })),
        left: left.map(Box::new),
        right: right.map(Box::new),
    }
}

fn op(operator: Operand, left: Node<Token>, right: Node<Token>) -> Node<Token> {
    node(operator, Some(left), Some(right))
}

fn parse(text: &str) -> Result<Node<Token>, TreeError> {
    tokens_to_tree(tokenize(text.as_bytes()).unwrap())
}

fn evaluate(text: &str) -> i32 {
    let program = tree_to_instructions(parse(text).unwrap()).unwrap();
    run(program).unwrap().register(0)
}

#[test]
fn no_tokens_give_the_empty_tree() {
    assert_eq!(tokens_to_tree(vec![]), Ok(Node { value: None, left: None, right: None }));
}

#[test]
fn a_single_literal_hangs_on_the_left() {
    assert_eq!(
        parse("7"),
        Ok(Node { value: None, left: Some(Box::new(lit(7))), right: None })
    );
}

#[test]
fn one_operator_between_two_literals() {
    assert_eq!(parse("1+2"), Ok(op(Operand::Add, lit(1), lit(2))));
}

#[test]
fn operator_may_come_first() {
    assert_eq!(parse("+12"), Ok(node(Operand::Add, Some(lit(12)), None)));
    assert_eq!(parse("-"), Ok(node(Operand::Sub, None, None)));
}

#[test]
fn second_operator_takes_over_the_right_child() {
    assert_eq!(
        parse("1+2*"),
        Ok(op(Operand::Add, lit(1), node(Operand::Mul, Some(lit(2)), None)))
    );
    assert_eq!(
        parse("1+2*3"),
        Ok(op(Operand::Add, lit(1), op(Operand::Mul, lit(2), lit(3))))
    );
}

#[test]
fn later_operators_nest_to_the_right() {
    assert_eq!(
        parse("1+2+3+4"),
        Ok(op(
            Operand::Add,
            lit(1),
            op(Operand::Add, op(Operand::Add, lit(2), lit(3)), lit(4)),
        ))
    );
}

#[test]
fn literal_goes_down_past_operators() {
    // Two operators in a row: the second has no left child, and the literal
    // that follows goes to its right.
    assert_eq!(
        parse("1++2"),
        Ok(op(Operand::Add, lit(1), node(Operand::Add, None, Some(lit(2)))))
    );
}

#[test]
fn third_literal_without_an_operator_finds_no_slot() {
    let tokens = vec![
        Token { op: Opcode::Const, or: Operand::Int(1) },
        Token { op: Opcode::Const, or: Operand::Int(2) },
        Token { op: Opcode::Const, or: Operand::Int(3) },
    ];
    assert_eq!(tokens_to_tree(tokens), Err(TreeError::NoOpenSlot));
    let tokens = vec![
        Token { op: Opcode::Const, or: Operand::Int(1) },
        Token { op: Opcode::Operand, or: Operand::Add },
        Token { op: Opcode::Const, or: Operand::Int(2) },
        Token { op: Opcode::Const, or: Operand::Int(3) },
    ];
    assert_eq!(tokens_to_tree(tokens), Err(TreeError::NoOpenSlot));
}

#[test]
fn node_without_a_token_stops_the_search() {
    let tree = Node {
        value: Some(Box::new(Token { op: Opcode::Operand, or: Operand::Add })),
        left: Some(Box::new(lit(1))),
        right: Some(Box::new(Node { value: None, left: None, right: None })),
    };
    let token = Token { op: Opcode::Const, or: Operand::Int(2) };
    assert_eq!(insert_token(tree, token), Err(TreeError::MissingValue));
}

#[test]
fn insert_token_fills_left_then_right() {
    let empty = Node { value: None, left: None, right: None };
    let one = Token { op: Opcode::Const, or: Operand::Int(1) };
    let two = Token { op: Opcode::Const, or: Operand::Int(2) };
    let first = insert_token(empty, one).unwrap();
    assert_eq!(first, Node { value: None, left: Some(Box::new(lit(1))), right: None });
    let second = insert_token(first, two).unwrap();
    assert_eq!(
        second,
        Node { value: None, left: Some(Box::new(lit(1))), right: Some(Box::new(lit(2))) }
    );
}

#[test]
fn text_is_evaluated_as_the_tree_nests() {
    assert_eq!(evaluate("1+2"), 3);
    assert_eq!(evaluate("1+2+3+4"), 10);
    assert_eq!(evaluate("2*3+4"), 14);
    // 10 - (2 - 3)
    assert_eq!(evaluate("10-2-3"), 11);
    // 100 / ((5 * 2) - 6)
    assert_eq!(evaluate("100/5*2-6"), 25);
}

#[test]
fn long_sum_from_text_uses_the_stack() {
    let program = tree_to_instructions(parse("1+1+1+1+1+1+1+1+1+1").unwrap()).unwrap();
    let state = run(program).unwrap();
    assert_eq!(state.register(0), 10);
    assert_eq!(state.stack().len(), 10);
}

#[test]
fn incomplete_text_is_refused_by_the_generator() {
    assert_eq!(tree_to_instructions(parse("1+").unwrap()), Err(CodegenError::MissingRight));
    assert_eq!(tree_to_instructions(parse("+1").unwrap()), Err(CodegenError::MissingRight));
    assert_eq!(tree_to_instructions(parse("1++2").unwrap()), Err(CodegenError::MissingLeft));
    assert_eq!(tree_to_instructions(parse("7").unwrap()), Ok(vec![]));
}

fn apply(operator: char, a: i32, b: i32) -> Option<i32> {
    match operator {
        '+' => Some(a.wrapping_add(b)),
        '-' => Some(a.wrapping_sub(b)),
        '*' => Some(a.wrapping_mul(b)),
        _ => {
            if b == 0 {
                None
            } else {
                Some(a.wrapping_div(b))
            }
        }
    }
}

#[test]
fn first_operator_is_applied_last_and_the_rest_from_left_to_right() {
    let operators = ['+', '-', '*', '/'];
    let mut state: u64 = 99;
    let mut next = move || {
        state = state.wrapping_mul(6364136223846793005).wrapping_add(1442695040888963407);
        (state >> 33) as usize
    };
    let mut failures = 0;
    for round in 0..300 {
        let first = (next() % 50) as i32;
        let pairs: Vec<(char, i32)> =
            (0..1 + round % 9).map(|_| (operators[next() % 4], (next() % 12) as i32)).collect();
        let mut text = first.to_string();
        for (operator, literal) in &pairs {
            text.push(*operator);
            text.push_str(&literal.to_string());
        }
        // The value of everything after the first operator, from left to right.
        let mut rest = Some(pairs[0].1);
        for (operator, literal) in &pairs[1..] {
            rest = rest.and_then(|so_far| apply(*operator, so_far, *literal));
        }
        let expected = rest.and_then(|right| apply(pairs[0].0, first, right));
        let program = tree_to_instructions(parse(&text).unwrap()).unwrap();
        match (run(program), expected) {
            (Ok(state), Some(value)) => assert_eq!(state.register(0), value, "{}", text),
            (Err(RuntimeError::DivisionByZero { .. }), None) => failures += 1,
            (outcome, _) => panic!("{}: {:?} instead of {:?}", text, outcome, expected),
        }
    }
    assert!(failures > 0);
}
