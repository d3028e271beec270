use arith_vm::token::{tokenize, Opcode, Operand, Token, TokenError};

fn lit(value: i32) -> Token {
    Token { op: Opcode::Const, or: Operand::Int(value) }
}

fn op(operator: Operand) -> Token {
    Token { op: Opcode::Operand, or: operator }
}

#[test]
fn empty_text_has_no_tokens() {
    assert_eq!(tokenize(b""), Ok(vec![]));
}

#[test]
fn operators_and_numbers() {
    assert_eq!(
        tokenize(b"12+3*45-6/789"),
        Ok(vec![
            lit(12),
            op(Operand::Add),
            lit(3),
            op(Operand::Mul),
            lit(45),
            op(Operand::Sub),
            lit(6),
            op(Operand::Div),
            lit(789),
        ])
    );
}

#[test]
fn every_digit_is_read() {
    assert_eq!(tokenize(b"1234567890"), Ok(vec![lit(1234567890)]));
    assert_eq!(tokenize(b"9"), Ok(vec![lit(9)]));
    assert_eq!(tokenize(b"0"), Ok(vec![lit(0)]));
}

#[test]
fn a_run_of_digits_is_one_token() {
    assert_eq!(tokenize(b"007"), Ok(vec![lit(7)]));
    assert_eq!(tokenize(b"000000000000000000000000000001"), Ok(vec![lit(1)]));
}

#[test]
fn operators_may_follow_each_other() {
    assert_eq!(tokenize(b"+-"), Ok(vec![op(Operand::Add), op(Operand::Sub)]));
    assert_eq!(tokenize(b"5--"), Ok(vec![lit(5), op(Operand::Sub), op(Operand::Sub)]));
}

#[test]
fn largest_number_is_accepted() {
    assert_eq!(tokenize(b"2147483647"), Ok(vec![lit(i32::MAX)]));
    assert_eq!(tokenize(b"2147483647+0"), Ok(vec![lit(i32::MAX), op(Operand::Add), lit(0)]));
}

#[test]
fn too_large_number_is_refused() {
    assert_eq!(tokenize(b"2147483648"), Err(TokenError::NumberTooLarge));
    assert_eq!(tokenize(b"1+99999999999999999999999999"), Err(TokenError::NumberTooLarge));
    assert_eq!(tokenize(b"3000000000"), Err(TokenError::NumberTooLarge));
}

#[test]
fn other_bytes_are_refused() {
    assert_eq!(tokenize(b"1 + 2"), Err(TokenError::UnexpectedCharacter(b' ')));
    assert_eq!(tokenize(b"1+2\n"), Err(TokenError::UnexpectedCharacter(b'\n')));
    assert_eq!(tokenize(b"(1)"), Err(TokenError::UnexpectedCharacter(b'(')));
    assert_eq!(tokenize(&[b'1', 0xc3, 0xa9]), Err(TokenError::UnexpectedCharacter(0xc3)));
}

#[test]
fn the_first_error_from_the_left_is_reported() {
    assert_eq!(tokenize(b"99999999999x"), Err(TokenError::NumberTooLarge));
    assert_eq!(tokenize(b"x99999999999"), Err(TokenError::UnexpectedCharacter(b'x')));
}
