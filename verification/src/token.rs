//! Tokens of the arithmetic language.

use vstd::prelude::*;

verus! {

/// Whether a token is an integer literal or an operator.
#[derive(Debug, Copy, Clone, PartialEq, Eq, Structural)]
pub enum Opcode {
    Const,
    Operand,
}

/// The payload of a token: the literal's value, or which operator it is.
#[derive(Debug, Copy, Clone, PartialEq, Eq, Structural)]
pub enum Operand {
    Int(i32),
    Add,
    Sub,
    Mul,
    Div,
}

/// One token: its class and its payload.
#[derive(Debug, Copy, Clone, PartialEq, Eq, Structural)]
pub struct Token {
    pub op: Opcode,
    pub or: Operand,
}

/// Why a text cannot be split into tokens.
#[derive(Debug, Copy, Clone, PartialEq, Eq, Structural)]
pub enum TokenError {
    /// A run of digits denotes a number greater than `i32::MAX`.
    NumberTooLarge,
    /// A byte that is neither a digit nor one of `+ - * /`.
    UnexpectedCharacter(u8),
}

/// Whether `byte` is an ASCII digit.
pub open spec fn is_digit(byte: u8) -> bool {
    0x30 <= byte <= 0x39
}

/// The operator token that `byte` spells, if it spells one.
pub open spec fn operator_token(byte: u8) -> Option<Token> {
    if byte == 0x2b {
        Some(Token { op: Opcode::Operand, or: Operand::Add })
    } else if byte == 0x2d {
        Some(Token { op: Opcode::Operand, or: Operand::Sub })
    } else if byte == 0x2a {
        Some(Token { op: Opcode::Operand, or: Operand::Mul })
    } else if byte == 0x2f {
        Some(Token { op: Opcode::Operand, or: Operand::Div })
    } else {
        None
    }
}

/// The token of the literal `value`.
pub open spec fn literal_token(value: i32) -> Token {
    Token { op: Opcode::Const, or: Operand::Int(value) }
}

/// The number that a sequence of digits denotes in base ten.
pub open spec fn decimal(digits: Seq<u8>) -> nat
    decreases digits.len(),
{
    if digits.len() == 0 {
        0
    } else {
        decimal(digits.drop_last()) * 10 + (digits.last() - 0x30) as nat
    }
}

/// The length of the longest run of digits at the front of `input`.
pub open spec fn digit_run(input: Seq<u8>) -> nat
    decreases input.len(),
{
    if input.len() > 0 && is_digit(input[0]) {
        1 + digit_run(input.drop_first())
    } else {
        0
    }
}

/// The tokens of `input`. Each of `+ - * /` is a token; each maximal run of
/// digits is one literal. The first number that does not fit, or the first
/// other byte, is an error.
pub open spec fn lex(input: Seq<u8>) -> Result<Seq<Token>, TokenError>
    decreases input.len(),
{
    if input.len() == 0 {
        Ok(Seq::empty())
    } else if is_digit(input[0]) {
        let run = digit_run(input);
        let value = decimal(input.take(run as int));
        if value > i32::MAX {
            Err(TokenError::NumberTooLarge)
        } else {
            proof {
                lemma_digit_run_bound(input);
            }
            match lex(input.skip(run as int)) {
                Ok(rest) => Ok(seq![literal_token(value as i32)] + rest),
                Err(e) => Err(e),
            }
        }
    } else {
        match operator_token(input[0]) {
            None => Err(TokenError::UnexpectedCharacter(input[0])),
            Some(token) => match lex(input.drop_first()) {
                Ok(rest) => Ok(seq![token] + rest),
                Err(e) => Err(e),
            },
        }
    }
}

/// A run of digits never reaches past the end of the input.
pub proof fn lemma_digit_run_bound(input: Seq<u8>)
    ensures
        digit_run(input) <= input.len(),
        input.len() > 0 && is_digit(input[0]) ==> digit_run(input) >= 1,
    decreases input.len(),
{
    if input.len() > 0 && is_digit(input[0]) {
        lemma_digit_run_bound(input.drop_first());
    }
}

/// The run at the front of `input` has length `count` when the first `count`
/// bytes are digits and the byte after them, if there is one, is not.
proof fn lemma_digit_run_is(input: Seq<u8>, count: nat)
    requires
        count <= input.len(),
        forall|k: int| 0 <= k < count ==> is_digit(#[trigger] input[k]),
        count < input.len() ==> !is_digit(input[count as int]),
    ensures
        digit_run(input) == count,
    decreases input.len(),
{
    if count > 0 {
        let rest = input.drop_first();
        assert forall|k: int| 0 <= k < count - 1 implies is_digit(#[trigger] rest[k]) by {
            assert(rest[k] == input[k + 1]);
        }
        lemma_digit_run_is(rest, (count - 1) as nat);
    }
}

/// The operator token for a byte, if the byte spells an operator.
fn operator_for(byte: u8) -> (token: Option<Token>)
    ensures
        token == operator_token(byte),
{
    if byte == 0x2b {
        Some(Token { op: Opcode::Operand, or: Operand::Add })
    } else if byte == 0x2d {
        Some(Token { op: Opcode::Operand, or: Operand::Sub })
    } else if byte == 0x2a {
        Some(Token { op: Opcode::Operand, or: Operand::Mul })
    } else if byte == 0x2f {
        Some(Token { op: Opcode::Operand, or: Operand::Div })
    } else {
        None
    }
}

/// Reads the run of digits that starts at `start`. Returns where the run
/// ends and the number it denotes, or no number if that exceeds `i32::MAX`.
fn read_number(input: &[u8], start: usize) -> (result: (usize, Option<i32>))
    requires
        start < input@.len(),
        is_digit(input@[start as int]),
    ensures
        result.0 == start + digit_run(input@.skip(start as int)),
        start < result.0 <= input@.len(),
        match result.1 {
            Some(value) => value == decimal(input@.subrange(start as int, result.0 as int)),
            None => decimal(input@.subrange(start as int, result.0 as int)) > i32::MAX,
        },
{
    let mut end = start;
    let mut value: i32 = 0;
    let mut fits = true;
    assert(input@.subrange(start as int, start as int) =~= Seq::<u8>::empty());
    while end < input.len() && 0x30 <= input[end] && input[end] <= 0x39
        invariant
            start <= end <= input@.len(),
            forall|k: int| start <= k < end ==> is_digit(#[trigger] input@[k]),
            0 <= value,
            fits ==> value == decimal(input@.subrange(start as int, end as int)),
            !fits ==> decimal(input@.subrange(start as int, end as int)) > i32::MAX,
        decreases input@.len() - end,
    {
        let digit: i32 = (input[end] - 0x30) as i32;
        let ghost before = input@.subrange(start as int, end as int);
        let ghost after = input@.subrange(start as int, end as int + 1);
        assert(after.drop_last() =~= before);
        assert(after.last() == input@[end as int]);
        assert(decimal(after) == decimal(before) * 10 + digit);
        if fits {
            if value > (i32::MAX - digit) / 10 {
                fits = false;
            } else {
                value = value * 10 + digit;
            }
        }
        end = end + 1;
    }
    proof {
        let rest = input@.skip(start as int);
        assert forall|k: int| 0 <= k < end - start implies is_digit(#[trigger] rest[k]) by {
            assert(rest[k] == input@[start + k]);
        }
        lemma_digit_run_is(rest, (end - start) as nat);
    }
    (end, if fits { Some(value) } else { None })
}

/// Splits a text into tokens.
///
/// Each of the bytes `+ - * /` becomes an operator token, and each maximal
/// run of ASCII digits becomes one literal token with the number the digits
/// denote in base ten. The first number greater than `i32::MAX`, or the
/// first byte of any other kind, ends the scan with an error.
pub fn tokenize(input: &[u8]) -> (result: Result<Vec<Token>, TokenError>)
    ensures
        match lex(input@) {
            Ok(tokens) => result matches Ok(found) && found@ == tokens,
            Err(e) => result matches Err(r) && r == e,
        },
{
    let mut tokens: Vec<Token> = Vec::new();
    let mut at: usize = 0;
    assert(input@.skip(0) =~= input@);
    while at < input.len()
        invariant
            at <= input@.len(),
            lex(input@) == match lex(input@.skip(at as int)) {
                Ok(rest) => Ok::<Seq<Token>, TokenError>(tokens@ + rest),
                Err(e) => Err(e),
            },
        decreases input@.len() - at,
    {
        let byte = input[at];
        let ghost rest = input@.skip(at as int);
        let ghost found = tokens@;
        assert(rest[0] == byte);
        if 0x30 <= byte && byte <= 0x39 {
            let (end, number) = read_number(input, at);
            assert(rest.take(end - at) =~= input@.subrange(at as int, end as int));
            assert(rest.skip(end - at) =~= input@.skip(end as int));
            match number {
                None => {
                    return Err(TokenError::NumberTooLarge);
                },
                Some(value) => {
                    tokens.push(Token { op: Opcode::Const, or: Operand::Int(value) });
                    proof {
                        if let Ok(more) = lex(input@.skip(end as int)) {
                            assert(tokens@ + more =~= found + (seq![literal_token(value)] + more));
                        }
                    }
                },
            }
            at = end;
        } else {
            match operator_for(byte) {
                None => {
                    return Err(TokenError::UnexpectedCharacter(byte));
                },
                Some(token) => {
                    tokens.push(token);
                    assert(rest.drop_first() =~= input@.skip(at as int + 1));
                    proof {
                        if let Ok(more) = lex(input@.skip(at as int + 1)) {
                            assert(tokens@ + more =~= found + (seq![token] + more));
                        }
                    }
                },
            }
            at = at + 1;
        }
    }
    assert(tokens@ + Seq::<Token>::empty() =~= tokens@);
    Ok(tokens)
}

} // verus!
