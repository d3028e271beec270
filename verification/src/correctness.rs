//! The generated program computes the value of the expression.
//!
//! The argument is a simulation. While the instructions of a subtree run,
//! every location that the allocator has not yet handed out holds zero, and
//! locations handed out earlier are left alone. An accumulating load into a
//! fresh location therefore stores exactly its source.

use vstd::prelude::*;
use crate::arith::lemma_wrap32_in_range;
use crate::bytecode::{InsnOpcode, InsnOperand, Instruction};
use crate::lowering::{
    after_pairs, binary, generate, lower, lower_side, opcode_of, pool_after, pool_after_side,
    program_in, prologue, reserve, result_location, Pool,
};
use crate::token::Token;
use crate::expr::{
    divides_by_zero, eval, is_expression, lemma_value_exists, operator_of, operators, side,
    side_defect, side_operators, side_value, CodegenError, Side,
};
use crate::tree::Node;
use crate::vm::{
    exec, lemma_exec_concat, lemma_exec_one, lemma_exec_pc, operation, run_spec, well_formed,
    Machine, RuntimeError,
};

verus! {

/// Every location that `pool` can still hand out holds zero.
pub open spec fn clean(m: Machine, pool: Pool) -> bool {
    &&& forall|i: int| pool.next <= i < pool.limit ==> #[trigger] m.regs[i] == 0
    &&& forall|n: int| pool.slots <= n < m.stack.len() ==> #[trigger] m.stack[n] == 0
}

/// `loc` is a register or stack cell that `pool` handed out earlier, or a
/// register that was never in the pool.
pub open spec fn settled(pool: Pool, loc: InsnOperand) -> bool {
    match loc {
        InsnOperand::Imm(_) => false,
        InsnOperand::Stack(n) => n < pool.slots,
        _ => !(pool.next <= loc.reg_index().unwrap() < pool.limit),
    }
}

/// `end` has the shape of `m` and agrees with it on every settled location
/// other than `dest`.
pub open spec fn same_except(m: Machine, end: Machine, pool: Pool, dest: InsnOperand) -> bool {
    &&& end.wf()
    &&& end.stack.len() == m.stack.len()
    &&& forall|i: int|
        0 <= i < 8 && !(pool.next <= i < pool.limit) && dest.reg_index() != Some(i)
            ==> #[trigger] end.regs[i] == m.regs[i]
    &&& forall|n: int|
        0 <= n < pool.slots && n < m.stack.len() && dest != InsnOperand::Stack(n as usize)
            ==> #[trigger] end.stack[n] == m.stack[n]
}

/// `end` has the shape of `m` and agrees with it on every settled location.
pub open spec fn preserved(m: Machine, end: Machine, pool: Pool) -> bool {
    same_except(m, end, pool, InsnOperand::Imm(0))
}

/// `later` is a state that the allocator can reach from `pool`.
pub open spec fn extends(pool: Pool, later: Pool) -> bool {
    &&& later.wf()
    &&& later.limit == pool.limit
    &&& later.next >= pool.next
    &&& later.slots >= pool.slots
}

/// Lowering only ever moves the allocator forward.
pub proof fn lemma_pool_after_extends(node: Node<Token>, pool: Pool)
    requires
        pool.wf(),
    ensures
        extends(pool.after_pair(), pool_after(node, pool)),
        extends(pool, pool_after(node, pool)),
    decreases node, 1nat,
{
    let taken = pool.after_pair();
    lemma_pool_after_side_extends(node.left, taken);
    lemma_pool_after_side_extends(node.right, pool_after_side(node.left, taken));
}

/// Lowering one side only ever moves the allocator forward.
pub proof fn lemma_pool_after_side_extends(child: Option<Box<Node<Token>>>, pool: Pool)
    requires
        pool.wf(),
    ensures
        extends(pool, pool_after_side(child, pool)),
    decreases child, 0nat,
{
    match side(child) {
        Side::Nested(node) => lemma_pool_after_extends(node, pool),
        _ => {},
    }
}

/// A lowered expression ends with the node's own instruction, whose first
/// operand is the node's left location.
pub proof fn lemma_result_location(node: Node<Token>, pool: Pool)
    ensures
        lower(node, pool).len() > 0,
        lower(node, pool).last().operands.len() == 2,
        result_location(lower(node, pool)) == pool.left(),
{
}

/// One side of an expression, lowered into a fresh location `dest`, leaves
/// the side's value there, or fails by dividing by zero when the side has
/// no value.
proof fn lemma_lower_side(child: Option<Box<Node<Token>>>, left: bool, dest: InsnOperand, pool: Pool, m: Machine)
    requires
        side_defect(child, left) is None,
        pool.wf(),
        m.wf(),
        clean(m, pool),
        settled(pool, dest),
        m.addressable(dest),
        m.get(dest) == 0,
        pool_after_side(child, pool).slots <= m.stack.len() <= usize::MAX,
    ensures
        match side_value(child) {
            Some(v) => {
                &&& exec(lower_side(child, dest, pool), m) matches Ok(end)
                &&& end.get(dest) == v
                &&& same_except(m, end, pool, dest)
                &&& clean(end, pool_after_side(child, pool))
            },
            None => exec(lower_side(child, dest, pool), m) matches Err(e) && e is DivisionByZero,
        },
    decreases child, 0nat,
{
    match side(child) {
        Side::Literal(value) => {
            lemma_exec_one(binary(InsnOpcode::Ldc, dest, InsnOperand::Imm(value)), m);
            lemma_wrap32_in_range(value as int);
        },
        Side::Nested(node) => {
            let inner = lower(node, pool);
            let copy = binary(InsnOpcode::Copy, dest, pool.left());
            lemma_lower(node, pool, m);
            lemma_pool_after_extends(node, pool);
            lemma_result_location(node, pool);
            assert(lower_side(child, dest, pool) =~= inner + seq![copy]);
            lemma_exec_concat(inner, seq![copy], m);
            if let Some(v) = eval(node) {
                let mid = exec(inner, m)->Ok_0;
                lemma_exec_one(copy, mid);
                lemma_wrap32_in_range(v as int);
                assert(mid.get(dest) == 0);
            }
        },
        _ => {},
    }
}

/// A lowered expression leaves its value in the node's left location, or
/// fails by dividing by zero when the expression has no value. It touches
/// no location that was handed out before, and leaves zero in every
/// location that is still to be handed out.
proof fn lemma_lower(node: Node<Token>, pool: Pool, m: Machine)
    requires
        is_expression(node),
        pool.wf(),
        m.wf(),
        clean(m, pool),
        pool_after(node, pool).slots <= m.stack.len() <= usize::MAX,
    ensures
        match eval(node) {
            Some(v) => {
                &&& exec(lower(node, pool), m) matches Ok(end)
                &&& end.get(pool.left()) == v
                &&& preserved(m, end, pool)
                &&& clean(end, pool_after(node, pool))
            },
            None => exec(lower(node, pool), m) matches Err(e) && e is DivisionByZero,
        },
    decreases node, 1nat,
{
    let l = pool.left();
    let r = pool.right();
    let taken = pool.after_pair();
    let middle = pool_after_side(node.left, taken);
    let op = operator_of(node.value.unwrap().or).unwrap();
    let own = binary(opcode_of(op), l, r);
    let left_code = lower_side(node.left, l, taken);
    let right_code = lower_side(node.right, r, middle);
    lemma_pool_after_side_extends(node.left, taken);
    lemma_pool_after_side_extends(node.right, middle);
    lemma_exec_concat(left_code + right_code, seq![own], m);
    lemma_exec_concat(left_code, right_code, m);
    lemma_lower_side(node.left, true, l, taken, m);
    if let Some(a) = side_value(node.left) {
        let after_left = exec(left_code, m)->Ok_0;
        assert(after_left.get(r) == 0);
        lemma_lower_side(node.right, false, r, middle, after_left);
        if let Some(b) = side_value(node.right) {
            let after_right = exec(right_code, after_left)->Ok_0;
            lemma_exec_one(own, after_right);
            assert(after_right.get(l) == a);
            assert(operation(opcode_of(op)) == op);
        }
    }
}

/// The machine after `count` reservations: everything zero.
pub open spec fn reserved_machine(count: nat) -> Machine {
    Machine { pc: count, regs: Seq::new(8, |i: int| 0i32), stack: Seq::new(count, |n: int| 0i32) }
}

/// The prologue creates one zeroed stack cell per reservation and touches
/// nothing else.
pub proof fn lemma_prologue(count: nat)
    ensures
        exec(prologue(count), Machine::initial()) == Ok::<Machine, RuntimeError>(
            reserved_machine(count),
        ),
    decreases count,
{
    if count == 0 {
        assert(reserved_machine(0).stack =~= Machine::initial().stack);
    } else {
        let shorter = (count - 1) as nat;
        lemma_prologue(shorter);
        assert(prologue(count) =~= prologue(shorter) + seq![reserve()]);
        lemma_exec_concat(prologue(shorter), seq![reserve()], Machine::initial());
        lemma_exec_one(reserve(), reserved_machine(shorter));
        assert(reserved_machine(shorter).stack.push(0i32) =~= reserved_machine(count).stack);
    }
}

/// Running the program of an expression yields the value of the expression,
/// in the first location the allocator had to offer, with the program
/// counter at the end of the program. Where evaluating the expression
/// divides by zero, the run fails with that error at one of the program's
/// instructions, and the instructions after it are not executed.
pub proof fn theorem_program_computes_value(tree: Node<Token>, pool: Pool)
    requires
        is_expression(tree),
        pool.wf(),
        program_in(tree, pool).len() <= usize::MAX,
    ensures
        match eval(tree) {
            Some(v) => {
                &&& run_spec(program_in(tree, pool)) matches Ok(end)
                &&& end.get(pool.left()) == v
                &&& end.pc == program_in(tree, pool).len()
            },
            None => {
                &&& run_spec(program_in(tree, pool)) matches Err(e)
                &&& e is DivisionByZero
                &&& e.at() < program_in(tree, pool).len()
            },
        },
{
    let count = pool_after(tree, pool).slots;
    let start = reserved_machine(count);
    lemma_prologue(count);
    lemma_exec_concat(prologue(count), lower(tree, pool), Machine::initial());
    lemma_lower(tree, pool, start);
    lemma_exec_pc(program_in(tree, pool), Machine::initial());
}

/// Running the generated program of an expression leaves the value of the
/// expression in register 0. Where evaluating the expression divides by
/// zero, the run fails with that error before the end of the program.
pub proof fn theorem_generated_code_computes_value(tree: Node<Token>)
    requires
        is_expression(tree),
        generate(tree) matches Ok(program) && program.len() <= usize::MAX,
    ensures
        generate(tree) matches Ok(program) && match eval(tree) {
            Some(v) => {
                &&& run_spec(program) matches Ok(end)
                &&& end.regs[0] == v
                &&& end.pc == program.len()
            },
            None => {
                &&& run_spec(program) matches Err(e)
                &&& e is DivisionByZero
                &&& e.at() < program.len()
            },
        },
{
    theorem_program_computes_value(tree, Pool::full());
}

/// A division by zero anywhere in an expression makes the run of its
/// generated program fail with that error, at an instruction of the
/// program; the instructions after it are not executed.
pub proof fn theorem_division_by_zero_halts(tree: Node<Token>)
    requires
        is_expression(tree),
        divides_by_zero(tree),
        generate(tree) matches Ok(program) && program.len() <= usize::MAX,
    ensures
        generate(tree) matches Ok(program) && run_spec(program) matches Err(e) && e
            is DivisionByZero && e.at() < program.len(),
{
    lemma_value_exists(tree);
    theorem_generated_code_computes_value(tree);
}

/// Lowering one side of an operator node moves the allocator by one pair
/// for each operator node of that side.
pub proof fn lemma_pool_after_side_counts(child: Option<Box<Node<Token>>>, pool: Pool)
    requires
        pool.wf(),
    ensures
        pool_after_side(child, pool) == after_pairs(pool, side_operators(child)),
    decreases child, 0nat,
{
    match side(child) {
        Side::Nested(node) => lemma_pool_after_counts(node, pool),
        _ => {},
    }
}

/// Lowering a tree moves the allocator by one pair for each of its operator
/// nodes, whatever the shape of the tree.
pub proof fn lemma_pool_after_counts(node: Node<Token>, pool: Pool)
    requires
        pool.wf(),
    ensures
        pool_after(node, pool) == after_pairs(pool, operators(node)),
    decreases node, 1nat,
{
    let taken = pool.after_pair();
    let middle = pool_after_side(node.left, taken);
    lemma_pool_after_side_counts(node.left, taken);
    lemma_pool_after_side_counts(node.right, middle);
}

/// The instructions for one side of an operator node are well formed for a
/// stack that holds every cell handed out by the end.
pub proof fn lemma_lower_side_well_formed(
    child: Option<Box<Node<Token>>>,
    left: bool,
    dest: InsnOperand,
    pool: Pool,
    cells: nat,
)
    requires
        side_defect(child, left) is None,
        pool.wf(),
        !(dest is Imm),
        dest matches InsnOperand::Stack(n) ==> n < cells,
        pool_after_side(child, pool).slots <= cells <= usize::MAX,
    ensures
        forall|i: int|
            0 <= i < lower_side(child, dest, pool).len() ==> well_formed(
                #[trigger] lower_side(child, dest, pool)[i],
                cells,
            ),
    decreases child, 0nat,
{
    match side(child) {
        Side::Nested(node) => {
            lemma_lower_well_formed(node, pool, cells);
            lemma_pool_after_extends(node, pool);
            lemma_result_location(node, pool);
        },
        _ => {},
    }
}

/// The instructions for an expression are well formed for a stack that
/// holds every cell handed out by the end: each has a destination and a
/// source, no destination is an immediate, and only constant loads take one
/// as their source.
pub proof fn lemma_lower_well_formed(node: Node<Token>, pool: Pool, cells: nat)
    requires
        is_expression(node),
        pool.wf(),
        pool_after(node, pool).slots <= cells <= usize::MAX,
    ensures
        forall|i: int|
            0 <= i < lower(node, pool).len() ==> well_formed(#[trigger] lower(node, pool)[i], cells),
    decreases node, 1nat,
{
    let taken = pool.after_pair();
    let middle = pool_after_side(node.left, taken);
    lemma_pool_after_side_extends(node.left, taken);
    lemma_pool_after_side_extends(node.right, middle);
    lemma_lower_side_well_formed(node.left, true, pool.left(), taken, cells);
    lemma_lower_side_well_formed(node.right, false, pool.right(), middle, cells);
    let left_code = lower_side(node.left, pool.left(), taken);
    let right_code = lower_side(node.right, pool.right(), middle);
    let code = lower(node, pool);
    assert forall|i: int| 0 <= i < code.len() implies well_formed(#[trigger] code[i], cells) by {
        if i < left_code.len() {
            assert(code[i] == left_code[i]);
        } else if i < left_code.len() + right_code.len() {
            assert(code[i] == right_code[i - left_code.len()]);
        }
    }
}

/// Every instruction of the program of an expression is well formed for
/// the stack that the program's own reservations create.
pub proof fn lemma_program_well_formed(tree: Node<Token>, pool: Pool)
    requires
        is_expression(tree),
        pool.wf(),
        program_in(tree, pool).len() <= usize::MAX,
    ensures
        forall|i: int|
            0 <= i < program_in(tree, pool).len() ==> well_formed(
                #[trigger] program_in(tree, pool)[i],
                pool_after(tree, pool).slots,
            ),
{
    lemma_lower_well_formed(tree, pool, pool_after(tree, pool).slots);
}

/// One side of an operator node lowers to three instructions for each of
/// its operator nodes, and one more to bring the value into place.
pub proof fn lemma_lower_side_length(child: Option<Box<Node<Token>>>, left: bool, dest: InsnOperand, pool: Pool)
    requires
        side_defect(child, left) is None,
    ensures
        lower_side(child, dest, pool).len() == 3 * side_operators(child) + 1,
    decreases child, 0nat,
{
    match side(child) {
        Side::Nested(node) => lemma_lower_length(node, pool),
        _ => {},
    }
}

/// An expression lowers to three instructions for each of its operator
/// nodes.
pub proof fn lemma_lower_length(node: Node<Token>, pool: Pool)
    requires
        is_expression(node),
    ensures
        lower(node, pool).len() == 3 * operators(node),
    decreases node, 1nat,
{
    let taken = pool.after_pair();
    lemma_lower_side_length(node.left, true, pool.left(), taken);
    lemma_lower_side_length(node.right, false, pool.right(), pool_after_side(node.left, taken));
}

/// With all eight registers free, the first four operator nodes compute in
/// registers, and every operator node after them takes two stack cells,
/// each reserved by one push at the front of the program.
pub proof fn lemma_spill_count(tree: Node<Token>)
    ensures
        pool_after(tree, Pool::full()).slots == if operators(tree) <= 4 {
            0
        } else {
            2 * (operators(tree) - 4)
        },
        program_in(tree, Pool::full()) == prologue(pool_after(tree, Pool::full()).slots) + lower(
            tree,
            Pool::full(),
        ),
{
    lemma_pool_after_counts(tree, Pool::full());
}

/// The program of an expression has three instructions for each operator
/// node, and two reservations before them for each operator node past the
/// fourth.
pub proof fn lemma_program_length(tree: Node<Token>)
    requires
        is_expression(tree),
    ensures
        generate(tree) matches Ok(program) && program.len() == 3 * operators(tree) + if operators(
            tree,
        ) <= 4 {
            0
        } else {
            2 * (operators(tree) - 4)
        },
{
    lemma_spill_count(tree);
    lemma_lower_length(tree, Pool::full());
}

/// Code generation is a function of the tree: any two results for the same
/// tree are both programs, the same instruction for instruction, or both
/// the same error.
pub proof fn theorem_generation_is_deterministic(
    tree: Node<Token>,
    first: Result<Vec<Instruction>, CodegenError>,
    second: Result<Vec<Instruction>, CodegenError>,
)
    requires
        match generate(tree) {
            Ok(program) => first matches Ok(insns) && insns.deep_view() == program,
            Err(e) => first matches Err(r) && r == e,
        },
        match generate(tree) {
            Ok(program) => second matches Ok(insns) && insns.deep_view() == program,
            Err(e) => second matches Err(r) && r == e,
        },
    ensures
        match (first, second) {
            (Ok(a), Ok(b)) => a.deep_view() == b.deep_view(),
            (Err(a), Err(b)) => a == b,
            _ => false,
        },
{
}

} // verus!
