//! Compiles an expression tree into a linear evaluation program.
//!
//! Evaluation itself happens over machine floating-point numbers, which
//! the verified core cannot hold, so the core pins down everything but
//! the arithmetic: [`compile`] produces, for every tree, exactly the
//! instruction sequence of [`spec_compile`].  The driver runs that
//! program over a stack of numbers, one instruction at a time, with no
//! decisions of its own.
//!
//! The program encodes the evaluation policy of the calculator:
//!
//! * every binary operator evaluates its left operand before its right
//!   one, except division and modulo, which evaluate the right operand
//!   (the divisor) first and place a [`Instruction::CheckDivisor`]
//!   directly after it, so that a zero divisor fails before the left
//!   operand is ever evaluated;
//! * unary plus, minus and square root act on the single value their
//!   operand leaves behind.
//!
//! [`lemma_compile_stack_safe`] shows that such a program never pops an
//! empty stack and leaves exactly one value behind, so the driver's
//! loop cannot fail for any tree the parser produces.

use vstd::prelude::*;
use crate::parser::{Node, NodeView, Operator, wf_node};

verus! {

/// One step of a compiled evaluation program, acting on a stack of
/// numbers.
///
/// Every instruction pushes one value; `PushNumber` pops nothing, the
/// unary instructions and `CheckDivisor` pop one value, and the binary
/// instructions pop two — first the operand pushed last.  For a binary
/// operator the operand order on the stack follows from the program
/// order [`spec_compile`] fixes.  `CheckDivisor` fails the whole
/// evaluation if the value it pops is exactly zero, and pushes it back
/// otherwise.
#[derive(Debug, Clone, PartialEq)]
pub enum Instruction {
    PushNumber(String),
    UnaryPlus,
    UnaryMinus,
    SquareRoot,
    Add,
    Subtract,
    Multiply,
    CheckDivisor,
    Divide,
    Modulo,
    Power,
}

/// The mathematical model of an [`Instruction`]: the numeral is a
/// sequence of characters instead of a `String`.
pub enum InstructionView {
    PushNumber(Seq<char>),
    UnaryPlus,
    UnaryMinus,
    SquareRoot,
    Add,
    Subtract,
    Multiply,
    CheckDivisor,
    Divide,
    Modulo,
    Power,
}

impl DeepView for Instruction {
    type V = InstructionView;

    open spec fn deep_view(&self) -> InstructionView {
        match self {
            Instruction::PushNumber(s) => InstructionView::PushNumber(s@),
            Instruction::UnaryPlus => InstructionView::UnaryPlus,
            Instruction::UnaryMinus => InstructionView::UnaryMinus,
            Instruction::SquareRoot => InstructionView::SquareRoot,
            Instruction::Add => InstructionView::Add,
            Instruction::Subtract => InstructionView::Subtract,
            Instruction::Multiply => InstructionView::Multiply,
            Instruction::CheckDivisor => InstructionView::CheckDivisor,
            Instruction::Divide => InstructionView::Divide,
            Instruction::Modulo => InstructionView::Modulo,
            Instruction::Power => InstructionView::Power,
        }
    }
}

impl View for Instruction {
    type V = InstructionView;

    open spec fn view(&self) -> InstructionView {
        self.deep_view()
    }
}

/// Evaluation fails only on a divisor that is exactly zero; the driver
/// reports it when `CheckDivisor` meets one.
#[derive(Debug, Clone, Copy, PartialEq, Eq)]
pub enum ArithmeticError {
    DivisionByZero,
}

/// The instruction a unary operator compiles to.
pub open spec fn unary_instruction(op: Operator) -> InstructionView {
    if op == Operator::Plus {
        InstructionView::UnaryPlus
    } else if op == Operator::Minus {
        InstructionView::UnaryMinus
    } else {
        InstructionView::SquareRoot
    }
}

/// The instruction a binary operator compiles to.
pub open spec fn binary_instruction(op: Operator) -> InstructionView {
    if op == Operator::Plus {
        InstructionView::Add
    } else if op == Operator::Minus {
        InstructionView::Subtract
    } else if op == Operator::Multiply {
        InstructionView::Multiply
    } else if op == Operator::Divide {
        InstructionView::Divide
    } else if op == Operator::Modulo {
        InstructionView::Modulo
    } else {
        InstructionView::Power
    }
}

/// The evaluation program of a tree: left operand before right one,
/// except for division and modulo, whose divisor is evaluated first and
/// checked at once.
pub open spec fn spec_compile(n: NodeView) -> Seq<InstructionView>
    decreases n,
{
    match n {
        NodeView::Number(t) => seq![InstructionView::PushNumber(t)],
        NodeView::Unary { op, node } => spec_compile(*node) + seq![unary_instruction(op)],
        NodeView::Binary { op, left, right } => if op == Operator::Divide || op
            == Operator::Modulo {
            spec_compile(*right) + seq![InstructionView::CheckDivisor] + spec_compile(*left)
                + seq![binary_instruction(op)]
        } else {
            spec_compile(*left) + spec_compile(*right) + seq![binary_instruction(op)]
        },
    }
}

/// Compiles a tree into its evaluation program, exactly as
/// [`spec_compile`] says.
pub fn compile(node: &Node) -> (r: Vec<Instruction>)
    requires
        wf_node(node.deep_view()),
    ensures
        r.deep_view() == spec_compile(node.deep_view()),
    decreases node,
{
    match node {
        Node::Number(lit) => {
            let mut prog: Vec<Instruction> = Vec::new();
            prog.push(Instruction::PushNumber(lit.clone()));
            proof {
                assert(prog.deep_view() =~= spec_compile(node.deep_view()));
            }
            prog
        },
        Node::Unary { op, node: child } => {
            let mut prog = compile(child);
            let instruction = match op {
                Operator::Plus => Instruction::UnaryPlus,
                Operator::Minus => Instruction::UnaryMinus,
                _ => Instruction::SquareRoot,
            };
            prog.push(instruction);
            proof {
                assert(prog.deep_view() =~= spec_compile(node.deep_view()));
            }
            prog
        },
        Node::Binary { op, left, right } => {
            let divides = match op {
                Operator::Divide | Operator::Modulo => true,
                _ => false,
            };
            let instruction = match op {
                Operator::Plus => Instruction::Add,
                Operator::Minus => Instruction::Subtract,
                Operator::Multiply => Instruction::Multiply,
                Operator::Divide => Instruction::Divide,
                Operator::Modulo => Instruction::Modulo,
                _ => Instruction::Power,
            };
            if divides {
                let mut prog = compile(right);
                prog.push(Instruction::CheckDivisor);
                let mut left_program = compile(left);
                prog.append(&mut left_program);
                prog.push(instruction);
                proof {
                    assert(prog.deep_view() =~= spec_compile(node.deep_view()));
                }
                prog
            } else {
                let mut prog = compile(left);
                let mut right_program = compile(right);
                prog.append(&mut right_program);
                prog.push(instruction);
                proof {
                    assert(prog.deep_view() =~= spec_compile(node.deep_view()));
                }
                prog
            }
        },
    }
}

/// How many stack values an instruction pops.  Every instruction pushes
/// exactly one value back.
pub open spec fn instruction_pops(i: InstructionView) -> int {
    match i {
        InstructionView::PushNumber(_) => 0,
        InstructionView::UnaryPlus => 1,
        InstructionView::UnaryMinus => 1,
        InstructionView::SquareRoot => 1,
        InstructionView::CheckDivisor => 1,
        InstructionView::Add => 2,
        InstructionView::Subtract => 2,
        InstructionView::Multiply => 2,
        InstructionView::Divide => 2,
        InstructionView::Modulo => 2,
        InstructionView::Power => 2,
    }
}

/// Whether a program runs from stack depth `d` to its end without ever
/// popping an empty stack.
pub open spec fn runs_from(p: Seq<InstructionView>, d: int) -> bool
    decreases p.len(),
{
    p.len() == 0 || (instruction_pops(p[0]) <= d && runs_from(
        p.skip(1),
        d - instruction_pops(p[0]) + 1,
    ))
}

/// The stack depth a program leaves behind when started at depth `d`.
pub open spec fn depth_after(p: Seq<InstructionView>, d: int) -> int
    decreases p.len(),
{
    if p.len() == 0 {
        d
    } else {
        depth_after(p.skip(1), d - instruction_pops(p[0]) + 1)
    }
}

proof fn lemma_run_concat(a: Seq<InstructionView>, b: Seq<InstructionView>, d: int)
    ensures
        runs_from(a + b, d) == (runs_from(a, d) && runs_from(b, depth_after(a, d))),
        depth_after(a + b, d) == depth_after(b, depth_after(a, d)),
    decreases a.len(),
{
    if a.len() == 0 {
        assert(a + b =~= b);
    } else {
        assert((a + b).skip(1) =~= a.skip(1) + b);
        lemma_run_concat(a.skip(1), b, d - instruction_pops(a[0]) + 1);
    }
}

/// The program of a well-formed tree never pops an empty stack and
/// leaves exactly one more value than it found: the driver's evaluation
/// loop cannot underflow, and ends with the one result on the stack.
pub proof fn lemma_compile_stack_safe(n: NodeView, d: int)
    requires
        wf_node(n),
        0 <= d,
    ensures
        runs_from(spec_compile(n), d),
        depth_after(spec_compile(n), d) == d + 1,
    decreases n,
{
    reveal_with_fuel(runs_from, 3);
    reveal_with_fuel(depth_after, 3);
    match n {
        NodeView::Number(t) => {
            assert(spec_compile(n).skip(1) =~= Seq::<InstructionView>::empty());
        },
        NodeView::Unary { op, node } => {
            lemma_compile_stack_safe(*node, d);
            let sub = spec_compile(*node);
            let tail = seq![unary_instruction(op)];
            lemma_run_concat(sub, tail, d);
            assert(tail.skip(1) =~= Seq::<InstructionView>::empty());
            assert(spec_compile(n) == sub + tail);
        },
        NodeView::Binary { op, left, right } => {
            let lp = spec_compile(*left);
            let rp = spec_compile(*right);
            let tail = seq![binary_instruction(op)];
            assert(tail.skip(1) =~= Seq::<InstructionView>::empty());
            if op == Operator::Divide || op == Operator::Modulo {
                let check = seq![InstructionView::CheckDivisor];
                assert(check.skip(1) =~= Seq::<InstructionView>::empty());
                lemma_compile_stack_safe(*right, d);
                lemma_run_concat(rp, check, d);
                lemma_compile_stack_safe(*left, d + 1);
                lemma_run_concat(rp + check, lp, d);
                lemma_run_concat(rp + check + lp, tail, d);
                assert(spec_compile(n) == rp + check + lp + tail);
            } else {
                lemma_compile_stack_safe(*left, d);
                lemma_compile_stack_safe(*right, d + 1);
                lemma_run_concat(lp, rp, d);
                lemma_run_concat(lp + rp, tail, d);
                assert(spec_compile(n) == lp + rp + tail);
            }
        },
    }
}

/// The program is a function of the tree alone: evaluating the same
/// tree twice yields the same program, there is no hidden state.
pub proof fn lemma_compile_deterministic(
    n: NodeView,
    p1: Seq<InstructionView>,
    p2: Seq<InstructionView>,
)
    requires
        p1 == spec_compile(n),
        p2 == spec_compile(n),
    ensures
        p1 == p2,
{
}

} // verus!
