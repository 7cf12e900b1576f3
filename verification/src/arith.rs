//! The rounded arithmetic that the solver is run under.

use vstd::prelude::*;

verus! {

/// The four operations of binary64 arithmetic whose result is rounded.
pub enum Op {
    Add,
    Sub,
    Mul,
    Div,
}

/// An arithmetic can stand under the solver if it accepts every pair of
/// operands and answers the same question the same way each time.
pub open spec fn lawful<F: Fn(Op, u64, u64) -> u64>(arith: &F) -> bool {
    &&& forall|op: Op, a: u64, b: u64| #[trigger] arith.requires((op, a, b))
    &&& forall|op: Op, a: u64, b: u64, r1: u64, r2: u64|
        arith.ensures((op, a, b), r1) && arith.ensures((op, a, b), r2) ==> r1 == r2
}

/// The bit pattern that `arith` gives for `a op b`.
pub open spec fn apply<F: Fn(Op, u64, u64) -> u64>(arith: &F, op: Op, a: u64, b: u64) -> u64 {
    choose|r: u64| arith.ensures((op, a, b), r)
}

/// `a + b` under `arith`.
pub open spec fn sum<F: Fn(Op, u64, u64) -> u64>(arith: &F, a: u64, b: u64) -> u64 {
    apply(arith, Op::Add, a, b)
}

/// `a - b` under `arith`.
pub open spec fn difference<F: Fn(Op, u64, u64) -> u64>(arith: &F, a: u64, b: u64) -> u64 {
    apply(arith, Op::Sub, a, b)
}

/// `a * b` under `arith`.
pub open spec fn product<F: Fn(Op, u64, u64) -> u64>(arith: &F, a: u64, b: u64) -> u64 {
    apply(arith, Op::Mul, a, b)
}

/// `a / b` under `arith`.
pub open spec fn quotient<F: Fn(Op, u64, u64) -> u64>(arith: &F, a: u64, b: u64) -> u64 {
    apply(arith, Op::Div, a, b)
}

/// Runs one operation.
pub fn eval<F: Fn(Op, u64, u64) -> u64>(arith: &F, op: Op, a: u64, b: u64) -> (r: u64)
    requires
        lawful(arith),
    ensures
        r == apply(arith, op, a, b),
{
    arith(op, a, b)
}

/// Adds.
pub fn plus<F: Fn(Op, u64, u64) -> u64>(arith: &F, a: u64, b: u64) -> (r: u64)
    requires
        lawful(arith),
    ensures
        r == sum(arith, a, b),
{
    eval(arith, Op::Add, a, b)
}

/// Subtracts.
pub fn minus<F: Fn(Op, u64, u64) -> u64>(arith: &F, a: u64, b: u64) -> (r: u64)
    requires
        lawful(arith),
    ensures
        r == difference(arith, a, b),
{
    eval(arith, Op::Sub, a, b)
}

/// Multiplies.
pub fn times<F: Fn(Op, u64, u64) -> u64>(arith: &F, a: u64, b: u64) -> (r: u64)
    requires
        lawful(arith),
    ensures
        r == product(arith, a, b),
{
    eval(arith, Op::Mul, a, b)
}

/// Divides.
pub fn over<F: Fn(Op, u64, u64) -> u64>(arith: &F, a: u64, b: u64) -> (r: u64)
    requires
        lawful(arith),
    ensures
        r == quotient(arith, a, b),
{
    eval(arith, Op::Div, a, b)
}

} // verus!
