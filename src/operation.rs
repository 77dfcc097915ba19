use vstd::arithmetic::power::pow;
use crate::expression::EvaluatedExpr;
use vstd::prelude::*;

verus! {

/// The five binary operators an expression node can carry.
#[derive(PartialEq, Eq, Structural, Debug, Clone, Copy, Hash)]
pub enum OperationKind {
    Add,
    Subtract,
    Multiply,
    Divide,
    Power,
}

/// An operator node: two evaluated operands and the operator joining them.
pub struct Operation {
    pub left: EvaluatedExpr,
    pub right: EvaluatedExpr,
    pub kind: OperationKind,
}

/// Whether `x` is representable as an `i32`.
pub open spec fn fits(x: int) -> bool {
    i32::MIN <= x <= i32::MAX
}

/// Whether applying `kind` to `a` and `b` has a meaning over the integers:
/// a nonzero divisor that divides exactly, a non-negative exponent.
pub open spec fn defined(kind: OperationKind, a: int, b: int) -> bool {
    match kind {
        OperationKind::Divide => b != 0 && a % b == 0,
        OperationKind::Power => b >= 0,
        _ => true,
    }
}

/// The integer result of applying `kind` to `a` and `b` (meaningful when `defined`).
pub open spec fn apply(kind: OperationKind, a: int, b: int) -> int {
    match kind {
        OperationKind::Add => a + b,
        OperationKind::Subtract => a - b,
        OperationKind::Multiply => a * b,
        OperationKind::Divide => a / b,
        OperationKind::Power => pow(a, b as nat),
    }
}

/// The combinations that the constructor turns away although they are defined,
/// because a simpler expression yields the same value: subtracting zero or a
/// larger number, dividing zero or dividing by one, raising to the first power.
pub open spec fn redundant(kind: OperationKind, a: int, b: int) -> bool {
    match kind {
        OperationKind::Divide => a == 0 || b == 1,
        OperationKind::Subtract => a < b || b == 0,
        OperationKind::Power => b == 1,
        _ => false,
    }
}

/// Binding strength: higher binds tighter.
pub open spec fn precedence(op: OperationKind) -> int {
    match op {
        OperationKind::Add | OperationKind::Subtract => 0,
        OperationKind::Multiply | OperationKind::Divide => 1,
        OperationKind::Power => 2,
    }
}

/// Whether `op1` binds more loosely than `op2` (it is "greater" in evaluation order).
pub open spec fn looser(op1: OperationKind, op2: OperationKind) -> bool {
    precedence(op1) < precedence(op2)
}

/// The operator that undoes `op`: subtraction for addition, division for
/// multiplication, and back. Power has none.
pub open spec fn reverse_of(op: OperationKind) -> OperationKind
    recommends
        op != OperationKind::Power,
{
    match op {
        OperationKind::Add => OperationKind::Subtract,
        OperationKind::Subtract => OperationKind::Add,
        OperationKind::Multiply => OperationKind::Divide,
        _ => OperationKind::Multiply,
    }
}

/// Whether `op1` and `op2` undo each other.
pub open spec fn reverse_pair(op1: OperationKind, op2: OperationKind) -> bool {
    op1 != OperationKind::Power && op2 != OperationKind::Power && reverse_of(op1) == op2
}

/// Whether the operator is commutative.
pub open spec fn commutative(op: OperationKind) -> bool {
    op == OperationKind::Add || op == OperationKind::Multiply
}

/// Whether `op1` binds more loosely than `op2`, so that a child carrying `op1`
/// under a parent carrying `op2` needs parentheses.
pub fn is_operator_greater_than(op1: OperationKind, op2: OperationKind) -> (r: bool)
    ensures
        r == looser(op1, op2),
{
    match op1 {
        OperationKind::Add | OperationKind::Subtract => match op2 {
            OperationKind::Power | OperationKind::Multiply | OperationKind::Divide => true,
            _ => false,
        },
        OperationKind::Multiply | OperationKind::Divide => match op2 {
            OperationKind::Power => true,
            _ => false,
        },
        OperationKind::Power => false,
    }
}

/// The operator that undoes `op`.
pub fn reverse_operation(op: OperationKind) -> (r: OperationKind)
    requires
        op != OperationKind::Power,
    ensures
        r == reverse_of(op),
        reverse_pair(op, r),
{
    match op {
        OperationKind::Add => OperationKind::Subtract,
        OperationKind::Subtract => OperationKind::Add,
        OperationKind::Multiply => OperationKind::Divide,
        _ => OperationKind::Multiply,
    }
}

/// Whether the two operators undo each other.
pub fn are_operations_reverse(op1: OperationKind, op2: OperationKind) -> (r: bool)
    ensures
        r == reverse_pair(op1, op2),
        r == reverse_pair(op2, op1),
{
    match (op1, op2) {
        (OperationKind::Add, OperationKind::Subtract) => true,
        (OperationKind::Subtract, OperationKind::Add) => true,
        (OperationKind::Multiply, OperationKind::Divide) => true,
        (OperationKind::Divide, OperationKind::Multiply) => true,
        _ => false,
    }
}

/// Relies on `i32::checked_pow`: the power when it fits in an `i32`, `None`
/// when it overflows.
#[verifier::external_body]
fn checked_power(base: i32, exp: u32) -> (r: Option<i32>)
    ensures
        r == (if fits(pow(base as int, exp as nat)) {
            Some(pow(base as int, exp as nat) as i32)
        } else {
            None
        }),
{
    base.checked_pow(exp)
}

/// Applies `kind` to `a` and `b`, or gives `None` where the result is not
/// defined or does not fit in an `i32`.
pub fn checked_apply(kind: OperationKind, a: i32, b: i32) -> (r: Option<i32>)
    ensures
        r == (if defined(kind, a as int, b as int) && fits(apply(kind, a as int, b as int)) {
            Some(apply(kind, a as int, b as int) as i32)
        } else {
            None
        }),
{
    match kind {
        OperationKind::Add => a.checked_add(b),
        OperationKind::Subtract => a.checked_sub(b),
        OperationKind::Multiply => a.checked_mul(b),
        OperationKind::Divide => {
            if b == 0 {
                return None;
            }
            match a.checked_rem_euclid(b) {
                Some(m) => {
                    if m != 0 {
                        return None;
                    }
                },
                None => {
                    // Only i32::MIN / -1 lands here, and its quotient overflows.
                    return None;
                },
            }
            a.checked_div_euclid(b)
        },
        OperationKind::Power => {
            if b < 0 {
                return None;
            }
            checked_power(a, b as u32)
        },
    }
}

} // verus!
