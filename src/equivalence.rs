use crate::expression::{EvaluatedExpr, Expression};
use crate::operation::{commutative, Operation, OperationKind};
use vstd::prelude::*;

verus! {

/// Whether two nodes of operator `kind` both apply it to an identity or
/// absorbing operand, whatever the other operand: `1 ^ x` and `1 ^ y`,
/// `x ^ 0` and `y ^ 0`, `x / 1` and `y / 1`, `0 / x` and `0 / y`, and a zero
/// factor on the same side of two products.
pub open spec fn degenerate_alike(
    kind: OperationKind,
    left_a: int,
    right_a: int,
    left_b: int,
    right_b: int,
) -> bool {
    match kind {
        OperationKind::Power => (left_a == 1 && left_b == 1) || (right_a == 0 && right_b == 0),
        OperationKind::Divide => (right_a == 1 && right_b == 1) || (left_a == 0 && left_b == 0),
        OperationKind::Multiply => (left_a == 0 && left_b == 0) || (right_a == 0 && right_b == 0),
        _ => false,
    }
}

/// Whether two expressions count as the same solution: equal leaves; or nodes
/// of the same operator whose operands are equivalent pairwise, or crosswise
/// for a commutative operator, or that are `degenerate_alike`.
pub open spec fn equivalent(a: Expression, b: Expression) -> bool
    decreases a,
{
    match (a, b) {
        (Expression::Num(n), Expression::Num(m)) => n == m,
        (Expression::Op(x), Expression::Op(y)) => operations_equivalent(*x, *y),
        _ => false,
    }
}

/// `equivalent` for two operator nodes.
pub open spec fn operations_equivalent(x: Operation, y: Operation) -> bool
    decreases x,
{
    &&& x.kind == y.kind
    &&& {
        ||| (equivalent(x.left.expression, y.left.expression) && equivalent(
            x.right.expression,
            y.right.expression,
        ))
        ||| (commutative(x.kind) && equivalent(x.left.expression, y.right.expression)
            && equivalent(x.right.expression, y.left.expression))
        ||| degenerate_alike(
            x.kind,
            x.left.value as int,
            x.right.value as int,
            y.left.value as int,
            y.right.value as int,
        )
    }
}

/// Equivalence does not depend on the order of its arguments.
pub proof fn lemma_equivalent_symmetric(a: Expression, b: Expression)
    requires
        equivalent(a, b),
    ensures
        equivalent(b, a),
    decreases a,
{
    if let (Expression::Op(x), Expression::Op(y)) = (a, b) {
        if equivalent(x.left.expression, y.left.expression) && equivalent(
            x.right.expression,
            y.right.expression,
        ) {
            lemma_equivalent_symmetric(x.left.expression, y.left.expression);
            lemma_equivalent_symmetric(x.right.expression, y.right.expression);
        } else if commutative(x.kind) && equivalent(x.left.expression, y.right.expression)
            && equivalent(x.right.expression, y.left.expression) {
            lemma_equivalent_symmetric(x.left.expression, y.right.expression);
            lemma_equivalent_symmetric(x.right.expression, y.left.expression);
        }
    }
}

impl Expression {
    /// Whether the two expressions count as the same solution.
    pub fn equals(&self, other: &Expression) -> (r: bool)
        ensures
            r == equivalent(*self, *other),
        decreases self,
    {
        match self {
            Expression::Num(n) => match other {
                Expression::Num(m) => *n == *m,
                _ => false,
            },
            Expression::Op(op) => match other {
                Expression::Op(op2) => op.equals(op2),
                _ => false,
            },
        }
    }
}

impl Operation {
    /// Whether the two operator nodes count as the same solution.
    pub fn equals(&self, other: &Operation) -> (r: bool)
        ensures
            r == operations_equivalent(*self, *other),
        decreases self,
    {
        if self.kind != other.kind {
            return false;
        }
        let mut same = self.left.expression.equals(&other.left.expression)
            && self.right.expression.equals(&other.right.expression);

        // Reverse addition/multiplication are equal
        if let OperationKind::Add | OperationKind::Multiply = self.kind {
            same = same || (self.left.expression.equals(&other.right.expression)
                && self.right.expression.equals(&other.left.expression));
        }

        // Ignore redundant operations
        let (la, ra) = (self.left.value, self.right.value);
        let (lb, rb) = (other.left.value, other.right.value);
        match self.kind {
            OperationKind::Power => {
                if (la == 1 && lb == 1) || (ra == 0 && rb == 0) {
                    same = true;
                }
            },
            OperationKind::Divide => {
                if (ra == 1 && rb == 1) || (la == 0 && lb == 0) {
                    same = true;
                }
            },
            OperationKind::Multiply => {
                if (la == 0 && lb == 0) || (ra == 0 && rb == 0) {
                    same = true;
                }
            },
            _ => {},
        }
        same
    }
}

impl EvaluatedExpr {
    /// Whether the two expressions count as the same solution.
    pub fn equals(&self, other: &EvaluatedExpr) -> (r: bool)
        ensures
            r == equivalent(self.expression, other.expression),
    {
        self.expression.equals(&other.expression)
    }
}

} // verus!
