use crate::expression::{EvaluatedExpr, Expression};
use crate::operation::{commutative, is_operator_greater_than, looser, Operation, OperationKind};
use vstd::prelude::*;

verus! {

/// What a leaf costs.
pub const LEAF_COST: u32 = 10;

/// What a pair of parentheses adds.
pub const PARENTHESES_COST: u32 = 10;

/// The factor an operator scales its operands' cost by.
pub open spec fn weight(kind: OperationKind) -> nat {
    match kind {
        OperationKind::Add | OperationKind::Subtract => 1,
        OperationKind::Multiply | OperationKind::Divide => 2,
        OperationKind::Power => 5,
    }
}

/// Whether an operator node carrying `kind` needs parentheses as the left
/// (`is_left`) or right operand of a node carrying `parent`: when it binds
/// more loosely, or always as the right operand of a subtraction, division
/// or power.
pub open spec fn parenthesized(kind: OperationKind, parent: OperationKind, is_left: bool) -> bool {
    looser(kind, parent) || (!is_left && !commutative(parent))
}

/// The cost of a child under `parent`: its own, plus the parentheses it needs.
pub open spec fn cost_in_context(x: Expression, parent: OperationKind, is_left: bool) -> nat
    decreases x, 1nat,
{
    match x {
        Expression::Num(_) => LEAF_COST as nat,
        Expression::Op(op) => cost(x) + if parenthesized(op.kind, parent, is_left) {
            PARENTHESES_COST as nat
        } else {
            0
        },
    }
}

/// The complexity score: a leaf costs `LEAF_COST`; a node costs its operands'
/// costs in context, times its operator's weight.
pub open spec fn cost(x: Expression) -> nat
    decreases x, 0nat,
{
    match x {
        Expression::Num(_) => LEAF_COST as nat,
        Expression::Op(op) => weight(op.kind) * (cost_in_context(op.left.expression, op.kind, true)
            + cost_in_context(op.right.expression, op.kind, false)),
    }
}

/// `n` capped at `u32::MAX`.
pub open spec fn capped(n: nat) -> nat {
    if n < u32::MAX {
        n
    } else {
        u32::MAX as nat
    }
}

/// The score as a `u32` holds it: capped at `u32::MAX`.
pub open spec fn score(x: Expression) -> nat {
    capped(cost(x))
}

fn add_capped(a: u32, b: u32) -> (r: u32)
    ensures
        r == capped((a + b) as nat),
{
    if a <= u32::MAX - b {
        a + b
    } else {
        u32::MAX
    }
}

proof fn lemma_capped_sum(a: nat, b: nat)
    ensures
        capped(capped(a) + capped(b)) == capped(a + b),
{
}

proof fn lemma_capped_product(w: nat, s: nat)
    requires
        1 <= w <= 5,
    ensures
        capped(w * capped(s)) == capped(w * s),
{
    if s >= u32::MAX {
        assert(w * s >= s) by (nonlinear_arith)
            requires
                w >= 1,
        ;
        assert(w * (u32::MAX as nat) >= u32::MAX) by (nonlinear_arith)
            requires
                w >= 1,
        ;
    }
}

impl Expression {
    /// The complexity score, capped at `u32::MAX`. Lower ranks first.
    pub fn get_complexity(&self) -> (r: u32)
        ensures
            r == score(*self),
        decreases self, 0nat,
    {
        match self {
            Expression::Num(_) => LEAF_COST,
            Expression::Op(op) => op.get_complexity(),
        }
    }

    /// The score as a child under `parent_op`, with its parentheses.
    pub fn get_complexity_internal(&self, parent_op: OperationKind, is_left: bool) -> (r: u32)
        ensures
            r == capped(cost_in_context(*self, parent_op, is_left)),
        decreases self, 1nat,
    {
        match self {
            Expression::Num(_) => LEAF_COST,
            Expression::Op(op) => op.get_complexity_internal(parent_op, is_left),
        }
    }
}

impl Operation {
    /// The complexity score of this node, capped at `u32::MAX`.
    pub fn get_complexity(&self) -> (r: u32)
        ensures
            r == capped(
                weight(self.kind) * (cost_in_context(self.left.expression, self.kind, true)
                    + cost_in_context(self.right.expression, self.kind, false)),
            ),
        decreases self, 0nat,
    {
        let left = self.left.expression.get_complexity_internal(self.kind, true);
        let right = self.right.expression.get_complexity_internal(self.kind, false);
        let complexity = add_capped(left, right);
        let (factor, w): (u32, Ghost<nat>) = match self.kind {
            OperationKind::Add | OperationKind::Subtract => (1, Ghost(1nat)),
            OperationKind::Multiply | OperationKind::Divide => (2, Ghost(2nat)),
            OperationKind::Power => (5, Ghost(5nat)),
        };
        let ghost exact = cost_in_context(self.left.expression, self.kind, true) + cost_in_context(
            self.right.expression,
            self.kind,
            false,
        );
        proof {
            lemma_capped_sum(
                cost_in_context(self.left.expression, self.kind, true),
                cost_in_context(self.right.expression, self.kind, false),
            );
            lemma_capped_product(w@, exact);
            assert(complexity == capped(exact));
        }
        if complexity <= u32::MAX / factor {
            proof {
                assert(factor * complexity <= u32::MAX) by (nonlinear_arith)
                    requires
                        complexity <= u32::MAX / factor,
                        factor >= 1,
                ;
            }
            factor * complexity
        } else {
            proof {
                assert(factor * complexity >= u32::MAX) by (nonlinear_arith)
                    requires
                        complexity > u32::MAX / factor,
                        factor >= 1,
                        factor <= 5,
                ;
            }
            u32::MAX
        }
    }

    /// The score of this node as a child under `parent_op`, with its parentheses.
    pub fn get_complexity_internal(&self, parent_op: OperationKind, is_left: bool) -> (r: u32)
        ensures
            r == capped(
                weight(self.kind) * (cost_in_context(self.left.expression, self.kind, true)
                    + cost_in_context(self.right.expression, self.kind, false)) + if parenthesized(
                    self.kind,
                    parent_op,
                    is_left,
                ) {
                    PARENTHESES_COST as nat
                } else {
                    0
                },
            ),
        decreases self, 1nat,
    {
        let internal_complexity = self.get_complexity();
        let use_parentheses = is_operator_greater_than(self.kind, parent_op) || (!is_left
            && !matches!(parent_op, OperationKind::Add | OperationKind::Multiply));
        if use_parentheses {
            add_capped(internal_complexity, PARENTHESES_COST)
        } else {
            internal_complexity
        }
    }
}

impl EvaluatedExpr {
    /// The complexity score of the expression, capped at `u32::MAX`.
    pub fn get_complexity(&self) -> (r: u32)
        ensures
            r == score(self.expression),
    {
        self.expression.get_complexity()
    }
}

} // verus!
