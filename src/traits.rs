use crate::complexity::{capped, cost, cost_in_context};
use crate::equivalence::{equivalent, operations_equivalent};
use crate::expression::{depth_key, evaluable, local_value, EvaluatedExpr, Expression};
use crate::operation::{apply, defined, fits, Operation, OperationKind};
use vstd::prelude::*;

verus! {

/// The complexity score, shared by expressions and operator nodes.
pub trait Complexity {
    /// The exact score.
    spec fn cost_of(&self) -> nat;

    /// The exact score as a child under `parent`, with its parentheses.
    spec fn cost_under(&self, parent: OperationKind, is_left: bool) -> nat;

    /// The score, capped at `u32::MAX`. Lower ranks first.
    fn get_complexity(&self) -> (r: u32)
        ensures
            r == capped(self.cost_of()),
    ;

    /// The score as a child under `parent_op`, capped at `u32::MAX`.
    fn get_complexity_internal(&self, parent_op: OperationKind, is_left: bool) -> (r: u32)
        ensures
            r == capped(self.cost_under(parent_op, is_left)),
    ;
}

/// The value of a node from its operands' caches.
pub trait Evaluate {
    /// Whether the value is defined and fits in an `i32`.
    spec fn can_evaluate(&self) -> bool;

    /// The value.
    spec fn evaluated(&self) -> int;

    fn evaluate(&self) -> (r: i32)
        requires
            self.can_evaluate(),
        ensures
            r == self.evaluated(),
    ;
}

/// Whether two trees count as the same solution.
pub trait ExpressionEquals {
    /// The equivalence relation.
    spec fn same_solution(&self, other: &Self) -> bool;

    fn expr_equals(&self, other: &Self) -> (r: bool)
        ensures
            r == self.same_solution(other),
    ;
}

/// The number of levels of a tree, capped at `usize::MAX`.
pub trait Depth {
    /// The capped number of levels.
    spec fn levels(&self) -> nat;

    fn depth(&self) -> (r: usize)
        ensures
            r == self.levels(),
    ;
}

impl Complexity for Expression {
    open spec fn cost_of(&self) -> nat {
        cost(*self)
    }

    open spec fn cost_under(&self, parent: OperationKind, is_left: bool) -> nat {
        cost_in_context(*self, parent, is_left)
    }

    fn get_complexity(&self) -> (r: u32) {
        Expression::get_complexity(self)
    }

    fn get_complexity_internal(&self, parent_op: OperationKind, is_left: bool) -> (r: u32) {
        Expression::get_complexity_internal(self, parent_op, is_left)
    }
}

impl Complexity for Operation {
    open spec fn cost_of(&self) -> nat {
        cost(Expression::Op(Box::new(*self)))
    }

    open spec fn cost_under(&self, parent: OperationKind, is_left: bool) -> nat {
        cost_in_context(Expression::Op(Box::new(*self)), parent, is_left)
    }

    fn get_complexity(&self) -> (r: u32) {
        Operation::get_complexity(self)
    }

    fn get_complexity_internal(&self, parent_op: OperationKind, is_left: bool) -> (r: u32) {
        Operation::get_complexity_internal(self, parent_op, is_left)
    }
}

impl Evaluate for Expression {
    open spec fn can_evaluate(&self) -> bool {
        evaluable(*self)
    }

    open spec fn evaluated(&self) -> int {
        local_value(*self)
    }

    fn evaluate(&self) -> (r: i32) {
        Expression::evaluate(self)
    }
}

impl Evaluate for Operation {
    open spec fn can_evaluate(&self) -> bool {
        defined(self.kind, self.left.value as int, self.right.value as int) && fits(
            apply(self.kind, self.left.value as int, self.right.value as int),
        )
    }

    open spec fn evaluated(&self) -> int {
        apply(self.kind, self.left.value as int, self.right.value as int)
    }

    fn evaluate(&self) -> (r: i32) {
        Operation::evaluate(self)
    }
}

impl Evaluate for EvaluatedExpr {
    open spec fn can_evaluate(&self) -> bool {
        true
    }

    open spec fn evaluated(&self) -> int {
        self.value as int
    }

    fn evaluate(&self) -> (r: i32) {
        EvaluatedExpr::evaluate(self)
    }
}

impl ExpressionEquals for Expression {
    open spec fn same_solution(&self, other: &Self) -> bool {
        equivalent(*self, *other)
    }

    fn expr_equals(&self, other: &Self) -> (r: bool) {
        self.equals(other)
    }
}

impl ExpressionEquals for Operation {
    open spec fn same_solution(&self, other: &Self) -> bool {
        operations_equivalent(*self, *other)
    }

    fn expr_equals(&self, other: &Self) -> (r: bool) {
        self.equals(other)
    }
}

impl Depth for Expression {
    open spec fn levels(&self) -> nat {
        depth_key(*self)
    }

    fn depth(&self) -> (r: usize) {
        Expression::depth(self)
    }
}

impl Depth for Operation {
    open spec fn levels(&self) -> nat {
        if depth_key(self.left.expression) > depth_key(self.right.expression) {
            depth_key(self.left.expression)
        } else {
            depth_key(self.right.expression)
        }
    }

    fn depth(&self) -> (r: usize) {
        Operation::depth(self)
    }
}

} // verus!
