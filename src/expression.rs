use crate::operation::{apply, checked_apply, defined, fits, redundant, Operation, OperationKind};
use core::cmp::Ordering;
use vstd::prelude::*;

verus! {

/// An expression tree: a number, or an operator node that owns its operands.
pub enum Expression {
    Op(Box<Operation>),
    Num(i32),
}

/// An expression together with the value it evaluates to.
///
/// `well_formed` states the invariant that the library keeps: every cached
/// value is the value of its subtree, and every node is defined.
pub struct EvaluatedExpr {
    pub value: i32,
    pub expression: Expression,
}

/// The value of an expression, computed from its structure alone.
pub open spec fn value_of(x: Expression) -> int
    decreases x,
{
    match x {
        Expression::Num(n) => n as int,
        Expression::Op(op) => apply(
            op.kind,
            value_of(op.left.expression),
            value_of(op.right.expression),
        ),
    }
}

/// The value of an expression's top node, computed from its operands' caches.
pub open spec fn local_value(x: Expression) -> int {
    match x {
        Expression::Num(n) => n as int,
        Expression::Op(op) => apply(op.kind, op.left.value as int, op.right.value as int),
    }
}

/// Whether the top node of `x` is defined on its operands' cached values and
/// its result fits in an `i32`.
pub open spec fn evaluable(x: Expression) -> bool {
    match x {
        Expression::Num(_) => true,
        Expression::Op(op) => defined(op.kind, op.left.value as int, op.right.value as int)
            && fits(local_value(x)),
    }
}

/// Every cache holds the value of its subtree, and every node is defined.
pub open spec fn well_formed(e: EvaluatedExpr) -> bool
    decreases e,
{
    &&& evaluable(e.expression)
    &&& e.value == local_value(e.expression)
    &&& match e.expression {
        Expression::Num(_) => true,
        Expression::Op(op) => well_formed(op.left) && well_formed(op.right),
    }
}

/// A leaf holding `n`.
pub open spec fn leaf(n: i32) -> EvaluatedExpr {
    EvaluatedExpr { value: n, expression: Expression::Num(n) }
}

/// The node joining `left` and `right` with `kind`, its cache computed from theirs.
pub open spec fn node(left: EvaluatedExpr, right: EvaluatedExpr, kind: OperationKind) -> EvaluatedExpr {
    EvaluatedExpr {
        value: apply(kind, left.value as int, right.value as int) as i32,
        expression: Expression::Op(Box::new(Operation { left, right, kind })),
    }
}

/// Whether joining `left` and `right` with `kind` is defined and fits in an `i32`.
pub open spec fn joinable(left: EvaluatedExpr, right: EvaluatedExpr, kind: OperationKind) -> bool {
    defined(kind, left.value as int, right.value as int) && fits(
        apply(kind, left.value as int, right.value as int),
    )
}

/// What the validating constructor gives: the node when it is joinable and
/// not redundant, else nothing.
pub open spec fn construct(left: EvaluatedExpr, right: EvaluatedExpr, kind: OperationKind) -> Option<
    EvaluatedExpr,
> {
    if joinable(left, right, kind) && !redundant(kind, left.value as int, right.value as int) {
        Some(node(left, right, kind))
    } else {
        None
    }
}

/// The number of levels of an expression; a leaf has one.
pub open spec fn depth(x: Expression) -> nat
    decreases x,
{
    match x {
        Expression::Num(_) => 1,
        Expression::Op(op) => {
            let l = depth(op.left.expression);
            let r = depth(op.right.expression);
            1 + if l > r {
                l
            } else {
                r
            }
        },
    }
}

/// `depth` as a `usize` holds it: capped at `usize::MAX`, which no tree in
/// memory reaches.
pub open spec fn depth_key(x: Expression) -> nat {
    if depth(x) < usize::MAX {
        depth(x)
    } else {
        usize::MAX as nat
    }
}

/// The three-way comparison of two integers.
pub open spec fn compare_ints(a: int, b: int) -> Ordering {
    if a < b {
        Ordering::Less
    } else if a == b {
        Ordering::Equal
    } else {
        Ordering::Greater
    }
}

/// The order in which the canonicalizer arranges operands: leaves by value,
/// below every operator node; operator nodes by depth, then by value.
pub open spec fn shuffle_order(a: Expression, b: Expression) -> Ordering {
    match (a, b) {
        (Expression::Num(x), Expression::Num(y)) => compare_ints(x as int, y as int),
        (Expression::Num(_), Expression::Op(_)) => Ordering::Less,
        (Expression::Op(_), Expression::Num(_)) => Ordering::Greater,
        (Expression::Op(_), Expression::Op(_)) => if depth_key(a) != depth_key(b) {
            compare_ints(depth_key(a) as int, depth_key(b) as int)
        } else {
            compare_ints(local_value(a), local_value(b))
        },
    }
}

/// Whether `a` comes before `b` in the canonical order.
pub open spec fn ranks_below(a: Expression, b: Expression) -> bool {
    shuffle_order(a, b) == Ordering::Less
}

/// Every node of the structure is defined on its operands' values, and every
/// value fits in an `i32`, whatever the caches hold.
pub open spec fn structurally_sound(x: Expression) -> bool
    decreases x,
{
    &&& fits(value_of(x))
    &&& match x {
        Expression::Num(_) => true,
        Expression::Op(op) => structurally_sound(op.left.expression) && structurally_sound(
            op.right.expression,
        ) && defined(op.kind, value_of(op.left.expression), value_of(op.right.expression)),
    }
}

/// The same tree with every cache set to the value of its subtree.
pub open spec fn refreshed(e: EvaluatedExpr) -> EvaluatedExpr
    decreases e,
{
    EvaluatedExpr {
        value: value_of(e.expression) as i32,
        expression: match e.expression {
            Expression::Num(n) => Expression::Num(n),
            Expression::Op(op) => Expression::Op(
                Box::new(
                    Operation {
                        left: refreshed(op.left),
                        right: refreshed(op.right),
                        kind: op.kind,
                    },
                ),
            ),
        },
    }
}

/// Refreshing a sound tree makes it well formed, without changing its structure's value.
pub proof fn lemma_refreshed_well_formed(e: EvaluatedExpr)
    requires
        structurally_sound(e.expression),
    ensures
        well_formed(refreshed(e)),
        value_of(refreshed(e).expression) == value_of(e.expression),
    decreases e,
{
    if let Expression::Op(op) = e.expression {
        lemma_refreshed_well_formed(op.left);
        lemma_refreshed_well_formed(op.right);
    }
}

/// A well-formed tree caches the value of its structure.
pub proof fn lemma_cache_is_value(e: EvaluatedExpr)
    requires
        well_formed(e),
    ensures
        e.value == value_of(e.expression),
    decreases e,
{
    match e.expression {
        Expression::Num(_) => {},
        Expression::Op(op) => {
            lemma_cache_is_value(op.left);
            lemma_cache_is_value(op.right);
        },
    }
}

impl Expression {
    /// Lifts a number into a leaf.
    pub fn new_num(num: i32) -> (r: EvaluatedExpr)
        ensures
            r == leaf(num),
            well_formed(r),
    {
        EvaluatedExpr::new(Expression::Num(num))
    }

    /// Joins two evaluated expressions with an operator, or gives `None` where
    /// the node would be undefined, overflow, or be redundant.
    pub fn new_op(left: EvaluatedExpr, right: EvaluatedExpr, kind: OperationKind) -> (r: Option<
        EvaluatedExpr,
    >)
        ensures
            r == construct(left, right, kind),
            well_formed(left) && well_formed(right) && r is Some ==> well_formed(r->0),
    {
        let left_val = left.value;
        let right_val = right.value;
        match kind {
            OperationKind::Divide => {
                // Only leave multiply by zero, and multiply by one, instead
                if left_val == 0 || right_val == 1 {
                    return None;
                }
            },
            OperationKind::Subtract => {
                // Only leave add zero instead
                if left_val < right_val || right_val == 0 {
                    return None;
                }
            },
            OperationKind::Power => {
                // Only leave multiply by one instead
                if right_val == 1 {
                    return None;
                }
            },
            _ => {},
        }
        match checked_apply(kind, left_val, right_val) {
            Some(value) => Some(EvaluatedExpr::join(left, right, kind, value)),
            None => None,
        }
    }

    /// The number of levels of the expression (capped at `usize::MAX`).
    pub fn depth(&self) -> (r: usize)
        ensures
            r == depth_key(*self),
        decreases self,
    {
        match self {
            Expression::Num(_) => 1,
            Expression::Op(op) => {
                let d = op.depth();
                if d < usize::MAX {
                    d + 1
                } else {
                    d
                }
            },
        }
    }

    /// Compares two expressions in the order that the canonicalizer arranges
    /// operands by.
    pub fn compare_shuffle_precidence(&self, other: &Self) -> (r: Ordering)
        requires
            evaluable(*self),
            evaluable(*other),
        ensures
            r == shuffle_order(*self, *other),
    {
        match self {
            Expression::Num(n1) => match other {
                Expression::Num(n2) => compare_i32(*n1, *n2),
                _ => Ordering::Less,
            },
            Expression::Op(_) => match other {
                Expression::Num(_) => Ordering::Greater,
                Expression::Op(_) => {
                    let d1 = self.depth();
                    let d2 = other.depth();
                    if d1 != d2 {
                        if d1 < d2 {
                            Ordering::Less
                        } else {
                            Ordering::Greater
                        }
                    } else {
                        compare_i32(self.evaluate(), other.evaluate())
                    }
                },
            },
        }
    }

    /// Compares two expressions by their position in the canonical order:
    /// the same order as `compare_shuffle_precidence`.
    pub fn compare_position(&self, other: &Self) -> (r: Ordering)
        requires
            evaluable(*self),
            evaluable(*other),
        ensures
            r == shuffle_order(*self, *other),
    {
        self.compare_shuffle_precidence(other)
    }

    /// The value of the top node, from its operands' caches.
    pub fn evaluate(&self) -> (r: i32)
        requires
            evaluable(*self),
        ensures
            r == local_value(*self),
    {
        match self {
            Expression::Num(n) => *n,
            Expression::Op(op) => op.evaluate(),
        }
    }
}

/// The three-way comparison of two `i32`s.
fn compare_i32(a: i32, b: i32) -> (r: Ordering)
    ensures
        r == compare_ints(a as int, b as int),
{
    if a < b {
        Ordering::Less
    } else if a == b {
        Ordering::Equal
    } else {
        Ordering::Greater
    }
}

impl Operation {
    /// Sets every cache in both operands to the value of its subtree.
    pub fn re_evaluate(&mut self)
        requires
            structurally_sound(old(self).left.expression),
            structurally_sound(old(self).right.expression),
        ensures
            final(self).left == refreshed(old(self).left),
            final(self).right == refreshed(old(self).right),
            final(self).kind == old(self).kind,
        decreases *old(self),
    {
        self.left.re_evaluate();
        self.right.re_evaluate();
    }

    /// The depth of the deeper operand (capped at `usize::MAX`).
    pub fn depth(&self) -> (r: usize)
        ensures
            r == (if depth_key(self.left.expression) > depth_key(self.right.expression) {
                depth_key(self.left.expression)
            } else {
                depth_key(self.right.expression)
            }),
        decreases self,
    {
        let left_depth = self.left.expression.depth();
        let right_depth = self.right.expression.depth();
        if left_depth > right_depth {
            left_depth
        } else {
            right_depth
        }
    }

    /// The value of this node, from its operands' caches.
    pub fn evaluate(&self) -> (r: i32)
        requires
            defined(self.kind, self.left.value as int, self.right.value as int),
            fits(apply(self.kind, self.left.value as int, self.right.value as int)),
        ensures
            r == apply(self.kind, self.left.value as int, self.right.value as int),
    {
        checked_apply(self.kind, self.left.value, self.right.value).unwrap()
    }
}

impl EvaluatedExpr {
    /// Pairs an expression with the value of its top node.
    fn new(expression: Expression) -> (r: EvaluatedExpr)
        requires
            evaluable(expression),
        ensures
            r.value == local_value(expression),
            r.expression == expression,
    {
        EvaluatedExpr { value: expression.evaluate(), expression }
    }

    /// Builds the node joining `left` and `right`, given its value.
    pub fn join(left: EvaluatedExpr, right: EvaluatedExpr, kind: OperationKind, value: i32) -> (r:
        EvaluatedExpr)
        requires
            joinable(left, right, kind),
            value == apply(kind, left.value as int, right.value as int),
        ensures
            r == node(left, right, kind),
            well_formed(left) && well_formed(right) ==> well_formed(r),
    {
        EvaluatedExpr {
            value,
            expression: Expression::Op(Box::new(Operation { left, right, kind })),
        }
    }

    /// Sets every cache in the tree to the value of its subtree, after the
    /// structure has been changed by hand.
    pub fn re_evaluate(&mut self)
        requires
            structurally_sound(old(self).expression),
        ensures
            *final(self) == refreshed(*old(self)),
            well_formed(*final(self)),
        decreases *old(self),
    {
        proof {
            lemma_refreshed_well_formed(*self);
        }
        if let Expression::Op(op) = &mut self.expression {
            op.re_evaluate();
        }
        proof {
            if let Expression::Op(op) = old(self).expression {
                lemma_refreshed_well_formed(op.left);
                lemma_refreshed_well_formed(op.right);
            }
        }
        self.value = self.expression.evaluate();
    }

    /// A deep copy of the tree.
    pub fn duplicate(&self) -> (r: EvaluatedExpr)
        ensures
            r == *self,
        decreases self,
    {
        let expression = match &self.expression {
            Expression::Num(n) => Expression::Num(*n),
            Expression::Op(op) => Expression::Op(
                Box::new(
                    Operation {
                        left: op.left.duplicate(),
                        right: op.right.duplicate(),
                        kind: op.kind,
                    },
                ),
            ),
        };
        EvaluatedExpr { value: self.value, expression }
    }

    /// The cached value.
    pub fn evaluate(&self) -> (r: i32)
        ensures
            r == self.value,
    {
        self.value
    }
}

} // verus!
