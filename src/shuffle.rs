use crate::expression::{joinable, node, ranks_below, well_formed, EvaluatedExpr, Expression};
use crate::operation::{
    apply, are_operations_reverse, checked_apply, commutative, reverse_of, reverse_operation,
    reverse_pair, Operation, OperationKind,
};
use vstd::arithmetic::div_mod::lemma_fundamental_div_mod;
use vstd::arithmetic::power::lemma_pow_multiplies;
use vstd::prelude::*;

verus! {

/// The state of a node while the rules run over it: its left and right
/// operands, its operator, and whether a rule has fired.
pub type Rewrite = (EvaluatedExpr, EvaluatedExpr, OperationKind, bool);

/// The node state left as it is.
pub open spec fn unchanged(l: EvaluatedExpr, r: EvaluatedExpr, k: OperationKind) -> Rewrite {
    (l, r, k, false)
}

/// Sorts the operands of a commutative operator: `x + y` becomes `y + x` when
/// `x` ranks below `y`.
#[verifier::opaque]
pub open spec fn rule_sort(l: EvaluatedExpr, r: EvaluatedExpr, k: OperationKind) -> Rewrite {
    if commutative(k) && ranks_below(l.expression, r.expression) {
        (r, l, k, true)
    } else {
        unchanged(l, r, k)
    }
}

/// Lifts a reverse operator out of the left operand: `(a - x) + y` becomes
/// `(a + y) - x`, and `(a / x) * y` becomes `(a * y) / x`.
#[verifier::opaque]
pub open spec fn rule_lift_left(l: EvaluatedExpr, r: EvaluatedExpr, k: OperationKind) -> Rewrite {
    match l.expression {
        Expression::Op(lo) => if commutative(k) && reverse_pair(lo.kind, k) && joinable(
            lo.left,
            r,
            k,
        ) && joinable(node(lo.left, r, k), lo.right, lo.kind) {
            (node(lo.left, r, k), lo.right, lo.kind, true)
        } else {
            unchanged(l, r, k)
        },
        _ => unchanged(l, r, k),
    }
}

/// Lifts a reverse operator out of the right operand: `y + (a - x)` becomes
/// `(y + a) - x`.
#[verifier::opaque]
pub open spec fn rule_lift_right(l: EvaluatedExpr, r: EvaluatedExpr, k: OperationKind) -> Rewrite {
    match r.expression {
        Expression::Op(ro) => if commutative(k) && reverse_pair(ro.kind, k) && joinable(
            l,
            ro.left,
            k,
        ) && joinable(node(l, ro.left, k), ro.right, ro.kind) {
            (node(l, ro.left, k), ro.right, ro.kind, true)
        } else {
            unchanged(l, r, k)
        },
        _ => unchanged(l, r, k),
    }
}

/// Unfolds a reverse operator in the right operand of a subtraction or
/// division: `a - (b + c)` becomes `(a - c) - b`.
#[verifier::opaque]
pub open spec fn rule_fold_reverse(l: EvaluatedExpr, r: EvaluatedExpr, k: OperationKind) -> Rewrite {
    match r.expression {
        Expression::Op(ro) => if !commutative(k) && k != OperationKind::Power && reverse_pair(
            k,
            ro.kind,
        ) && joinable(l, ro.right, k) && joinable(node(l, ro.right, k), ro.left, k) {
            (node(l, ro.right, k), ro.left, k, true)
        } else {
            unchanged(l, r, k)
        },
        _ => unchanged(l, r, k),
    }
}

/// Unfolds the same operator in the right operand of a subtraction or
/// division: `a - (b - c)` becomes `(a + c) - b`.
#[verifier::opaque]
pub open spec fn rule_fold_same(l: EvaluatedExpr, r: EvaluatedExpr, k: OperationKind) -> Rewrite {
    match r.expression {
        Expression::Op(ro) => if !commutative(k) && k != OperationKind::Power && ro.kind == k
            && joinable(l, ro.right, reverse_of(k)) && joinable(
            node(l, ro.right, reverse_of(k)),
            ro.left,
            k,
        ) {
            (node(l, ro.right, reverse_of(k)), ro.left, k, true)
        } else {
            unchanged(l, r, k)
        },
        _ => unchanged(l, r, k),
    }
}

/// Orders a chain of one operator: `(a + x) + y` becomes `(a + y) + x` when
/// `x` ranks below `y`.
#[verifier::opaque]
pub open spec fn rule_order_chain(l: EvaluatedExpr, r: EvaluatedExpr, k: OperationKind) -> Rewrite {
    match l.expression {
        Expression::Op(lo) => if lo.kind == k && ranks_below(lo.right.expression, r.expression)
            && joinable(lo.left, r, k) && joinable(node(lo.left, r, k), lo.right, k) {
            (node(lo.left, r, k), lo.right, k, true)
        } else {
            unchanged(l, r, k)
        },
        _ => unchanged(l, r, k),
    }
}

/// Breaks ties in a chain of reverse operators: `(a - x) + y` becomes
/// `(a - y) + x` when `x` and `y` have the same value and `x` ranks below `y`.
#[verifier::opaque]
pub open spec fn rule_tie_break(l: EvaluatedExpr, r: EvaluatedExpr, k: OperationKind) -> Rewrite {
    match l.expression {
        Expression::Op(lo) => if reverse_pair(lo.kind, k) && lo.right.value == r.value
            && ranks_below(lo.right.expression, r.expression) && joinable(lo.left, r, lo.kind)
            && joinable(node(lo.left, r, lo.kind), lo.right, k) {
            (node(lo.left, r, lo.kind), lo.right, k, true)
        } else {
            unchanged(l, r, k)
        },
        _ => unchanged(l, r, k),
    }
}

/// The rules run in order over one node, each on what the one before left.
#[verifier::opaque]
pub open spec fn rewrite_node(l: EvaluatedExpr, r: EvaluatedExpr, k: OperationKind) -> Rewrite {
    let (l1, r1, k1, c1) = rule_sort(l, r, k);
    let (l2, r2, k2, c2) = rule_lift_left(l1, r1, k1);
    let (l3, r3, k3, c3) = rule_lift_right(l2, r2, k2);
    let (l4, r4, k4, c4) = rule_fold_reverse(l3, r3, k3);
    let (l5, r5, k5, c5) = rule_fold_same(l4, r4, k4);
    let (l6, r6, k6, c6) = rule_order_chain(l5, r5, k5);
    let (l7, r7, k7, c7) = rule_tie_break(l6, r6, k6);
    (l7, r7, k7, c1 || c2 || c3 || c4 || c5 || c6 || c7)
}

/// One pass over the tree: the operands first, then the rules at the node.
/// The node keeps its cached value. Also says whether anything changed.
pub open spec fn pass(e: EvaluatedExpr) -> (EvaluatedExpr, bool)
    decreases e,
{
    match e.expression {
        Expression::Num(_) => (e, false),
        Expression::Op(op) => {
            let (l, cl) = pass(op.left);
            let (r, cr) = pass(op.right);
            let (l2, r2, k2, c) = rewrite_node(l, r, op.kind);
            (
                EvaluatedExpr {
                    value: e.value,
                    expression: Expression::Op(Box::new(Operation { left: l2, right: r2, kind: k2 })),
                },
                cl || cr || c,
            )
        },
    }
}

/// The passes, at most `fuel` of them, until one changes nothing.
pub open spec fn shuffled(e: EvaluatedExpr, fuel: nat) -> EvaluatedExpr
    decreases fuel,
{
    if fuel == 0 {
        e
    } else {
        let (n, changed) = pass(e);
        if !changed {
            n
        } else {
            shuffled(n, (fuel - 1) as nat)
        }
    }
}

/// A tree that a pass leaves unchanged: a fixpoint of the rules.
pub open spec fn canonical(e: EvaluatedExpr) -> bool {
    !pass(e).1
}

/// A node state whose operands are well formed and joinable with its
/// operator, to the value `v`.
pub open spec fn sound_state(s: Rewrite, v: int) -> bool {
    &&& well_formed(s.0)
    &&& well_formed(s.1)
    &&& joinable(s.0, s.1, s.2)
    &&& apply(s.2, s.0.value as int, s.1.value as int) == v
}

proof fn lemma_node_well_formed(l: EvaluatedExpr, r: EvaluatedExpr, k: OperationKind)
    requires
        well_formed(l),
        well_formed(r),
        joinable(l, r, k),
    ensures
        well_formed(node(l, r, k)),
{
}

/// An exact quotient: `x * q` divided by `x` is `q`.
proof fn lemma_exact_quotient(a: int, x: int, q: int)
    requires
        x != 0,
        a == x * q,
    ensures
        a / x == q,
        a % x == 0,
{
    lemma_fundamental_div_mod(a, x);
    let d = q - a / x;
    assert(x * d == a % x) by (nonlinear_arith)
        requires
            a == x * q,
            a == x * (a / x) + a % x,
            d == q - a / x,
    ;
    assert(0 <= a % x);
    if x > 0 {
        assert(a % x < x);
        if d >= 1 {
            assert(x * d >= x) by (nonlinear_arith)
                requires
                    x > 0,
                    d >= 1,
            ;
        } else if d <= -1 {
            assert(x * d <= -x) by (nonlinear_arith)
                requires
                    x > 0,
                    d <= -1,
            ;
        }
    } else {
        assert(a % x < -x);
        if d >= 1 {
            assert(x * d <= x) by (nonlinear_arith)
                requires
                    x < 0,
                    d >= 1,
            ;
        } else if d <= -1 {
            assert(x * d >= -x) by (nonlinear_arith)
                requires
                    x < 0,
                    d <= -1,
            ;
        }
    }
}

/// A dividend that divides exactly is the divisor times the quotient.
proof fn lemma_exact_product(a: int, x: int)
    requires
        x != 0,
        a % x == 0,
    ensures
        a == x * (a / x),
{
    lemma_fundamental_div_mod(a, x);
}

proof fn lemma_sort_sound(l: EvaluatedExpr, r: EvaluatedExpr, k: OperationKind, v: int)
    requires
        sound_state(unchanged(l, r, k), v),
    ensures
        sound_state(rule_sort(l, r, k), v),
{
    reveal(rule_sort);
    let (a, b) = (l.value as int, r.value as int);
    assert(a * b == b * a) by (nonlinear_arith);
}

proof fn lemma_lift_left_sound(l: EvaluatedExpr, r: EvaluatedExpr, k: OperationKind, v: int)
    requires
        sound_state(unchanged(l, r, k), v),
    ensures
        sound_state(rule_lift_left(l, r, k), v),
{
    reveal(rule_lift_left);
    if let Expression::Op(lo) = l.expression {
        if rule_lift_left(l, r, k).3 {
            lemma_node_well_formed(lo.left, r, k);
            let (a, x, y) = (lo.left.value as int, lo.right.value as int, r.value as int);
            if k == OperationKind::Multiply {
                lemma_exact_product(a, x);
                let q = (a / x) * y;
                assert(a * y == x * q) by (nonlinear_arith)
                    requires
                        a == x * (a / x),
                        q == (a / x) * y,
                ;
                lemma_exact_quotient(a * y, x, q);
            }
        }
    }
}

proof fn lemma_lift_right_sound(l: EvaluatedExpr, r: EvaluatedExpr, k: OperationKind, v: int)
    requires
        sound_state(unchanged(l, r, k), v),
    ensures
        sound_state(rule_lift_right(l, r, k), v),
{
    reveal(rule_lift_right);
    if let Expression::Op(ro) = r.expression {
        if rule_lift_right(l, r, k).3 {
            lemma_node_well_formed(l, ro.left, k);
            let (y, a, x) = (l.value as int, ro.left.value as int, ro.right.value as int);
            if k == OperationKind::Multiply {
                lemma_exact_product(a, x);
                let q = y * (a / x);
                assert(y * a == x * q) by (nonlinear_arith)
                    requires
                        a == x * (a / x),
                        q == y * (a / x),
                ;
                lemma_exact_quotient(y * a, x, q);
            }
        }
    }
}

proof fn lemma_fold_reverse_sound(l: EvaluatedExpr, r: EvaluatedExpr, k: OperationKind, v: int)
    requires
        sound_state(unchanged(l, r, k), v),
    ensures
        sound_state(rule_fold_reverse(l, r, k), v),
{
    reveal(rule_fold_reverse);
    if let Expression::Op(ro) = r.expression {
        if rule_fold_reverse(l, r, k).3 {
            lemma_node_well_formed(l, ro.right, k);
            let (a, b, c) = (l.value as int, ro.left.value as int, ro.right.value as int);
            if k == OperationKind::Divide {
                let q = a / (b * c);
                lemma_exact_product(a, b * c);
                assert(a == c * (b * q)) by (nonlinear_arith)
                    requires
                        a == (b * c) * q,
                ;
                lemma_exact_quotient(a, c, b * q);
                lemma_exact_quotient(b * q, b, q);
            }
        }
    }
}

proof fn lemma_fold_same_sound(l: EvaluatedExpr, r: EvaluatedExpr, k: OperationKind, v: int)
    requires
        sound_state(unchanged(l, r, k), v),
    ensures
        sound_state(rule_fold_same(l, r, k), v),
{
    reveal(rule_fold_same);
    if let Expression::Op(ro) = r.expression {
        if rule_fold_same(l, r, k).3 {
            lemma_node_well_formed(l, ro.right, reverse_of(k));
            let (a, b, c) = (l.value as int, ro.left.value as int, ro.right.value as int);
            if k == OperationKind::Divide {
                let d = b / c;
                let q = a / d;
                lemma_exact_product(b, c);
                lemma_exact_product(a, d);
                assert(a * c == b * q) by (nonlinear_arith)
                    requires
                        b == c * d,
                        a == d * q,
                ;
                lemma_exact_quotient(a * c, b, q);
            }
        }
    }
}

proof fn lemma_order_chain_sound(l: EvaluatedExpr, r: EvaluatedExpr, k: OperationKind, v: int)
    requires
        sound_state(unchanged(l, r, k), v),
    ensures
        sound_state(rule_order_chain(l, r, k), v),
{
    reveal(rule_order_chain);
    if let Expression::Op(lo) = l.expression {
        if rule_order_chain(l, r, k).3 {
            lemma_node_well_formed(lo.left, r, k);
            let (a, x, y) = (lo.left.value as int, lo.right.value as int, r.value as int);
            if k == OperationKind::Multiply {
                assert((a * y) * x == (a * x) * y) by (nonlinear_arith);
            } else if k == OperationKind::Divide {
                let p = a / x;
                let q = p / y;
                lemma_exact_product(a, x);
                lemma_exact_product(p, y);
                assert(a == y * (x * q)) by (nonlinear_arith)
                    requires
                        a == x * p,
                        p == y * q,
                ;
                lemma_exact_quotient(a, y, x * q);
                lemma_exact_quotient(x * q, x, q);
            } else if k == OperationKind::Power {
                lemma_pow_multiplies(a, x as nat, y as nat);
                lemma_pow_multiplies(a, y as nat, x as nat);
                assert((x as nat) * (y as nat) == (y as nat) * (x as nat)) by (nonlinear_arith);
            }
        }
    }
}

proof fn lemma_tie_break_sound(l: EvaluatedExpr, r: EvaluatedExpr, k: OperationKind, v: int)
    requires
        sound_state(unchanged(l, r, k), v),
    ensures
        sound_state(rule_tie_break(l, r, k), v),
{
    reveal(rule_tie_break);
    if let Expression::Op(lo) = l.expression {
        if rule_tie_break(l, r, k).3 {
            lemma_node_well_formed(lo.left, r, lo.kind);
        }
    }
}

fn sort_operands(l: EvaluatedExpr, r: EvaluatedExpr, k: OperationKind) -> (res: Rewrite)
    requires
        crate::expression::evaluable(l.expression),
        crate::expression::evaluable(r.expression),
    ensures
        res == rule_sort(l, r, k),
{
    reveal(rule_sort);
    if let OperationKind::Add | OperationKind::Multiply = k {
        // E.g. swap x and y in (x + y)
        if let core::cmp::Ordering::Less = l.expression.compare_shuffle_precidence(&r.expression) {
            return (r, l, k, true);
        }
    }
    (l, r, k, false)
}

fn lift_left(l: EvaluatedExpr, r: EvaluatedExpr, k: OperationKind) -> (res: Rewrite)
    ensures
        res == rule_lift_left(l, r, k),
{
    reveal(rule_lift_left);
    let lv = l.value;
    match l.expression {
        Expression::Op(lo) => {
            if let OperationKind::Add | OperationKind::Multiply = k {
                // E.g. convert ((a - x) + y) into ((a + y) - x)
                if are_operations_reverse(lo.kind, k) {
                    if let Some(iv) = checked_apply(k, lo.left.value, r.value) {
                        if let Some(_) = checked_apply(lo.kind, iv, lo.right.value) {
                            let Operation { left: a, right: x, kind: q } = *lo;
                            return (EvaluatedExpr::join(a, r, k, iv), x, q, true);
                        }
                    }
                }
            }
            (EvaluatedExpr { value: lv, expression: Expression::Op(lo) }, r, k, false)
        },
        Expression::Num(n) => (EvaluatedExpr { value: lv, expression: Expression::Num(n) }, r, k, false),
    }
}

fn lift_right(l: EvaluatedExpr, r: EvaluatedExpr, k: OperationKind) -> (res: Rewrite)
    ensures
        res == rule_lift_right(l, r, k),
{
    reveal(rule_lift_right);
    let rv = r.value;
    match r.expression {
        Expression::Op(ro) => {
            if let OperationKind::Add | OperationKind::Multiply = k {
                // E.g. convert (y + (a - x)) into ((y + a) - x)
                if are_operations_reverse(ro.kind, k) {
                    if let Some(iv) = checked_apply(k, l.value, ro.left.value) {
                        if let Some(_) = checked_apply(ro.kind, iv, ro.right.value) {
                            let Operation { left: a, right: x, kind: q } = *ro;
                            return (EvaluatedExpr::join(l, a, k, iv), x, q, true);
                        }
                    }
                }
            }
            (l, EvaluatedExpr { value: rv, expression: Expression::Op(ro) }, k, false)
        },
        Expression::Num(n) => (l, EvaluatedExpr { value: rv, expression: Expression::Num(n) }, k, false),
    }
}

fn fold_reverse(l: EvaluatedExpr, r: EvaluatedExpr, k: OperationKind) -> (res: Rewrite)
    ensures
        res == rule_fold_reverse(l, r, k),
{
    reveal(rule_fold_reverse);
    let rv = r.value;
    match r.expression {
        Expression::Op(ro) => {
            if let OperationKind::Subtract | OperationKind::Divide = k {
                // E.g. (a - (b + c)) becomes ((a - c) - b)
                if are_operations_reverse(k, ro.kind) {
                    if let Some(iv) = checked_apply(k, l.value, ro.right.value) {
                        if let Some(_) = checked_apply(k, iv, ro.left.value) {
                            let Operation { left: b, right: c, kind: _ } = *ro;
                            return (EvaluatedExpr::join(l, c, k, iv), b, k, true);
                        }
                    }
                }
            }
            (l, EvaluatedExpr { value: rv, expression: Expression::Op(ro) }, k, false)
        },
        Expression::Num(n) => (l, EvaluatedExpr { value: rv, expression: Expression::Num(n) }, k, false),
    }
}

fn fold_same(l: EvaluatedExpr, r: EvaluatedExpr, k: OperationKind) -> (res: Rewrite)
    ensures
        res == rule_fold_same(l, r, k),
{
    reveal(rule_fold_same);
    let rv = r.value;
    match r.expression {
        Expression::Op(ro) => {
            if let OperationKind::Subtract | OperationKind::Divide = k {
                // E.g. (a - (b - c)) becomes ((a + c) - b)
                if ro.kind == k {
                    let rev = reverse_operation(k);
                    if let Some(iv) = checked_apply(rev, l.value, ro.right.value) {
                        if let Some(_) = checked_apply(k, iv, ro.left.value) {
                            let Operation { left: b, right: c, kind: _ } = *ro;
                            return (EvaluatedExpr::join(l, c, rev, iv), b, k, true);
                        }
                    }
                }
            }
            (l, EvaluatedExpr { value: rv, expression: Expression::Op(ro) }, k, false)
        },
        Expression::Num(n) => (l, EvaluatedExpr { value: rv, expression: Expression::Num(n) }, k, false),
    }
}

fn order_chain(l: EvaluatedExpr, r: EvaluatedExpr, k: OperationKind) -> (res: Rewrite)
    requires
        crate::expression::well_formed(l),
        crate::expression::well_formed(r),
    ensures
        res == rule_order_chain(l, r, k),
{
    reveal(rule_order_chain);
    let lv = l.value;
    match l.expression {
        Expression::Op(lo) => {
            // E.g. compare x and y in ((a + x) + y) and swap if needed
            proof {
                reveal_with_fuel(crate::expression::well_formed, 2);
            }
            if lo.kind == k {
                if let core::cmp::Ordering::Less = lo.right.expression.compare_shuffle_precidence(
                    &r.expression,
                ) {
                    if let Some(iv) = checked_apply(k, lo.left.value, r.value) {
                        if let Some(_) = checked_apply(k, iv, lo.right.value) {
                            let Operation { left: a, right: x, kind: _ } = *lo;
                            return (EvaluatedExpr::join(a, r, k, iv), x, k, true);
                        }
                    }
                }
            }
            (EvaluatedExpr { value: lv, expression: Expression::Op(lo) }, r, k, false)
        },
        Expression::Num(n) => (EvaluatedExpr { value: lv, expression: Expression::Num(n) }, r, k, false),
    }
}

fn tie_break(l: EvaluatedExpr, r: EvaluatedExpr, k: OperationKind) -> (res: Rewrite)
    requires
        crate::expression::well_formed(l),
        crate::expression::well_formed(r),
    ensures
        res == rule_tie_break(l, r, k),
{
    reveal(rule_tie_break);
    let lv = l.value;
    match l.expression {
        Expression::Op(lo) => {
            // As above, for reverse operators whose right operands are equal
            proof {
                reveal_with_fuel(crate::expression::well_formed, 2);
            }
            if are_operations_reverse(lo.kind, k) && lo.right.value == r.value {
                if let core::cmp::Ordering::Less = lo.right.expression.compare_shuffle_precidence(
                    &r.expression,
                ) {
                    if let Some(iv) = checked_apply(lo.kind, lo.left.value, r.value) {
                        if let Some(_) = checked_apply(k, iv, lo.right.value) {
                            let Operation { left: a, right: x, kind: q } = *lo;
                            return (EvaluatedExpr::join(a, r, q, iv), x, k, true);
                        }
                    }
                }
            }
            (EvaluatedExpr { value: lv, expression: Expression::Op(lo) }, r, k, false)
        },
        Expression::Num(n) => (EvaluatedExpr { value: lv, expression: Expression::Num(n) }, r, k, false),
    }
}

/// The rules, in order, at one node.
fn rewrite(l: EvaluatedExpr, r: EvaluatedExpr, k: OperationKind, Ghost(v): Ghost<int>) -> (res:
    Rewrite)
    requires
        sound_state(unchanged(l, r, k), v),
    ensures
        res == rewrite_node(l, r, k),
        sound_state(res, v),
{
    reveal(rewrite_node);
    proof {
        lemma_sort_sound(l, r, k, v);
    }
    let (l1, r1, k1, c1) = sort_operands(l, r, k);
    proof {
        lemma_lift_left_sound(l1, r1, k1, v);
    }
    let (l2, r2, k2, c2) = lift_left(l1, r1, k1);
    proof {
        lemma_lift_right_sound(l2, r2, k2, v);
    }
    let (l3, r3, k3, c3) = lift_right(l2, r2, k2);
    proof {
        lemma_fold_reverse_sound(l3, r3, k3, v);
    }
    let (l4, r4, k4, c4) = fold_reverse(l3, r3, k3);
    proof {
        lemma_fold_same_sound(l4, r4, k4, v);
    }
    let (l5, r5, k5, c5) = fold_same(l4, r4, k4);
    proof {
        lemma_order_chain_sound(l5, r5, k5, v);
    }
    let (l6, r6, k6, c6) = order_chain(l5, r5, k5);
    proof {
        lemma_tie_break_sound(l6, r6, k6, v);
    }
    let (l7, r7, k7, c7) = tie_break(l6, r6, k6);
    (l7, r7, k7, c1 || c2 || c3 || c4 || c5 || c6 || c7)
}

/// One pass of the rules over a tree, by value.
fn shuffle_pass(e: EvaluatedExpr) -> (res: (EvaluatedExpr, bool))
    requires
        well_formed(e),
    ensures
        res == pass(e),
        well_formed(res.0),
        res.0.value == e.value,
    decreases e,
{
    let v = e.value;
    match e.expression {
        Expression::Num(n) => (EvaluatedExpr { value: v, expression: Expression::Num(n) }, false),
        Expression::Op(op) => {
            let Operation { left, right, kind } = *op;
            let (l, cl) = shuffle_pass(left);
            let (r, cr) = shuffle_pass(right);
            let (l2, r2, k2, c) = rewrite(l, r, kind, Ghost(v as int));
            (
                EvaluatedExpr {
                    value: v,
                    expression: Expression::Op(Box::new(Operation { left: l2, right: r2, kind: k2 })),
                },
                cl || cr || c,
            )
        },
    }
}

/// The rules at one node keep its operands well formed and its value.
proof fn lemma_rewrite_sound(l: EvaluatedExpr, r: EvaluatedExpr, k: OperationKind, v: int)
    requires
        sound_state(unchanged(l, r, k), v),
    ensures
        sound_state(rewrite_node(l, r, k), v),
{
    reveal(rewrite_node);
    lemma_sort_sound(l, r, k, v);
    let (l1, r1, k1, c1) = rule_sort(l, r, k);
    lemma_lift_left_sound(l1, r1, k1, v);
    let (l2, r2, k2, c2) = rule_lift_left(l1, r1, k1);
    lemma_lift_right_sound(l2, r2, k2, v);
    let (l3, r3, k3, c3) = rule_lift_right(l2, r2, k2);
    lemma_fold_reverse_sound(l3, r3, k3, v);
    let (l4, r4, k4, c4) = rule_fold_reverse(l3, r3, k3);
    lemma_fold_same_sound(l4, r4, k4, v);
    let (l5, r5, k5, c5) = rule_fold_same(l4, r4, k4);
    lemma_order_chain_sound(l5, r5, k5, v);
    let (l6, r6, k6, c6) = rule_order_chain(l5, r5, k5);
    lemma_tie_break_sound(l6, r6, k6, v);
}

/// A pass keeps a well-formed tree well formed, with the same value.
pub proof fn lemma_pass_sound(e: EvaluatedExpr)
    requires
        well_formed(e),
    ensures
        well_formed(pass(e).0),
        pass(e).0.value == e.value,
    decreases e,
{
    if let Expression::Op(op) = e.expression {
        lemma_pass_sound(op.left);
        lemma_pass_sound(op.right);
        lemma_rewrite_sound(pass(op.left).0, pass(op.right).0, op.kind, e.value as int);
    }
}

/// Canonicalizing keeps a well-formed tree well formed, with the same value.
pub proof fn lemma_shuffled_sound(e: EvaluatedExpr, fuel: nat)
    requires
        well_formed(e),
    ensures
        well_formed(shuffled(e, fuel)),
        shuffled(e, fuel).value == e.value,
    decreases fuel,
{
    if fuel > 0 {
        lemma_pass_sound(e);
        lemma_shuffled_sound(pass(e).0, (fuel - 1) as nat);
    }
}

/// A pass that fires no rule gives the tree back as it was.
proof fn lemma_quiet_pass(e: EvaluatedExpr)
    requires
        !pass(e).1,
    ensures
        pass(e).0 == e,
    decreases e,
{
    if let Expression::Op(op) = e.expression {
        lemma_quiet_pass(op.left);
        lemma_quiet_pass(op.right);
        reveal(rewrite_node);
        reveal(rule_sort);
        reveal(rule_lift_left);
        reveal(rule_lift_right);
        reveal(rule_fold_reverse);
        reveal(rule_fold_same);
        reveal(rule_order_chain);
        reveal(rule_tie_break);
        assert(*op == Operation { left: op.left, right: op.right, kind: op.kind });
    }
}

/// Canonicalizing a canonical tree performs no rewrite and gives it back
/// unchanged, whatever number of passes is allowed.
pub proof fn lemma_canonical_fixpoint(e: EvaluatedExpr, fuel: nat)
    requires
        canonical(e),
    ensures
        pass(e) == (e, false),
        shuffled(e, fuel) == e,
{
    lemma_quiet_pass(e);
}

/// The most passes a canonicalization makes. The rules are not known to reach
/// a fixpoint on every tree; a tree still changing after this many passes is
/// reported.
pub const MAX_PASSES: usize = 1000;

/// Runs one pass of the rules over the tree, children first. Returns whether
/// any rule fired.
pub fn recursively_shuffle_expr(expression: &mut EvaluatedExpr) -> (changed: bool)
    requires
        well_formed(*old(expression)),
    ensures
        (*final(expression), changed) == pass(*old(expression)),
        well_formed(*final(expression)),
        final(expression).value == old(expression).value,
{
    let mut e = EvaluatedExpr { value: 0, expression: Expression::Num(0) };
    core::mem::swap(expression, &mut e);
    let (shuffled, changed) = shuffle_pass(e);
    *expression = shuffled;
    changed
}

/// Runs passes of the rules until one changes nothing, at most `MAX_PASSES`
/// of them. Returns whether the tree is now canonical; `false` reports a tree
/// still changing when the passes ran out.
pub fn fully_shuffle_expr(expression: &mut EvaluatedExpr) -> (converged: bool)
    requires
        well_formed(*old(expression)),
    ensures
        *final(expression) == shuffled(*old(expression), MAX_PASSES as nat),
        converged == canonical(*final(expression)),
        well_formed(*final(expression)),
        final(expression).value == old(expression).value,
{
    let ghost start = *expression;
    let mut i: usize = 0;
    while i < MAX_PASSES
        invariant
            0 <= i <= MAX_PASSES,
            start == *old(expression),
            well_formed(*expression),
            expression.value == start.value,
            shuffled(start, MAX_PASSES as nat) == shuffled(*expression, (MAX_PASSES - i) as nat),
        decreases MAX_PASSES - i,
    {
        let ghost before = *expression;
        let changed = recursively_shuffle_expr(expression);
        if !changed {
            proof {
                lemma_quiet_pass(before);
            }
            return true;
        }
        i += 1;
    }
    // The passes ran out: the tree is canonical only if one more pass would
    // leave it alone.
    let mut probe = expression.duplicate();
    !recursively_shuffle_expr(&mut probe)
}

} // verus!
