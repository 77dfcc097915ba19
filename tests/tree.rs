use calculator::expression::{EvaluatedExpr, Expression};
use calculator::generate::generate_expressions;
use calculator::operation::{
    are_operations_reverse, checked_apply, is_operator_greater_than, reverse_operation,
    OperationKind,
};
use calculator::traits::{Complexity, Depth, Evaluate, ExpressionEquals};
use core::cmp::Ordering;

fn num(n: i32) -> EvaluatedExpr {
    Expression::new_num(n)
}

fn op(l: EvaluatedExpr, r: EvaluatedExpr, kind: OperationKind) -> EvaluatedExpr {
    Expression::new_op(l, r, kind).expect("a valid node")
}

#[test]
fn leaf_holds_its_number() {
    let e = num(-7);
    assert_eq!(e.evaluate(), -7);
    assert_eq!(e.to_text(), "-7");
    assert_eq!(num(i32::MIN).to_text(), "-2147483648");
    assert_eq!(num(120).to_text(), "120");
}

#[test]
fn node_caches_its_value() {
    assert_eq!(op(num(2), num(3), OperationKind::Add).evaluate(), 5);
    assert_eq!(op(num(7), num(3), OperationKind::Subtract).evaluate(), 4);
    assert_eq!(op(num(4), num(3), OperationKind::Multiply).evaluate(), 12);
    assert_eq!(op(num(12), num(4), OperationKind::Divide).evaluate(), 3);
    assert_eq!(op(num(-12), num(4), OperationKind::Divide).evaluate(), -3);
    assert_eq!(op(num(2), num(10), OperationKind::Power).evaluate(), 1024);
    assert_eq!(op(num(-2), num(3), OperationKind::Power).evaluate(), -8);
    assert_eq!(op(num(5), num(0), OperationKind::Power).evaluate(), 1);
}

#[test]
fn division_rejections() {
    assert!(Expression::new_op(num(5), num(0), OperationKind::Divide).is_none());
    assert!(Expression::new_op(num(7), num(2), OperationKind::Divide).is_none());
    assert!(Expression::new_op(num(0), num(3), OperationKind::Divide).is_none());
    assert!(Expression::new_op(num(6), num(1), OperationKind::Divide).is_none());
    assert!(Expression::new_op(num(i32::MIN), num(-1), OperationKind::Divide).is_none());
}

#[test]
fn subtraction_rejections() {
    assert!(Expression::new_op(num(2), num(3), OperationKind::Subtract).is_none());
    assert!(Expression::new_op(num(3), num(0), OperationKind::Subtract).is_none());
    assert!(Expression::new_op(num(3), num(3), OperationKind::Subtract).is_some());
}

#[test]
fn power_rejections() {
    assert!(Expression::new_op(num(2), num(-1), OperationKind::Power).is_none());
    assert!(Expression::new_op(num(2), num(1), OperationKind::Power).is_none());
    assert!(Expression::new_op(num(2), num(31), OperationKind::Power).is_none());
    assert!(Expression::new_op(num(2), num(30), OperationKind::Power).is_some());
}

#[test]
fn overflowing_sum_and_product_are_rejected() {
    assert!(Expression::new_op(num(i32::MAX), num(1), OperationKind::Add).is_none());
    assert!(Expression::new_op(num(65536), num(65536), OperationKind::Multiply).is_none());
    assert!(Expression::new_op(num(i32::MAX), num(-1), OperationKind::Subtract).is_none());
}

#[test]
fn checked_apply_values() {
    assert_eq!(checked_apply(OperationKind::Power, 3, 4), Some(81));
    assert_eq!(checked_apply(OperationKind::Power, 3, 40), None);
    assert_eq!(checked_apply(OperationKind::Divide, 9, 3), Some(3));
    assert_eq!(checked_apply(OperationKind::Divide, 9, 2), None);
    assert_eq!(checked_apply(OperationKind::Subtract, 2, 9), Some(-7));
}

#[test]
fn rendering_parenthesizes_looser_and_right_children() {
    let sum = op(num(1), num(2), OperationKind::Add);
    let product = op(sum, num(3), OperationKind::Multiply);
    assert_eq!(product.to_text(), "(1 + 2) * 3");
    let inner = op(num(4), num(1), OperationKind::Subtract);
    let outer = op(num(10), inner, OperationKind::Subtract);
    assert_eq!(outer.to_text(), "10 - (4 - 1)");
    let left = op(num(2), num(3), OperationKind::Multiply);
    let chain = op(left, num(4), OperationKind::Add);
    assert_eq!(chain.to_text(), "2 * 3 + 4");
    if let Expression::Op(o) = &chain.expression {
        assert_eq!(o.to_text(), "2 * 3 + 4");
        assert_eq!(o.to_text_child(OperationKind::Multiply, true), "(2 * 3 + 4)");
        assert_eq!(o.to_text_child(OperationKind::Add, true), "2 * 3 + 4");
        assert_eq!(o.to_text_child(OperationKind::Add, false), "2 * 3 + 4");
        assert_eq!(o.to_text_child(OperationKind::Subtract, false), "(2 * 3 + 4)");
    } else {
        panic!("expected a node");
    }
    assert_eq!(chain.expression.to_text_child(OperationKind::Power, true), "(2 * 3 + 4)");
    assert_eq!(num(9).expression.to_text_child(OperationKind::Power, false), "9");
    let right_product = op(num(1), op(num(2), num(3), OperationKind::Multiply), OperationKind::Add);
    assert_eq!(right_product.to_text(), "1 + 2 * 3");
    let right_quotient = op(num(2), op(num(6), num(3), OperationKind::Divide), OperationKind::Multiply);
    assert_eq!(right_quotient.to_text(), "2 * 6 / 3");
    let right_power = op(num(2), op(num(2), num(3), OperationKind::Power), OperationKind::Multiply);
    assert_eq!(right_power.to_text(), "2 * 2 ^ 3");
}

#[test]
fn complexity_values() {
    let sum = op(num(1), num(2), OperationKind::Add);
    assert_eq!(sum.get_complexity(), 20);
    let product = op(sum, num(3), OperationKind::Multiply);
    // ((10 + 10) + 10 for the parentheses + 10) * 2
    assert_eq!(product.get_complexity(), 80);
    let power = op(num(2), op(num(1), num(1), OperationKind::Add), OperationKind::Power);
    // (10 + (20 + 10)) * 5
    assert_eq!(power.get_complexity(), 200);
    if let Expression::Op(o) = &power.expression {
        assert_eq!(o.get_complexity(), 200);
        assert_eq!(o.get_complexity_internal(OperationKind::Add, true), 200);
        assert_eq!(o.get_complexity_internal(OperationKind::Add, false), 200);
        assert_eq!(o.get_complexity_internal(OperationKind::Subtract, false), 210);
    } else {
        panic!("expected a node");
    }
    assert_eq!(num(4).expression.get_complexity_internal(OperationKind::Power, false), 10);
    let product = op(num(2), num(3), OperationKind::Multiply);
    // (10 + 10) * 2, with no parentheses as the right operand of a sum
    assert_eq!(product.expression.get_complexity_internal(OperationKind::Add, false), 40);
    assert_eq!(product.expression.get_complexity_internal(OperationKind::Subtract, false), 50);
    let sum = op(num(1), product, OperationKind::Add);
    assert_eq!(sum.get_complexity(), 50);
}

#[test]
fn equivalence_of_commuted_and_degenerate_nodes() {
    let a = op(num(2), num(3), OperationKind::Add);
    let b = op(num(3), num(2), OperationKind::Add);
    assert!(a.equals(&b));
    let c = op(num(3), num(2), OperationKind::Subtract);
    let d = op(num(3), num(1), OperationKind::Subtract);
    assert!(!c.equals(&d));
    let p = op(num(1), num(2), OperationKind::Power);
    let q = op(num(1), num(7), OperationKind::Power);
    assert!(p.equals(&q));
    let z1 = op(num(0), num(4), OperationKind::Multiply);
    let z2 = op(num(0), num(9), OperationKind::Multiply);
    assert!(z1.equals(&z2));
    assert!(!num(4).equals(&num(5)));
    assert!(!num(5).equals(&a));
    assert!(a.expression.equals(&b.expression));
}

#[test]
fn depth_and_shuffle_order() {
    let leaf = num(3);
    let sum = op(num(1), num(2), OperationKind::Add);
    let deeper = op(op(num(1), num(2), OperationKind::Add), num(1), OperationKind::Add);
    assert_eq!(leaf.expression.depth(), 1);
    assert_eq!(sum.expression.depth(), 2);
    assert_eq!(deeper.expression.depth(), 3);
    assert_eq!(num(1).expression.compare_shuffle_precidence(&num(2).expression), Ordering::Less);
    assert_eq!(num(2).expression.compare_shuffle_precidence(&num(2).expression), Ordering::Equal);
    assert_eq!(num(9).expression.compare_shuffle_precidence(&sum.expression), Ordering::Less);
    assert_eq!(sum.expression.compare_shuffle_precidence(&num(9).expression), Ordering::Greater);
    assert_eq!(sum.expression.compare_shuffle_precidence(&deeper.expression), Ordering::Less);
    let bigger = op(num(5), num(2), OperationKind::Add);
    assert_eq!(bigger.expression.compare_shuffle_precidence(&sum.expression), Ordering::Greater);
    assert_eq!(bigger.expression.compare_position(&sum.expression), Ordering::Greater);
    assert_eq!(num(1).expression.compare_position(&sum.expression), Ordering::Less);
}

#[test]
fn operator_tables() {
    assert!(is_operator_greater_than(OperationKind::Add, OperationKind::Multiply));
    assert!(is_operator_greater_than(OperationKind::Divide, OperationKind::Power));
    assert!(!is_operator_greater_than(OperationKind::Power, OperationKind::Add));
    assert!(!is_operator_greater_than(OperationKind::Subtract, OperationKind::Add));
    assert_eq!(reverse_operation(OperationKind::Add), OperationKind::Subtract);
    assert_eq!(reverse_operation(OperationKind::Divide), OperationKind::Multiply);
    assert!(are_operations_reverse(OperationKind::Multiply, OperationKind::Divide));
    assert!(!are_operations_reverse(OperationKind::Add, OperationKind::Multiply));
    assert!(!are_operations_reverse(OperationKind::Power, OperationKind::Power));
}

#[test]
fn generation_order_for_two_numbers() {
    let texts: Vec<String> = generate_expressions(&[1, 2]).iter().map(|e| e.to_text()).collect();
    assert_eq!(texts, vec!["1 + 2", "2 - 1", "1 * 2", "1 ^ 2"]);
    let three: Vec<String> = generate_expressions(&[1, 2, 3]).iter().map(|e| e.to_text()).collect();
    // The first split collects the prefix [1], the second the suffix [3].
    assert_eq!(three[0], "1 + 2 + 3");
    assert_eq!(three[three.len() - 1], "1 ^ 2 ^ 3");
    let one: Vec<String> = generate_expressions(&[4]).iter().map(|e| e.to_text()).collect();
    assert_eq!(one, vec!["4"]);
    assert!(generate_expressions(&[]).is_empty());
}

#[test]
fn refreshing_caches_after_a_manual_change() {
    let mut e = op(num(2), num(3), OperationKind::Add);
    if let Expression::Op(o) = &mut e.expression {
        o.kind = OperationKind::Multiply;
    }
    assert_eq!(e.evaluate(), 5);
    e.re_evaluate();
    assert_eq!(e.evaluate(), 6);
    let copy = e.duplicate();
    assert_eq!(copy.to_text(), "2 * 3");
}

fn canonical_text(mut e: EvaluatedExpr) -> String {
    assert!(calculator::shuffle::fully_shuffle_expr(&mut e));
    e.to_text()
}

#[test]
fn canonical_form_sorts_commuted_operands() {
    assert_eq!(canonical_text(op(num(2), num(3), OperationKind::Add)), "3 + 2");
    assert_eq!(canonical_text(op(num(3), num(2), OperationKind::Add)), "3 + 2");
}

#[test]
fn canonical_form_lifts_a_reverse_operator() {
    let e = op(op(num(5), num(1), OperationKind::Subtract), num(2), OperationKind::Add);
    assert_eq!(canonical_text(e), "5 + 2 - 1");
}

#[test]
fn canonical_form_unfolds_a_right_sum() {
    let e = op(num(9), op(num(2), num(3), OperationKind::Add), OperationKind::Subtract);
    assert_eq!(canonical_text(e), "9 - 3 - 2");
}

#[test]
fn canonical_form_may_divide_zero() {
    let quotient = op(num(6), num(3), OperationKind::Divide);
    let e = op(op(quotient, num(0), OperationKind::Multiply), num(10), OperationKind::Add);
    assert_eq!(canonical_text(e), "6 * 0 / 3 + 10");
    let found = calculator::solve::solve(&[6, 3, 0, 10], 10);
    assert!(found.contains(&"6 * 0 / 3 + 10".to_string()));
}

#[test]
fn one_pass_reports_whether_a_rule_fired() {
    let mut e = op(num(2), num(3), OperationKind::Multiply);
    assert!(calculator::shuffle::recursively_shuffle_expr(&mut e));
    assert_eq!(e.to_text(), "3 * 2");
    assert_eq!(e.evaluate(), 6);
    assert!(!calculator::shuffle::recursively_shuffle_expr(&mut e));
}

#[test]
fn trait_methods_agree_with_the_tree() {
    let product = op(op(num(1), num(2), OperationKind::Add), num(3), OperationKind::Multiply);
    let flipped = op(num(3), op(num(2), num(1), OperationKind::Add), OperationKind::Multiply);
    assert_eq!(Complexity::get_complexity(&product.expression), 80);
    assert_eq!(Complexity::get_complexity_internal(&product.expression, OperationKind::Power, true), 90);
    assert_eq!(Evaluate::evaluate(&product.expression), 9);
    assert_eq!(Evaluate::evaluate(&product), 9);
    assert!(ExpressionEquals::expr_equals(&product.expression, &flipped.expression));
    assert_eq!(Depth::depth(&product.expression), 3);
    if let (Expression::Op(a), Expression::Op(b)) = (&product.expression, &flipped.expression) {
        assert_eq!(Complexity::get_complexity(a.as_ref()), 80);
        assert_eq!(Evaluate::evaluate(a.as_ref()), 9);
        assert!(ExpressionEquals::expr_equals(a.as_ref(), b.as_ref()));
        assert_eq!(Depth::depth(a.as_ref()), 2);
    } else {
        panic!("expected nodes");
    }
}
