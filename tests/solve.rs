use calculator::complexity::LEAF_COST;
use calculator::expression::{EvaluatedExpr, Expression};
use calculator::generate::get_tens;
use calculator::shuffle::{fully_shuffle_expr, recursively_shuffle_expr};
use calculator::solve::{solve, solve_checked};

/// Evaluates infix text the way the renderer writes it: `^` binds tightest,
/// then `*` and `/`, then `+` and `-`, each level read from left to right.
fn evaluate_text(text: &str) -> i64 {
    let tokens: Vec<String> = tokenize(text);
    let mut pos = 0;
    let value = parse_sum(&tokens, &mut pos);
    assert_eq!(pos, tokens.len(), "trailing input in {}", text);
    value
}

fn tokenize(text: &str) -> Vec<String> {
    let mut tokens = Vec::new();
    let chars: Vec<char> = text.chars().collect();
    let mut i = 0;
    while i < chars.len() {
        let c = chars[i];
        if c == ' ' {
            i += 1;
        } else if c.is_ascii_digit() || (c == '-' && i + 1 < chars.len() && chars[i + 1].is_ascii_digit()
            && (tokens.is_empty() || tokens.last().map_or(false, |t: &String| t == "(" || "+-*/^".contains(t.as_str()))))
        {
            let start = i;
            i += 1;
            while i < chars.len() && chars[i].is_ascii_digit() {
                i += 1;
            }
            tokens.push(chars[start..i].iter().collect());
        } else {
            tokens.push(c.to_string());
            i += 1;
        }
    }
    tokens
}

fn parse_sum(tokens: &[String], pos: &mut usize) -> i64 {
    let mut value = parse_product(tokens, pos);
    while *pos < tokens.len() && (tokens[*pos] == "+" || tokens[*pos] == "-") {
        let op = tokens[*pos].clone();
        *pos += 1;
        let rhs = parse_product(tokens, pos);
        value = if op == "+" { value + rhs } else { value - rhs };
    }
    value
}

fn parse_product(tokens: &[String], pos: &mut usize) -> i64 {
    let mut value = parse_power(tokens, pos);
    while *pos < tokens.len() && (tokens[*pos] == "*" || tokens[*pos] == "/") {
        let op = tokens[*pos].clone();
        *pos += 1;
        let rhs = parse_power(tokens, pos);
        if op == "*" {
            value *= rhs;
        } else {
            assert!(rhs != 0 && value % rhs == 0, "inexact division");
            value /= rhs;
        }
    }
    value
}

fn parse_power(tokens: &[String], pos: &mut usize) -> i64 {
    let mut value = parse_atom(tokens, pos);
    while *pos < tokens.len() && tokens[*pos] == "^" {
        *pos += 1;
        let rhs = parse_atom(tokens, pos);
        assert!(rhs >= 0, "negative exponent");
        value = value.pow(rhs as u32);
    }
    value
}

fn parse_atom(tokens: &[String], pos: &mut usize) -> i64 {
    let token = tokens[*pos].clone();
    *pos += 1;
    if token == "(" {
        let value = parse_sum(tokens, pos);
        assert_eq!(tokens[*pos], ")");
        *pos += 1;
        value
    } else {
        token.parse().unwrap()
    }
}

/// The pipeline of `solve`, step by step through the public functions:
/// canonical, distinct trees in order of discovery.
fn kept_trees(numbers: &[i32], target: i32) -> Vec<EvaluatedExpr> {
    let mut kept: Vec<EvaluatedExpr> = Vec::new();
    for mut e in get_tens(numbers, target) {
        fully_shuffle_expr(&mut e);
        if !kept.iter().any(|k| k.equals(&e)) {
            kept.push(e);
        }
    }
    kept
}

#[test]
fn single_number_that_is_the_target() {
    assert_eq!(solve(&[10], 10), vec!["10".to_string()]);
}

#[test]
fn single_number_that_is_not_the_target() {
    assert_eq!(solve(&[3], 10), Vec::<String>::new());
}

#[test]
fn empty_input_has_no_solution() {
    assert_eq!(solve(&[], 10), Vec::<String>::new());
}

#[test]
fn four_numbers_include_their_sum_once() {
    let found = solve(&[1, 2, 3, 4], 10);
    let flat_sums: Vec<&String> = found
        .iter()
        .filter(|s| s.chars().all(|c| c.is_ascii_digit() || c == ' ' || c == '+'))
        .collect();
    // The groupings of the sum may print alike, but never in another order.
    assert!(!flat_sums.is_empty());
    for s in &flat_sums {
        assert_eq!(s.as_str(), "4 + 3 + 2 + 1");
        assert_eq!(evaluate_text(s), 10);
    }
    // No two of the sums kept are commuted forms of each other.
    let sums: Vec<EvaluatedExpr> = kept_trees(&[1, 2, 3, 4], 10)
        .into_iter()
        .filter(|e| e.to_text() == "4 + 3 + 2 + 1")
        .collect();
    assert_eq!(sums.len(), flat_sums.len());
    for i in 0..sums.len() {
        for j in 0..sums.len() {
            if i != j {
                assert!(!sums[i].equals(&sums[j]));
            }
        }
    }
}

#[test]
fn commuted_sum_of_equal_numbers_collapses() {
    assert_eq!(solve(&[5, 5], 10), vec!["5 + 5".to_string()]);
}

#[test]
fn every_rendering_evaluates_to_the_target() {
    for (numbers, target) in [
        (vec![1, 2, 3, 4], 10),
        (vec![2, 3, 4, 5], 10),
        (vec![9, 1, 1, 1], 10),
        (vec![2, 3, 4], 24),
        (vec![7, 2, 0], 49),
    ] {
        let found = solve(&numbers, target);
        assert!(!found.is_empty());
        for text in &found {
            assert_eq!(evaluate_text(text), target as i64, "{} from {:?}", text, numbers);
        }
    }
}

#[test]
fn renderings_are_pairwise_distinct_solutions() {
    for numbers in [vec![1, 2, 3, 4], vec![5, 5, 5, 5], vec![2, 2, 3]] {
        let kept = kept_trees(&numbers, 10);
        for i in 0..kept.len() {
            for j in 0..kept.len() {
                if i != j {
                    assert!(!kept[i].equals(&kept[j]));
                }
            }
        }
        let found = solve(&numbers, 10);
        assert_eq!(found.len(), kept.len());
    }
}

#[test]
fn renderings_are_ranked_by_score_then_discovery() {
    for numbers in [vec![1, 2, 3, 4], vec![6, 2, 2], vec![1, 1, 2, 3, 5]] {
        let kept = kept_trees(&numbers, 10);
        let mut ranked: Vec<(u32, usize)> =
            kept.iter().enumerate().map(|(i, e)| (e.get_complexity(), i)).collect();
        ranked.sort_by_key(|p| p.0);
        let expected: Vec<String> = ranked.iter().map(|p| kept[p.1].to_text()).collect();
        let found = solve(&numbers, 10);
        assert_eq!(found, expected);
        let scores: Vec<u32> = ranked.iter().map(|p| p.0).collect();
        for w in scores.windows(2) {
            assert!(w[0] <= w[1]);
        }
    }
}

#[test]
fn canonical_tree_is_left_alone() {
    for mut e in get_tens(&[1, 2, 3, 4], 10) {
        assert!(fully_shuffle_expr(&mut e));
        let before = e.to_text();
        let value = e.evaluate();
        assert!(!recursively_shuffle_expr(&mut e));
        assert_eq!(e.to_text(), before);
        assert_eq!(e.evaluate(), value);
    }
}

/// Whether a node anywhere in the tree is one the constructor rejects as
/// invalid or redundant.
fn has_rejected_node(e: &EvaluatedExpr) -> bool {
    match &e.expression {
        Expression::Num(_) => false,
        Expression::Op(op) => {
            let (l, r) = (op.left.value as i64, op.right.value as i64);
            let bad = match op.kind {
                calculator::operation::OperationKind::Subtract => r == 0 || l < r,
                calculator::operation::OperationKind::Divide => r == 0 || l == 0 || r == 1 || l % r != 0,
                calculator::operation::OperationKind::Power => r < 0 || r == 1,
                _ => false,
            };
            bad || has_rejected_node(&op.left) || has_rejected_node(&op.right)
        }
    }
}

/// Whether a node anywhere in the tree divides by zero or inexactly, or has
/// a negative exponent.
fn has_undefined_node(e: &EvaluatedExpr) -> bool {
    match &e.expression {
        Expression::Num(_) => false,
        Expression::Op(op) => {
            let (l, r) = (op.left.value as i64, op.right.value as i64);
            let bad = match op.kind {
                calculator::operation::OperationKind::Divide => r == 0 || l % r != 0,
                calculator::operation::OperationKind::Power => r < 0,
                _ => false,
            };
            bad || has_undefined_node(&op.left) || has_undefined_node(&op.right)
        }
    }
}

#[test]
fn generated_candidates_have_no_rejected_node() {
    for numbers in [vec![1, 2, 3, 4], vec![0, 5, 2], vec![2, 1, 0, 8]] {
        let found = get_tens(&numbers, 10);
        assert!(!found.is_empty());
        for e in &found {
            assert!(!has_rejected_node(e), "{}", e.to_text());
        }
    }
}

#[test]
fn returned_expressions_have_no_undefined_node() {
    for numbers in [vec![1, 2, 3, 4], vec![6, 3, 0, 10], vec![2, 1, 0, 8]] {
        for e in kept_trees(&numbers, 10) {
            assert!(!has_undefined_node(&e), "{}", e.to_text());
            assert_eq!(evaluate_text(&e.to_text()), 10);
        }
    }
}

#[test]
fn leaf_costs_the_leaf_cost() {
    assert_eq!(Expression::new_num(7).get_complexity(), LEAF_COST);
}

#[test]
fn checked_solving_reports_convergence() {
    for numbers in [vec![1, 2, 3, 4], vec![10], vec![3]] {
        assert_eq!(solve_checked(&numbers, 10), Some(solve(&numbers, 10)));
    }
}

#[test]
fn canonical_form_may_subtract_zero() {
    assert!(solve(&[12, 2, 0], 10).contains(&"12 - 2 - 0".to_string()));
}
