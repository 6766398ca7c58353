use ries_rs::expr::Expression;
use ries_rs::summary::{equation_canonical_key, to_infix_or_postfix, MatchSummary};

fn summary_of(lhs: &str, rhs: &str) -> MatchSummary {
    let lhs_expr = Expression::parse(lhs).unwrap();
    let rhs_expr = Expression::parse(rhs).unwrap();
    let complexity = lhs_expr.complexity() + rhs_expr.complexity();
    MatchSummary::from_match(&lhs_expr, &rhs_expr, complexity)
}

#[test]
fn match_summary_populates_core_fields() {
    let summary = summary_of("x1+", "3");
    assert_eq!(summary.lhs_postfix, "x1+");
    assert_eq!(summary.rhs_postfix, "3");
    assert!(summary.operator_count > 0);
    assert!(summary.tree_depth > 0);
    assert!(!summary.canonical_key.is_empty());
}

#[test]
fn match_summary_solves_and_renders() {
    let summary = summary_of("x1+", "3");
    assert_eq!(summary.lhs, "x+1");
    assert_eq!(summary.rhs, "3");
    assert_eq!(summary.solve_for_x.as_deref(), Some("x = 3-1"));
    assert_eq!(summary.solve_for_x_postfix.as_deref(), Some("31-"));
    assert_eq!(summary.operator_count, 1);
    let lhs = Expression::parse("x1+").unwrap();
    assert_eq!(summary.tree_depth, lhs.tree_depth());
    assert_eq!(summary.complexity, lhs.complexity() + Expression::parse("3").unwrap().complexity());
}

#[test]
fn match_summary_without_solution() {
    let summary = summary_of("xx*", "2");
    assert!(summary.solve_for_x.is_none());
    assert!(summary.solve_for_x_postfix.is_none());
    assert_eq!(summary.operator_count, 1);
}

#[test]
fn canonical_key_ignores_operand_order() {
    let a = Expression::parse("x1+").unwrap();
    let b = Expression::parse("1x+").unwrap();
    let three = Expression::parse("3").unwrap();
    assert_eq!(equation_canonical_key(&a, &three), equation_canonical_key(&b, &three));
    assert!(equation_canonical_key(&a, &three).contains('='));
}

#[test]
fn infix_or_postfix_falls_back() {
    let bad = Expression::from_symbols(&[ries_rs::symbol::Symbol::Add]);
    assert_eq!(to_infix_or_postfix(&bad), "+");
    assert_eq!(to_infix_or_postfix(&Expression::parse("xs").unwrap()), "x^2");
}
