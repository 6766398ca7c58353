use ries_rs::constraints::{expression_respects_constraints, ExpressionConstraintOptions};
use ries_rs::expr::Expression;
use ries_rs::symbol::NumType;

fn expr_from_postfix(s: &str) -> Expression {
    Expression::parse(s).expect("valid expression")
}

#[test]
fn test_constraints_default_allows_all() {
    let opts = ExpressionConstraintOptions::default();
    let expr = expr_from_postfix("xp^");
    assert!(expression_respects_constraints(&expr, opts), "x^pi should be allowed with default options");
    let expr = expr_from_postfix("eS");
    assert!(expression_respects_constraints(&expr, opts), "sinpi(e) should be allowed with default options");
}

#[test]
fn test_constraints_rational_exponents_rejects_transcendental() {
    let opts = ExpressionConstraintOptions { rational_exponents: true, ..Default::default() };
    let expr = expr_from_postfix("xp^");
    assert!(!expression_respects_constraints(&expr, opts), "x^pi should be rejected with rational_exponents=true");
    let expr = expr_from_postfix("xe^");
    assert!(!expression_respects_constraints(&expr, opts), "x^e should be rejected with rational_exponents=true");
}

#[test]
fn test_constraints_rational_exponents_allows_integer() {
    let opts = ExpressionConstraintOptions { rational_exponents: true, ..Default::default() };
    let expr = expr_from_postfix("x2^");
    assert!(expression_respects_constraints(&expr, opts), "x^2 should be allowed with rational_exponents=true");
    let expr = expr_from_postfix("x1^");
    assert!(expression_respects_constraints(&expr, opts), "x^1 should be allowed with rational_exponents=true");
}

#[test]
fn test_constraints_rational_trig_args_rejects_irrational() {
    let opts = ExpressionConstraintOptions { rational_trig_args: true, ..Default::default() };
    let expr = expr_from_postfix("eS");
    assert!(!expression_respects_constraints(&expr, opts), "sinpi(e) should be rejected with rational_trig_args=true");
    let expr = expr_from_postfix("pS");
    assert!(!expression_respects_constraints(&expr, opts), "sinpi(pi) should be rejected with rational_trig_args=true");
}

#[test]
fn test_constraints_rational_trig_args_allows_rational() {
    let opts = ExpressionConstraintOptions { rational_trig_args: true, ..Default::default() };
    let expr = expr_from_postfix("1S");
    assert!(expression_respects_constraints(&expr, opts), "sinpi(1) should be allowed with rational_trig_args=true");
    let expr = expr_from_postfix("2S");
    assert!(expression_respects_constraints(&expr, opts), "sinpi(2) should be allowed with rational_trig_args=true");
}

#[test]
fn test_constraints_rational_trig_args_rejects_x() {
    let opts = ExpressionConstraintOptions { rational_trig_args: true, ..Default::default() };
    let expr = expr_from_postfix("xS");
    assert!(!expression_respects_constraints(&expr, opts), "sinpi(x) should be rejected with rational_trig_args=true");
}

#[test]
fn test_constraints_max_trig_cycles() {
    let opts = ExpressionConstraintOptions { max_trig_cycles: Some(2), ..Default::default() };
    let expr = expr_from_postfix("xS");
    assert!(expression_respects_constraints(&expr, opts), "1 trig op should pass with max=2");
    let expr = expr_from_postfix("xCS");
    assert!(expression_respects_constraints(&expr, opts), "2 trig ops should pass with max=2");
    let expr = expr_from_postfix("xTCS");
    assert!(!expression_respects_constraints(&expr, opts), "3 trig ops should fail with max=2");
}

#[test]
fn test_constraints_max_trig_cycles_none_unlimited() {
    let opts = ExpressionConstraintOptions { max_trig_cycles: None, ..Default::default() };
    let expr = expr_from_postfix("xTCSTCS");
    assert!(expression_respects_constraints(&expr, opts), "Unlimited trig should pass any depth");
}

#[test]
fn test_constraints_combined() {
    let opts = ExpressionConstraintOptions {
        rational_exponents: true,
        rational_trig_args: true,
        max_trig_cycles: Some(1),
        ..Default::default()
    };
    let expr = expr_from_postfix("x2^1S+");
    assert!(expression_respects_constraints(&expr, opts), "x^2 + sinpi(1) should pass all constraints");
    let expr = expr_from_postfix("xp^");
    assert!(!expression_respects_constraints(&expr, opts), "x^pi should fail rational_exponents");
    let expr = expr_from_postfix("xS");
    assert!(!expression_respects_constraints(&expr, opts), "sinpi(x) should fail rational_trig_args");
    let expr = expr_from_postfix("1CS");
    assert!(!expression_respects_constraints(&expr, opts), "double trig should fail max_trig_cycles=1");
}

#[test]
fn test_constraints_user_constant_types() {
    let mut user_types = [NumType::Transcendental; 16];
    user_types[0] = NumType::Integer;

    let opts = ExpressionConstraintOptions {
        rational_exponents: true,
        user_constant_types: user_types,
        ..Default::default()
    };

    assert_eq!(opts.user_constant_types[0], NumType::Integer);
}

#[test]
fn constraints_reject_malformed_symbols() {
    let opts = ExpressionConstraintOptions::default();
    let expr = Expression::from_symbols(&[ries_rs::symbol::Symbol::Add]);
    assert!(!expression_respects_constraints(&expr, opts));
    let expr = Expression::from_symbols(&[ries_rs::symbol::Symbol::One, ries_rs::symbol::Symbol::Two]);
    assert!(!expression_respects_constraints(&expr, opts));
}
