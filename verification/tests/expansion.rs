use std::collections::HashMap;

use ries_rs::config::build_gen_config;
use ries_rs::expand::{accepts_complete, expansion_steps, weight_with};
use ries_rs::expr::Expression;
use ries_rs::gen::GenConfig;
use ries_rs::symbol::{NumType, Symbol};

fn config(lhs: u32, rhs: u32, min: NumType, only: Option<&str>) -> GenConfig {
    build_gen_config(lhs, rhs, min, None, None, only, None, None, None, None, None, 0, 0, false).unwrap()
}

fn e(s: &str) -> Expression {
    Expression::parse(s).unwrap_or_else(|| {
        Expression::from_symbols(&s.bytes().map(|b| Symbol::from_byte(b).unwrap()).collect::<Vec<_>>())
    })
}

#[test]
fn first_steps_push_one_value_each() {
    let c = config(40, 40, NumType::Transcendental, Some("12x+"));
    let steps = expansion_steps(&c, &Expression::new(), 0, 0, &HashMap::new());
    let symbols: Vec<Symbol> = steps.iter().map(|t| t.0).collect();
    assert_eq!(symbols, vec![Symbol::One, Symbol::Two, Symbol::X]);
    for (sym, depth, cost) in &steps {
        assert_eq!(*depth, 1);
        assert_eq!(*cost, sym.weight());
    }
}

#[test]
fn functions_follow_the_stack() {
    let c = config(60, 60, NumType::Transcendental, Some("12x+n"));
    let one = e("1");
    let w1 = Symbol::One.weight();
    let steps = expansion_steps(&c, &one, w1, 1, &HashMap::new());
    assert!(steps.iter().any(|t| *t == (Symbol::Neg, 1, w1 + Symbol::Neg.weight())));
    assert!(!steps.iter().any(|t| t.0 == Symbol::Add));
    let two = e("12");
    let w = Symbol::One.weight() + Symbol::Two.weight();
    let steps = expansion_steps(&c, &two, w, 2, &HashMap::new());
    assert!(steps.iter().any(|t| *t == (Symbol::Add, 1, w + Symbol::Add.weight())));
    let neg = e("1n");
    let wn = w1 + Symbol::Neg.weight();
    let steps = expansion_steps(&c, &neg, wn, 1, &HashMap::new());
    assert!(!steps.iter().any(|t| t.0 == Symbol::Neg));
}

#[test]
fn limits_stop_generation() {
    let c = config(10, 12, NumType::Transcendental, None);
    let x = e("x");
    let steps = expansion_steps(&c, &x, Symbol::X.weight(), 1, &HashMap::new());
    assert!(steps.is_empty());
    let steps = expansion_steps(&c, &Expression::new(), 0, 0, &HashMap::new());
    for (sym, _, cost) in &steps {
        assert!(*cost <= 12);
        assert_eq!(*cost, sym.weight());
    }
}

#[test]
fn overrides_change_costs() {
    let c = config(40, 40, NumType::Transcendental, Some("p1"));
    let mut overrides = HashMap::new();
    overrides.insert(b'p', 2u32);
    assert_eq!(weight_with(Symbol::Pi, &overrides), 2);
    assert_eq!(weight_with(Symbol::One, &overrides), Symbol::One.weight());
    let steps = expansion_steps(&c, &Expression::new(), 0, 0, &overrides);
    assert!(steps.contains(&(Symbol::Pi, 1, 2)));
}

#[test]
fn complete_expressions_by_class_and_side() {
    let c = config(20, 25, NumType::Rational, None);
    assert!(accepts_complete(&c, 20, true, NumType::Integer));
    assert!(!accepts_complete(&c, 21, true, NumType::Integer));
    assert!(accepts_complete(&c, 25, false, NumType::Rational));
    assert!(!accepts_complete(&c, 10, false, NumType::Algebraic));
}
