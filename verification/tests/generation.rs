use std::collections::HashSet;

use ries_rs::expr::Expression;
use ries_rs::fast_match::{
    contains_excluded, get_constant_candidates, get_num_type, passes_symbol_filters, FastMatchConfig,
    CANDIDATE_COUNT,
};
use ries_rs::gen::{
    exceeds_symbol_limit, get_max_complexity, has_rhs_symbol_overrides, is_constant, is_same_subexpr,
    min_complexity_to_complete, rhs_only_config, should_prune_binary, should_prune_unary, GenConfig,
};
use ries_rs::search::level_to_complexity;
use ries_rs::symbol::{NumType, Symbol};

fn syms(s: &str) -> Vec<Symbol> {
    s.bytes().map(|b| Symbol::from_byte(b).expect("symbol byte")).collect()
}

fn e(s: &str) -> Expression {
    Expression::from_symbols(&syms(s))
}

#[test]
fn pruning_of_unary_functions() {
    assert!(should_prune_unary(&e("xn"), Symbol::Neg));
    assert!(should_prune_unary(&e("xs"), Symbol::Sqrt));
    assert!(should_prune_unary(&e("xE"), Symbol::LambertW));
    assert!(should_prune_unary(&e("x1-"), Symbol::Neg));
    assert!(!should_prune_unary(&e("xn"), Symbol::Sqrt));
    assert!(!should_prune_unary(&Expression::new(), Symbol::Neg));
}

#[test]
fn pruning_of_binary_functions() {
    assert!(should_prune_binary(&e("xx"), Symbol::Sub));
    assert!(should_prune_binary(&e("x1"), Symbol::Div));
    assert!(should_prune_binary(&e("1x"), Symbol::Pow));
    assert!(should_prune_binary(&e("x2"), Symbol::Root));
    assert!(should_prune_binary(&e("ex"), Symbol::Log));
    assert!(should_prune_binary(&e("32"), Symbol::Add));
    assert!(!should_prune_binary(&e("23"), Symbol::Add));
    assert!(should_prune_binary(&e("x1+x1+"), Symbol::Sub));
    assert!(should_prune_binary(&e("x1+x1+"), Symbol::Add));
    assert!(!should_prune_binary(&e("x1+x2+"), Symbol::Sub));
    assert!(!should_prune_binary(&e("x"), Symbol::Add));
}

#[test]
fn identical_top_subexpressions() {
    assert!(is_same_subexpr(&syms("x1+x1+"), 2));
    assert!(is_same_subexpr(&syms("2xqxq"), 2));
    assert!(!is_same_subexpr(&syms("xx"), 2));
    assert!(!is_same_subexpr(&syms("x1+1x+"), 2));
    assert!(!is_same_subexpr(&syms("+x1+x1+"), 2));
    assert!(is_same_subexpr(&syms("xqxqxq"), 3));
    assert!(!is_same_subexpr(&syms("x1+x1+"), 1));
}

#[test]
fn constants_and_completion_cost() {
    assert!(is_constant(Symbol::Pi));
    assert!(!is_constant(Symbol::X));
    assert!(!is_constant(Symbol::Add));
    let config = GenConfig::default();
    assert_eq!(min_complexity_to_complete(0, &config), 0);
    assert_eq!(min_complexity_to_complete(1, &config), 0);
    assert_eq!(min_complexity_to_complete(3, &config), 8);
    let mut only_div = GenConfig::default();
    only_div.binary_ops = vec![Symbol::Div];
    assert_eq!(min_complexity_to_complete(2, &only_div), 5);
    only_div.binary_ops = vec![];
    assert_eq!(min_complexity_to_complete(3, &only_div), 8);
}

#[test]
fn limits_and_rhs_configuration() {
    let mut config = GenConfig::default();
    config.max_lhs_complexity = 30;
    config.max_rhs_complexity = 40;
    assert_eq!(get_max_complexity(&config, true), 30);
    assert_eq!(get_max_complexity(&config, false), 40);
    assert!(!has_rhs_symbol_overrides(&config));
    config.symbol_max_counts.insert(b'x', 1);
    assert!(exceeds_symbol_limit(&config, &e("x1+"), Symbol::X));
    assert!(!exceeds_symbol_limit(&config, &e("11+"), Symbol::X));
    assert!(!exceeds_symbol_limit(&config, &e("x1+"), Symbol::One));
    config.rhs_constants = Some(vec![Symbol::Pi]);
    assert!(has_rhs_symbol_overrides(&config));
    let rhs = rhs_only_config(&config);
    assert!(!rhs.generate_lhs && rhs.generate_rhs);
    assert_eq!(rhs.constants, vec![Symbol::Pi]);
    assert_eq!(rhs.unary_ops, config.unary_ops);
    assert_eq!(rhs.symbol_max_counts.get(&b'x'), Some(&1));
}

#[test]
fn search_levels() {
    assert_eq!(level_to_complexity(0), (10, 12));
    assert_eq!(level_to_complexity(2), (18, 20));
    assert_eq!(level_to_complexity(u32::MAX), (u32::MAX, u32::MAX));
}

#[test]
fn quick_check_rules() {
    assert_eq!(get_num_type(&syms("2q")), NumType::Algebraic);
    assert_eq!(get_num_type(&syms("pq")), NumType::Transcendental);
    assert_eq!(get_num_type(&syms("3r")), NumType::Rational);
    assert_eq!(get_num_type(&syms("34/")), NumType::Rational);
    assert_eq!(get_num_type(&syms("f")), NumType::Constructible);
    assert_eq!(get_num_type(&syms("ff")), NumType::Algebraic);
    assert_eq!(get_num_type(&syms("f1+")), NumType::Transcendental);
    assert_eq!(get_num_type(&syms("12+")), NumType::Transcendental);
    assert_eq!(get_num_type(&syms("e1+")), NumType::Transcendental);

    let candidates = get_constant_candidates();
    assert_eq!(candidates.len(), CANDIDATE_COUNT);
    assert_eq!(candidates[0], vec![Symbol::One]);
    assert_eq!(candidates[16], syms("12/"));
    assert_eq!(candidates[CANDIDATE_COUNT - 1], syms("fr"));

    let excluded: HashSet<u8> = [b'p'].into_iter().collect();
    let allowed: HashSet<u8> = [b'2', b'q'].into_iter().collect();
    assert!(contains_excluded(&syms("pq"), &excluded));
    assert!(!contains_excluded(&syms("2q"), &excluded));
    let config = FastMatchConfig {
        excluded_symbols: &excluded,
        allowed_symbols: Some(&allowed),
        min_num_type: NumType::Transcendental,
    };
    assert!(passes_symbol_filters(&syms("2q"), &config));
    assert!(!passes_symbol_filters(&syms("3q"), &config));
    assert!(!passes_symbol_filters(&syms("p"), &config));
}
