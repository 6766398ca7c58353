use std::collections::HashSet;

use ries_rs::config::{build_gen_config, filter_symbols};
use ries_rs::symbol::{NumType, Symbol};

#[test]
fn test_build_gen_config_defaults() {
    let config = build_gen_config(
        10,
        12,
        NumType::Transcendental,
        None,
        None,
        None,
        None,
        None,
        None,
        None,
        None,
        0,
        0,
        false,
    )
    .expect("should build default config");

    assert_eq!(config.max_lhs_complexity, 10);
    assert_eq!(config.max_rhs_complexity, 12);
    assert_eq!(config.min_num_type, NumType::Transcendental);
    assert!(!config.constants.is_empty());
    assert!(!config.unary_ops.is_empty());
    assert!(!config.binary_ops.is_empty());
}

#[test]
fn test_build_gen_config_with_exclude() {
    let config = build_gen_config(
        10,
        12,
        NumType::Transcendental,
        Some("p"),
        None,
        None,
        None,
        None,
        None,
        None,
        None,
        0,
        0,
        false,
    )
    .expect("should build config with exclude");

    assert!(!config.constants.contains(&Symbol::Pi));
}

#[test]
fn test_build_gen_config_with_only_symbols() {
    let config = build_gen_config(
        10,
        12,
        NumType::Transcendental,
        None,
        None,
        Some("123"),
        None,
        None,
        None,
        None,
        None,
        0,
        0,
        false,
    )
    .expect("should build config with only symbols");

    assert!(config.constants.contains(&Symbol::One));
    assert!(config.constants.contains(&Symbol::Two));
    assert!(config.constants.contains(&Symbol::Three));
    assert!(!config.constants.contains(&Symbol::Four));
    assert!(!config.constants.contains(&Symbol::Pi));
}

#[test]
fn test_filter_symbols() {
    let symbols = Symbol::constants();
    let allowed: HashSet<u8> = [b'1', b'2', b'3'].into_iter().collect();
    let excluded: HashSet<u8> = [b'2'].into_iter().collect();

    let filtered = filter_symbols(&symbols, Some(&allowed), None);
    assert!(filtered.contains(&Symbol::One));
    assert!(filtered.contains(&Symbol::Two));
    assert!(filtered.contains(&Symbol::Three));
    assert!(!filtered.contains(&Symbol::Four));

    let filtered = filter_symbols(&symbols, Some(&allowed), Some(&excluded));
    assert!(filtered.contains(&Symbol::One));
    assert!(!filtered.contains(&Symbol::Two));
    assert!(filtered.contains(&Symbol::Three));
}

#[test]
fn gen_config_user_constants_and_rhs_overrides() {
    let config = build_gen_config(
        20,
        20,
        NumType::Integer,
        Some("\u{81}"),
        None,
        None,
        None,
        None,
        Some("1x"),
        Some("2+"),
        None,
        3,
        2,
        true,
    )
    .expect("valid options");
    // User constants 0 and 2 are added; 1 is excluded by its byte.
    let n = config.constants.len();
    assert_eq!(config.constants[n - 2], Symbol::UserConstant0);
    assert_eq!(config.constants[n - 1], Symbol::UserConstant2);
    assert_eq!(config.symbol_max_counts.get(&b'+'), Some(&2));
    assert_eq!(config.rhs_constants, Some(vec![Symbol::One, Symbol::X]));
    assert_eq!(config.rhs_unary_ops, Some(vec![]));
    assert_eq!(config.rhs_binary_ops, Some(vec![]));
    assert!(config.rhs_symbol_max_counts.is_none());
    assert_eq!(config.user_constant_count, 3);
    assert!(config.show_pruned_arith);
}

#[test]
fn gen_config_reports_limit_errors() {
    let r = build_gen_config(
        10, 12, NumType::Transcendental, None, None, None, None, None, None, Some("0x"), Some("3"), 0, 0,
        false,
    );
    assert_eq!(r.err(), Some("Invalid zero count for symbol 'x'".to_string()));
    let r = build_gen_config(
        10, 12, NumType::Transcendental, None, None, None, None, None, None, None, Some("3"), 0, 0,
        false,
    );
    assert_eq!(r.err(), Some("Trailing count with no symbol in -O/--op-limits".to_string()));
}
