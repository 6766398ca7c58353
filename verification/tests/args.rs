use std::collections::HashSet;

use ries_rs::args::{
    canon_reduction_enabled, memory_size_parts, parse_symbol_count_limits,
    parse_symbol_names_from_cli, parse_symbol_sets, parse_symbol_weights_from_cli,
    parse_user_constant_from_cli, sym_description,
};
use ries_rs::symbol::Symbol;

#[test]
fn test_parse_symbol_sets() {
    let (allowed, excluded) = parse_symbol_sets(Some("abc"), Some("d"), None);
    assert_eq!(allowed, Some(vec![b'a', b'b', b'c'].into_iter().collect()));
    assert_eq!(excluded, Some(vec![b'd'].into_iter().collect()));

    let (_, excluded) = parse_symbol_sets(None, Some("abc"), Some("all"));
    assert!(excluded.is_none());
}

#[test]
fn symbol_sets_reenable_moves_bytes() {
    let (allowed, excluded) = parse_symbol_sets(Some("12"), Some("+-p"), Some("p3"));
    let expect_allowed: HashSet<u8> = [b'1', b'2', b'p', b'3'].into_iter().collect();
    let expect_excluded: HashSet<u8> = [b'+', b'-'].into_iter().collect();
    assert_eq!(allowed, Some(expect_allowed));
    assert_eq!(excluded, Some(expect_excluded));

    let (allowed, excluded) = parse_symbol_sets(None, None, Some("x"));
    assert!(allowed.is_none());
    assert!(excluded.is_none());
}

#[test]
fn count_limits_read_counts_and_symbols() {
    let limits = parse_symbol_count_limits("x 2+ 3 q").unwrap();
    assert_eq!(limits.get(&b'x'), Some(&1));
    assert_eq!(limits.get(&b'+'), Some(&2));
    // A count followed by white space is dropped, so `q` gets the default.
    assert_eq!(limits.get(&b'q'), Some(&1));
    assert_eq!(limits.len(), 3);

    let limits = parse_symbol_count_limits("2x5x").unwrap();
    assert_eq!(limits.get(&b'x'), Some(&5));

    let limits = parse_symbol_count_limits("99999999999x").unwrap();
    assert_eq!(limits.get(&b'x'), Some(&u32::MAX));

    assert!(parse_symbol_count_limits("").unwrap().is_empty());
}

#[test]
fn count_limits_errors() {
    assert_eq!(
        parse_symbol_count_limits("x3"),
        Err("Trailing count with no symbol in -O/--op-limits".to_string())
    );
    assert_eq!(
        parse_symbol_count_limits("0x"),
        Err("Invalid zero count for symbol 'x'".to_string())
    );
    assert_eq!(
        parse_symbol_count_limits("2!"),
        Err("Unknown symbol '!' in -O/--op-limits".to_string())
    );
}

#[test]
fn symbol_names_from_cli() {
    let mut names = Vec::new();
    assert_eq!(parse_symbol_names_from_cli(&mut names, ":p:PI skip :e:EULER"), Ok(()));
    assert_eq!(
        names,
        vec![(Symbol::Pi, "PI".to_string()), (Symbol::E, "EULER".to_string())]
    );

    let mut names = Vec::new();
    let r = parse_symbol_names_from_cli(&mut names, ":p:PI :pq");
    assert_eq!(r, Err("Invalid symbol name format: :pq".to_string()));
    assert_eq!(names, vec![(Symbol::Pi, "PI".to_string())]);

    let mut names = Vec::new();
    assert_eq!(
        parse_symbol_names_from_cli(&mut names, "::x"),
        Err("Empty symbol in --symbol-names".to_string())
    );
    assert_eq!(
        parse_symbol_names_from_cli(&mut names, ":p:"),
        Err("Empty replacement name in --symbol-names: :p:".to_string())
    );
    assert_eq!(
        parse_symbol_names_from_cli(&mut names, ":!:bang"),
        Err("Unknown symbol in --symbol-names: !".to_string())
    );
}

#[test]
fn symbol_weights_from_cli() {
    let mut weights = Vec::new();
    assert_eq!(parse_symbol_weights_from_cli(&mut weights, ":W:20 :p:+25"), Ok(()));
    assert_eq!(weights, vec![(Symbol::LambertW, 20), (Symbol::Pi, 25)]);

    let mut weights = Vec::new();
    assert_eq!(
        parse_symbol_weights_from_cli(&mut weights, ":p:-1"),
        Err("Invalid weight in --symbol-weights: :p:-1".to_string())
    );
    assert_eq!(
        parse_symbol_weights_from_cli(&mut weights, ":p:4294967296"),
        Err("Invalid weight in --symbol-weights: :p:4294967296".to_string())
    );
    assert_eq!(
        parse_symbol_weights_from_cli(&mut weights, ":!:3"),
        Err("Unknown symbol in --symbol-weights: !".to_string())
    );
    assert_eq!(
        parse_symbol_weights_from_cli(&mut weights, ":W20"),
        Err("Invalid symbol weight format: :W20".to_string())
    );
    assert!(weights.is_empty());
}

#[test]
fn canon_reduction_values() {
    assert!(!canon_reduction_enabled(None));
    assert!(!canon_reduction_enabled(Some("")));
    assert!(!canon_reduction_enabled(Some("  OFF ")));
    assert!(!canon_reduction_enabled(Some("None")));
    assert!(!canon_reduction_enabled(Some("0")));
    assert!(!canon_reduction_enabled(Some("\tFalse\n")));
    assert!(canon_reduction_enabled(Some("on")));
    assert!(canon_reduction_enabled(Some("1")));
    assert!(canon_reduction_enabled(Some("offf")));
}

#[test]
fn symbol_descriptions() {
    assert_eq!(sym_description(Symbol::Three), "integer");
    assert_eq!(sym_description(Symbol::Pi), "pi = 3.14159...");
    assert_eq!(sym_description(Symbol::Atan2), "2-argument arctangent");
    assert_eq!(sym_description(Symbol::UserConstant3), "");
}

#[test]
fn user_constant_fields_split() {
    let (w, name, desc, value) = parse_user_constant_from_cli("12:k:Khinchin:2.685452").unwrap();
    assert_eq!(w, 12);
    assert_eq!(name, "k");
    assert_eq!(desc, "Khinchin");
    assert_eq!(value, "2.685452");
    let (w, name, desc, value) = parse_user_constant_from_cli("+3:c::1").unwrap();
    assert_eq!((w, name.as_str(), desc.as_str(), value.as_str()), (3, "c", "", "1"));
}

#[test]
fn user_constant_errors() {
    assert_eq!(
        parse_user_constant_from_cli("1:a:b").unwrap_err(),
        "Expected 4 colon-separated parts, got 3"
    );
    assert_eq!(
        parse_user_constant_from_cli("1:a:b:c:d").unwrap_err(),
        "Expected 4 colon-separated parts, got 5"
    );
    assert_eq!(parse_user_constant_from_cli("w:a:b:1").unwrap_err(), "Invalid weight: w");
    assert_eq!(parse_user_constant_from_cli("-1:a:b:1").unwrap_err(), "Invalid weight: -1");
    assert_eq!(
        parse_user_constant_from_cli("4::b:1").unwrap_err(),
        "Constant name cannot be empty"
    );
}

#[test]
fn memory_size_suffixes() {
    assert_eq!(memory_size_parts("512M"), Some(("512".to_string(), 1024 * 1024)));
    assert_eq!(memory_size_parts("2G"), Some(("2".to_string(), 1024 * 1024 * 1024)));
    assert_eq!(memory_size_parts("1024"), Some(("1024".to_string(), 1)));
    assert_eq!(memory_size_parts("1k"), Some(("1".to_string(), 1024)));
    assert_eq!(memory_size_parts(" 1.5 t "), Some(("1.5".to_string(), 1u64 << 40)));
    assert_eq!(memory_size_parts("   "), None);
    assert_eq!(memory_size_parts("3X"), None);
    assert_eq!(memory_size_parts("inf"), None);
}
