use ries_rs::profile::{merge_by_name, ProfileError, read_profile_line, ProfileLine};
use ries_rs::symbol::Symbol;

#[test]
fn test_parse_user_constant() {
    let line = read_profile_line(r#"-X "4:gamma:Euler's constant:0.5772156649""#).unwrap();
    match line {
        ProfileLine::Constant { weight, name, description, value } => {
            assert_eq!(name, "gamma");
            assert_eq!(weight, 4);
            assert_eq!(description, "Euler's constant");
            let v: f64 = value.parse().unwrap();
            assert!((v - 0.5772156649).abs() < 1e-10);
        }
        _ => panic!("expected a constant"),
    }
}

#[test]
fn test_parse_symbol_names() {
    let line = read_profile_line("--symbol-names :p:π :e:ℯ").unwrap();
    match line {
        ProfileLine::SymbolNames(names) => {
            assert_eq!(names, vec![(Symbol::Pi, "π".to_string()), (Symbol::E, "ℯ".to_string())]);
        }
        _ => panic!("expected symbol names"),
    }
}

#[test]
fn test_parse_symbol_weights() {
    let line = read_profile_line("--symbol-weights :W:20 :p:25").unwrap();
    match line {
        ProfileLine::SymbolWeights(weights) => {
            assert_eq!(weights, vec![(Symbol::LambertW, 20), (Symbol::Pi, 25)]);
        }
        _ => panic!("expected symbol weights"),
    }
}

#[test]
fn profile_blank_comment_unknown_and_include() {
    assert!(matches!(read_profile_line("   "), Ok(ProfileLine::Blank)));
    assert!(matches!(read_profile_line("  # note"), Ok(ProfileLine::Blank)));
    assert!(matches!(read_profile_line("-S 123"), Ok(ProfileLine::Unknown)));
    match read_profile_line("--include \"more.ries\"") {
        Ok(ProfileLine::Include(p)) => assert_eq!(p, "more.ries"),
        _ => panic!("expected an include"),
    }
    match read_profile_line("--include base") {
        Ok(ProfileLine::Include(p)) => assert_eq!(p, "base"),
        _ => panic!("expected an include"),
    }
    assert_eq!(
        read_profile_line("--include   ").err(),
        Some("--include requires a filename".to_string())
    );
}

#[test]
fn profile_constant_and_function_errors() {
    assert_eq!(
        read_profile_line("-X \"4:a:b").err(),
        Some("Unclosed quote in -X directive".to_string())
    );
    assert_eq!(
        read_profile_line("-X 4:a:b").err(),
        Some("Invalid -X format: expected 4 colon-separated parts, got 3".to_string())
    );
    assert_eq!(
        read_profile_line("-X w:a:b:1").err(),
        Some("Invalid weight: w".to_string())
    );
    match read_profile_line("-X 7:c::2.5") {
        Ok(ProfileLine::Constant { weight, name, description, value }) => {
            assert_eq!((weight, name.as_str(), description.as_str(), value.as_str()), (7, "c", "", "2.5"));
        }
        _ => panic!("expected a constant"),
    }
    match read_profile_line("--define \"5:sinh:hyperbolic sine:E|r-2/\" trailing") {
        Ok(ProfileLine::Function(d)) => assert_eq!(d, "5:sinh:hyperbolic sine:E|r-2/"),
        _ => panic!("expected a function"),
    }
    assert_eq!(
        read_profile_line("--define \"open").err(),
        Some("Unclosed quote in --define directive".to_string())
    );
}

#[test]
fn profile_symbol_lines_are_lenient() {
    match read_profile_line("--symbol-names :p:PI junk :!:bang :pq :e:") {
        Ok(ProfileLine::SymbolNames(n)) => {
            assert_eq!(n, vec![(Symbol::Pi, "PI".to_string()), (Symbol::E, String::new())])
        }
        _ => panic!("expected names"),
    }
    assert_eq!(
        read_profile_line("--symbol-names ::x").err(),
        Some("Empty symbol in --symbol-names".to_string())
    );
    assert_eq!(
        read_profile_line("--symbol-weights :p:x").err(),
        Some("Invalid weight in --symbol-weights: p:x".to_string())
    );
    match read_profile_line("--symbol-weights :!:3 :q:4") {
        Ok(ProfileLine::SymbolWeights(w)) => assert_eq!(w, vec![(Symbol::Sqrt, 4)]),
        _ => panic!("expected weights"),
    }
}

#[test]
fn profile_error_messages() {
    let io = ProfileError::IoError("a.ries".to_string(), "No such file".to_string());
    assert_eq!(io.message(), "Error reading a.ries: No such file");
    let parse = ProfileError::ParseError("b.ries".to_string(), 12, "Invalid weight: w".to_string());
    assert_eq!(parse.message(), "Parse error in b.ries at line 12: Invalid weight: w");
    let bad = ProfileError::ValidationError("Constant name cannot be empty".to_string());
    assert_eq!(bad.message(), "Validation error: Constant name cannot be empty");
}

#[test]
fn merge_plan_keeps_distinct_names() {
    let base = vec!["a".to_string()];
    let other = vec!["b".to_string()];
    assert_eq!(merge_by_name(&base, &other), vec![(false, 0), (true, 0)]);
}

#[test]
fn merge_plan_replaces_same_names() {
    let base = vec!["a".to_string(), "b".to_string(), "c".to_string()];
    let other = vec!["b".to_string(), "d".to_string(), "a".to_string()];
    assert_eq!(
        merge_by_name(&base, &other),
        vec![(false, 2), (true, 0), (true, 1), (true, 2)]
    );
    let dup = vec!["x".to_string(), "x".to_string()];
    assert_eq!(merge_by_name(&Vec::new(), &dup), vec![(true, 1)]);
    assert_eq!(merge_by_name(&base, &Vec::new()), vec![(false, 0), (false, 1), (false, 2)]);
}
