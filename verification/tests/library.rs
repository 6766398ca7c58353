use ries_rs::classes::{binary_class, leaf_class, unary_class};
use ries_rs::canon::{canonical_expression_key, digit_signature, match_is_numeric_anagram, symbol_key};
use ries_rs::expr::Expression;
use ries_rs::metrics::{count_costly, count_operators, family_count_of, OperatorFrequency};
use ries_rs::pool::{ranking_mode_name, PoolStats, RankingMode, SignatureKey};
use ries_rs::post_process::{expression_constraints_from_args, kept_equations, user_type_arrays, ExpressionConstraintArgs};
use ries_rs::pslq::{coefficients_product, gcd_i128, max_abs_matrix_entry, normalize_relation};
use ries_rs::relation_text::format_relation;
use ries_rs::report::{select_category, Category};
use ries_rs::runtime::{effective_thread_count, peak_memory_bytes, thread_count_for, CliExit};
use ries_rs::symbol::{NumType, Symbol};

#[test]
fn symbol_bytes_round_trip() {
    for b in 0u8..=255 {
        if let Some(s) = Symbol::from_byte(b) {
            assert_eq!(s.to_byte(), b);
        }
    }
    for s in Symbol::constants().into_iter().chain(Symbol::unary_ops()).chain(Symbol::binary_ops()) {
        assert_eq!(Symbol::from_byte(s.to_byte()), Some(s));
    }
    assert_eq!(Symbol::Pi.weight(), 14);
    assert_eq!(Symbol::X.weight(), 15);
    assert_eq!(Symbol::Square.weight(), 9);
    assert_eq!(Symbol::UserConstant3.name(), "u3");
    assert_eq!(Symbol::Pi.display_name(), Symbol::Pi.name().to_string());
}

#[test]
fn canonical_keys_ignore_operand_order() {
    let a = canonical_expression_key(&Expression::parse("x2+").unwrap()).unwrap();
    let b = canonical_expression_key(&Expression::parse("2x+").unwrap()).unwrap();
    assert_eq!(a, b);
    let c = canonical_expression_key(&Expression::parse("x2-").unwrap()).unwrap();
    let d = canonical_expression_key(&Expression::parse("2x-").unwrap()).unwrap();
    assert_ne!(c, d);
    assert!(canonical_expression_key(&Expression::from_symbols(&[Symbol::One, Symbol::Two])).is_none());
    assert_eq!(symbol_key(Symbol::Add), "+");
    assert_eq!(symbol_key(Symbol::UserConstant0), "#128");
}

#[test]
fn digit_signatures_and_anagrams() {
    let lhs = Expression::parse("x21+*").unwrap();
    let rhs = Expression::parse("12*").unwrap();
    assert_eq!(digit_signature(&lhs), "12");
    assert!(match_is_numeric_anagram(&lhs, &rhs));
    let none = Expression::parse("xp*").unwrap();
    assert!(!match_is_numeric_anagram(&none, &none));
}

#[test]
fn integer_relation_helpers() {
    assert_eq!(gcd_i128(12, 18), 6);
    assert_eq!(gcd_i128(-12, 18), 6);
    assert_eq!(gcd_i128(0, -5), -5);
    assert_eq!(gcd_i128(-7, 0), -7);
    assert_eq!(normalize_relation(vec![0, 0], 10), None);
    assert_eq!(normalize_relation(vec![-4, 6, 0], 10), Some(vec![2, -3, 0]));
    assert_eq!(normalize_relation(vec![0, 3, -9], 10), Some(vec![0, 1, -3]));
    assert_eq!(normalize_relation(vec![22, 7], 10), None);
    assert_eq!(max_abs_matrix_entry(&[vec![1, -9], vec![], vec![4]]), 9);
    assert_eq!(max_abs_matrix_entry(&[]), 0);
    assert_eq!(
        coefficients_product(&[-1, 1], 2),
        vec![vec![-1, -1], vec![-1, 1], vec![1, -1], vec![1, 1]]
    );
    assert_eq!(coefficients_product(&[5], 0), vec![Vec::<i64>::new()]);
    assert!(coefficients_product(&[], 3).is_empty());
}

#[test]
fn operator_frequencies() {
    let mut freq = OperatorFrequency::new();
    let lhs = Expression::parse("xx*").unwrap();
    let rhs = Expression::parse("2").unwrap();
    freq.add(&lhs, &rhs);
    assert_eq!(freq.total(), 4);
    assert_eq!(freq.symbol_count(Symbol::X), 2);
    assert_eq!(freq.symbol_count(Symbol::Two), 1);
    assert_eq!(freq.symbol_count(Symbol::Pi), 0);
    assert_eq!(freq.total_bigrams(), 2);
    assert_eq!(freq.bigram_count(Symbol::X, Symbol::X), 1);
    assert_eq!(freq.bigram_count(Symbol::X, Symbol::Mul), 1);
    assert_eq!(freq.bigram_count(Symbol::Mul, Symbol::Two), 0);
    assert_eq!(count_operators(&lhs), 1);
    assert_eq!(count_operators(&Expression::parse("xqn1+").unwrap()), 3);
}

#[test]
fn pool_helpers() {
    assert_eq!(ranking_mode_name(RankingMode::Complexity), "complexity");
    assert_eq!(ranking_mode_name(RankingMode::Parity), "parity");
    assert_eq!(RankingMode::default(), RankingMode::Complexity);
    let stats = PoolStats::default();
    assert_eq!(stats.insertions + stats.evictions + stats.rejections_error + stats.rejections_dedupe, 0);
    let key = SignatureKey::from_expressions(&Expression::parse("x1+").unwrap(), &Expression::parse("p").unwrap());
    assert_eq!(key.bytes(), b"x1+=p");
}

#[test]
fn categories_and_exits() {
    assert_eq!(Category::Exact.name(), "Exact matches");
    assert_eq!(Category::Stable.description(), "Matches with robust numerical properties");
    let usage = CliExit::usage("bad".to_string());
    assert_eq!((usage.message.as_str(), usage.code), ("bad", 1));
    let config = CliExit::config("worse".to_string());
    assert_eq!((config.message.as_str(), config.code), ("worse", 2));
}

#[test]
fn constraint_options_from_flags() {
    let (c, f) = user_type_arrays(&[NumType::Integer], &[]);
    assert_eq!(c[0], NumType::Integer);
    assert_eq!(c[1], NumType::Transcendental);
    assert_eq!(f[0], NumType::Transcendental);
    let args = ExpressionConstraintArgs {
        rational_exponents: true,
        any_exponents: true,
        rational_trig_args: true,
        any_trig_args: false,
        max_trig_cycles: None,
    };
    let (opts, active) = expression_constraints_from_args(&[NumType::Rational], &[], args);
    assert!(!opts.rational_exponents);
    assert!(opts.rational_trig_args);
    assert!(active);
    assert_eq!(opts.user_constant_types[0], NumType::Rational);
    let quiet = ExpressionConstraintArgs {
        rational_exponents: false,
        any_exponents: false,
        rational_trig_args: false,
        any_trig_args: false,
        max_trig_cycles: None,
    };
    assert!(!expression_constraints_from_args(&[], &[], quiet).1);
}

#[test]
fn peak_memory_units() {
    assert_eq!(peak_memory_bytes(None, true), None);
    assert_eq!(peak_memory_bytes(Some(-1), true), None);
    assert_eq!(peak_memory_bytes(Some(2048), true), Some(2048 * 1024));
    assert_eq!(peak_memory_bytes(Some(2048), false), Some(2048));
    assert_eq!(peak_memory_bytes(Some(i64::MAX), true), Some(u64::MAX));
}

#[test]
fn operator_families_and_costly_functions() {
    let lhs = Expression::parse("xq2+").unwrap();
    let rhs = Expression::parse("pl").unwrap();
    assert_eq!(family_count_of(&lhs, &rhs), 2);
    assert_eq!(count_costly(&rhs), 1);
    assert_eq!(count_costly(&lhs), 0);
    let trig = Expression::parse("xS").unwrap();
    assert_eq!(family_count_of(&trig, &rhs), 2);
    assert_eq!(family_count_of(&lhs, &Expression::parse("2pSl*").unwrap()), 3);
    assert_eq!(family_count_of(&Expression::parse("x").unwrap(), &Expression::parse("2").unwrap()), 0);
}

fn pair(l: &str, r: &str) -> (Expression, Expression) {
    (Expression::parse(l).unwrap(), Expression::parse(r).unwrap())
}

#[test]
fn match_filters_keep_in_order() {
    let eqs = vec![pair("x1+", "3"), pair("1x+", "3"), pair("x2+", "4"), pair("xx*", "9")];
    assert_eq!(kept_equations(&eqs, None, false, false), vec![0, 1, 2, 3]);
    assert_eq!(kept_equations(&eqs, None, false, true), vec![0, 2, 3]);
    let anagrams = vec![pair("x2+", "2"), pair("x1+", "3"), pair("x", "5")];
    assert_eq!(kept_equations(&anagrams, None, true, false), vec![0]);
    let (opts, active) = expression_constraints_from_args(
        &[],
        &[],
        ExpressionConstraintArgs {
            rational_exponents: false,
            any_exponents: false,
            rational_trig_args: false,
            any_trig_args: false,
            max_trig_cycles: Some(0),
        },
    );
    assert!(active);
    let trig = vec![pair("xS", "1"), pair("x", "1")];
    assert_eq!(kept_equations(&trig, Some(opts), false, false), vec![1]);
}

#[test]
fn category_selection_dedupes() {
    let eqs = vec![pair("x1+", "3"), pair("x1+", "4"), pair("x2+", "3"), pair("x1+", "3")];
    let order = vec![0, 1, 2, 3];
    assert_eq!(select_category(Category::Exact, &eqs, &order, 3), vec![0, 1, 2]);
    assert_eq!(select_category(Category::Best, &eqs, &order, 8), vec![0, 2]);
    assert_eq!(select_category(Category::Elegant, &eqs, &order, 8), vec![0, 2]);
    assert_eq!(select_category(Category::Interesting, &eqs, &order, 8), vec![0, 1, 2]);
    assert_eq!(select_category(Category::Interesting, &eqs, &order, 2), vec![0, 1]);
    assert_eq!(select_category(Category::Stable, &eqs, &vec![3, 2, 1, 0], 8), vec![3, 2]);
    assert!(select_category(Category::Best, &eqs, &order, 0).is_empty());
}

#[test]
fn value_classes() {
    assert_eq!(leaf_class(Symbol::Seven), Some(NumType::Integer));
    assert_eq!(leaf_class(Symbol::X), Some(NumType::Integer));
    assert_eq!(leaf_class(Symbol::Phi), Some(NumType::Algebraic));
    assert_eq!(leaf_class(Symbol::Pi), Some(NumType::Transcendental));
    assert_eq!(leaf_class(Symbol::UserConstant0), None);
    assert_eq!(unary_class(Symbol::Recip, NumType::Integer), NumType::Rational);
    assert_eq!(unary_class(Symbol::Sqrt, NumType::Rational), NumType::Constructible);
    assert_eq!(unary_class(Symbol::Sqrt, NumType::Algebraic), NumType::Algebraic);
    assert_eq!(unary_class(Symbol::Ln, NumType::Integer), NumType::Transcendental);
    assert_eq!(binary_class(Symbol::Div, NumType::Integer, NumType::Integer), NumType::Rational);
    assert_eq!(binary_class(Symbol::Add, NumType::Integer, NumType::Algebraic), NumType::Algebraic);
    assert_eq!(binary_class(Symbol::Pow, NumType::Rational, NumType::Integer), NumType::Rational);
    assert_eq!(binary_class(Symbol::Pow, NumType::Integer, NumType::Rational), NumType::Transcendental);
    assert_eq!(binary_class(Symbol::Root, NumType::Transcendental, NumType::Integer), NumType::Algebraic);
}

#[test]
fn filter_matches_applies_numeric_anagram() {
    let matches = vec![pair("x1+", "1"), pair("x2*", "1")];
    let kept = kept_equations(&matches, None, true, false);
    assert_eq!(kept.len(), 1);
    assert_eq!(matches[kept[0]].0.to_postfix(), "x1+");
}

#[test]
fn thread_count_follows_parallel_setting() {
    assert_eq!(effective_thread_count(false), 1);
    assert!(effective_thread_count(true) >= 1);
}

#[test]
fn thread_count_for_pool_sizes() {
    assert_eq!(thread_count_for(false, 8), 1);
    assert_eq!(thread_count_for(true, 8), 8);
    assert_eq!(thread_count_for(true, 1), 1);
}

#[test]
fn canonical_keys_of_given_texts() {
    let k = |s: &str| canonical_expression_key(&Expression::parse(s).unwrap());
    assert_eq!(k("x1+"), Some("(1+x)".to_string()));
    assert_eq!(k("1x+"), Some("(1+x)".to_string()));
    assert_eq!(k("x2*"), Some("(2*x)".to_string()));
    assert_eq!(k("x1-"), Some("(x-1)".to_string()));
    assert_eq!(k("1x-"), Some("(1-x)".to_string()));
    assert_eq!(k("xq"), Some("q(x)".to_string()));
}

#[test]
fn relation_texts() {
    let names: Vec<String> = ["x", "pi", "e", "1"].iter().map(|s| s.to_string()).collect();
    assert_eq!(format_relation(&vec![1, -2, 0, 0], &names), "x - 2*pi");
    assert_eq!(format_relation(&vec![-1, 1, 0, 0], &names), "-x + pi");
    assert_eq!(format_relation(&vec![3, 0, -1, 5], &names), "3*x - e + 5*1");
    assert_eq!(format_relation(&vec![0, 0, 0, 0], &names), "0");
    assert_eq!(format_relation(&vec![1, 1], &names[..1].to_vec()), "x");
    assert_eq!(format_relation(&vec![i64::MIN], &names), "-9223372036854775808*x");
}
