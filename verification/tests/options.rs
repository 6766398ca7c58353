use ries_rs::options::{fast_match_symbol_sets, min_num_type, numeric_modes, ranking_mode_for, NumericModes};
use ries_rs::pool::RankingMode;
use ries_rs::symbol::NumType;
use std::collections::HashSet;

#[test]
fn numeric_modes_from_flags() {
    let m = numeric_modes(true, false, false, false, false);
    assert_eq!(m, NumericModes { integer: true, rational: false, exact: true, integer_replaced: false });
    let m = numeric_modes(false, true, false, false, true);
    assert_eq!(m, NumericModes { integer: false, rational: true, exact: true, integer_replaced: false });
    let m = numeric_modes(false, false, true, true, true);
    assert_eq!(m, NumericModes { integer: true, rational: false, exact: false, integer_replaced: false });
    let m = numeric_modes(false, false, true, false, false);
    assert_eq!(m, NumericModes { integer: false, rational: true, exact: false, integer_replaced: true });
    let m = numeric_modes(false, false, false, true, false);
    assert_eq!(m, NumericModes { integer: false, rational: true, exact: false, integer_replaced: false });
}

#[test]
fn least_number_class() {
    assert_eq!(min_num_type(true, false, true, true, true, false), NumType::Integer);
    assert_eq!(min_num_type(false, true, false, false, false, false), NumType::Rational);
    assert_eq!(min_num_type(false, false, true, true, false, false), NumType::Constructible);
    assert_eq!(min_num_type(false, false, false, true, true, false), NumType::Algebraic);
    assert_eq!(min_num_type(false, false, false, false, true, false), NumType::Liouvillian);
    assert_eq!(min_num_type(false, false, false, false, false, false), NumType::Transcendental);
    assert_eq!(min_num_type(true, false, false, false, false, true), NumType::Transcendental);
}

#[test]
fn ranking_choice() {
    assert_eq!(ranking_mode_for(true, true, true), RankingMode::Complexity);
    assert_eq!(ranking_mode_for(false, true, false), RankingMode::Parity);
    assert_eq!(ranking_mode_for(false, false, true), RankingMode::Parity);
    assert_eq!(ranking_mode_for(false, false, false), RankingMode::Complexity);
}

#[test]
fn fast_match_sets() {
    let a: HashSet<u8> = [b'1', b'2', b'x'].into_iter().collect();
    let r: HashSet<u8> = [b'2', b'x', b'p'].into_iter().collect();
    let e: HashSet<u8> = [b'e'].into_iter().collect();
    let re: HashSet<u8> = [b'q'].into_iter().collect();
    let (ex, al) = fast_match_symbol_sets(Some(&e), Some(&re), Some(&a), Some(&r));
    assert_eq!(ex, [b'e', b'q'].into_iter().collect());
    assert_eq!(al, Some([b'2', b'x'].into_iter().collect()));
    let (ex, al) = fast_match_symbol_sets(None, None, None, Some(&r));
    assert!(ex.is_empty());
    assert_eq!(al, Some(r.clone()));
    let (_, al) = fast_match_symbol_sets(None, None, Some(&a), None);
    assert_eq!(al, Some(a.clone()));
    let (_, al) = fast_match_symbol_sets(None, None, None, None);
    assert_eq!(al, None);
}
