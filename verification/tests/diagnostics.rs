use ries_rs::diagnostics::parse_diagnostics;

#[test]
fn test_parse_diagnostics_empty() {
    let opts = parse_diagnostics(None, false, false);
    assert!(!opts.show_work);
    assert!(!opts.show_stats);
    assert!(opts.unsupported_channels.is_empty());
}

#[test]
fn test_parse_diagnostics_show_work() {
    let opts = parse_diagnostics(Some("s"), false, false);
    assert!(opts.show_work);
    assert!(!opts.show_stats);
}

#[test]
fn test_parse_diagnostics_show_stats() {
    let opts = parse_diagnostics(Some("y"), false, false);
    assert!(!opts.show_work);
    assert!(opts.show_stats);
}

#[test]
fn test_parse_diagnostics_multiple_channels() {
    let opts = parse_diagnostics(Some("sny"), false, false);
    assert!(opts.show_work);
    assert!(opts.show_stats);
    assert!(opts.show_newton);
}

#[test]
fn test_parse_diagnostics_flags_override() {
    let opts = parse_diagnostics(None, true, true);
    assert!(opts.show_work);
    assert!(opts.show_stats);
}

#[test]
fn test_parse_diagnostics_unsupported_channel() {
    let opts = parse_diagnostics(Some("z9"), false, false);
    assert_eq!(opts.unsupported_channels, vec!['9']);
}

#[test]
fn diagnostics_every_active_channel() {
    let opts = parse_diagnostics(Some("NMoaBgn"), false, false);
    assert!(opts.show_work);
    assert!(opts.show_stats);
    assert!(opts.show_match_checks);
    assert!(opts.show_pruned_arith);
    assert!(opts.show_pruned_range);
    assert!(opts.show_db_adds);
    assert!(opts.show_newton);
    assert!(opts.unsupported_channels.is_empty());
}

#[test]
fn diagnostics_unknown_channels_keep_order_and_repeats() {
    let opts = parse_diagnostics(Some("9Cq!9"), false, false);
    assert_eq!(opts.unsupported_channels, vec!['9', '!', '9']);
    assert!(!opts.show_work);
}
