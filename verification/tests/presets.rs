use ries_rs::presets::Preset;
use ries_rs::symbol::Symbol;

#[test]
fn test_preset_parse() {
    assert_eq!(Preset::from_str("analytic-nt"), Some(Preset::AnalyticNT));
    assert_eq!(Preset::from_str("ANT"), Some(Preset::AnalyticNT));
    assert_eq!(Preset::from_str("physics"), Some(Preset::Physics));
    assert_eq!(Preset::from_str("PHYS"), Some(Preset::Physics));
    assert_eq!(Preset::from_str("invalid"), None);
}

#[test]
fn preset_names_select_their_preset() {
    for p in Preset::all() {
        assert_eq!(Preset::from_str(p.name()), Some(p));
        assert_eq!(Preset::from_lowercase(p.name()), Some(p));
    }
}

#[test]
fn preset_aliases_and_listing() {
    assert_eq!(Preset::from_str("Modular"), Some(Preset::Elliptic));
    assert_eq!(Preset::from_str("catalan"), Some(Preset::Combinatorics));
    assert_eq!(Preset::from_str("NT"), Some(Preset::NumberTheory));
    assert_eq!(Preset::from_str("calc"), Some(Preset::Calculus));
    assert_eq!(Preset::from_lowercase("CALC"), None);
    assert_eq!(Preset::all().len(), 6);
    assert_eq!(Preset::Physics.name(), "physics");
    assert_eq!(
        Preset::Calculus.description(),
        "Calculus: standard functions, no exotic constants"
    );
}

#[test]
fn preset_weight_tables() {
    let w = Preset::Physics.symbol_weights();
    assert_eq!(w.len(), 8);
    assert_eq!(w[0], (Symbol::Pi, 5));
    assert_eq!(w[7], (Symbol::Gamma, 8));
    let nt = Preset::NumberTheory.symbol_weights();
    assert_eq!(nt.len(), 17);
    assert!(nt.contains(&(Symbol::Plastic, 10)));
    let calc = Preset::Calculus.symbol_weights();
    assert_eq!(calc.last(), Some(&(Symbol::TanPi, 9)));
    for p in Preset::all() {
        let w = p.symbol_weights();
        for (i, a) in w.iter().enumerate() {
            for b in &w[i + 1..] {
                assert_ne!(a.0, b.0);
            }
        }
    }
}

fn weight_map(p: Preset) -> std::collections::HashMap<Symbol, u32> {
    p.symbol_weights().into_iter().collect()
}

#[test]
fn test_preset_profile_non_empty() {
    for preset in Preset::all() {
        assert!(
            !preset.symbol_weights().is_empty(),
            "Preset {:?} should have some configuration",
            preset
        );
    }
}

#[test]
fn test_analytic_nt_has_gamma() {
    assert!(weight_map(Preset::AnalyticNT).contains_key(&Symbol::Gamma));
}

#[test]
fn test_number_theory_avoids_transcendentals() {
    let weights = weight_map(Preset::NumberTheory);
    assert!(weights.get(&Symbol::Pi) > Some(&10));
    assert!(weights.get(&Symbol::E) > Some(&10));
}

#[test]
fn preset_names_ignore_case() {
    for p in Preset::all() {
        assert_eq!(Preset::from_str(p.name()), Some(p));
        assert_eq!(Preset::from_str(&p.name().to_uppercase()), Some(p));
    }
    let names: Vec<&str> = Preset::all().iter().map(|q| q.name()).collect();
    assert_eq!(names, vec!["analytic-nt", "elliptic", "combinatorics", "physics", "number-theory", "calculus"]);
    assert_eq!(Preset::from_str("PhYsIcS"), Some(Preset::Physics));
}
