//! Built-in domain presets: their names, descriptions and lookup.

use vstd::prelude::*;
use crate::symbol::Symbol;
use crate::text::{ascii_lower_text, ascii_upper_text, lemma_upper_then_lower, is_ascii_text, lowercase_of, str_equals, to_lowercase};

verus! {

/// Available built-in presets.
#[derive(Debug, Clone, Copy, PartialEq, Eq, Structural, Hash)]
pub enum Preset {
    /// Analytic number theory: zeta values, gamma, log, powers of pi.
    AnalyticNT,
    /// Elliptic and modular constants.
    Elliptic,
    /// Combinatorics: Catalan, Apéry, polylog patterns.
    Combinatorics,
    /// Physics: pi, log, gamma, zeta, Clausen-type constants.
    Physics,
    /// Number theory: rational and algebraic focus.
    NumberTheory,
    /// Calculus: standard functions, no exotic constants.
    Calculus,
}

/// The preset that an already lowercased name or alias selects.
pub open spec fn preset_named(t: Seq<char>) -> Option<Preset> {
    if t == "analytic-nt"@ || t == "ant"@ || t == "analytic"@ {
        Some(Preset::AnalyticNT)
    } else if t == "elliptic"@ || t == "modular"@ {
        Some(Preset::Elliptic)
    } else if t == "combinatorics"@ || t == "combo"@ || t == "catalan"@ {
        Some(Preset::Combinatorics)
    } else if t == "physics"@ || t == "phys"@ {
        Some(Preset::Physics)
    } else if t == "number-theory"@ || t == "nt"@ || t == "algebraic"@ {
        Some(Preset::NumberTheory)
    } else if t == "calculus"@ || t == "calc"@ {
        Some(Preset::Calculus)
    } else {
        None
    }
}

impl Preset {
    /// The name of the preset on the command line.
    pub open spec fn name_of(self) -> Seq<char> {
        match self {
            Preset::AnalyticNT => "analytic-nt"@,
            Preset::Elliptic => "elliptic"@,
            Preset::Combinatorics => "combinatorics"@,
            Preset::Physics => "physics"@,
            Preset::NumberTheory => "number-theory"@,
            Preset::Calculus => "calculus"@,
        }
    }

    /// The name of the preset on the command line.
    pub fn name(&self) -> (r: &'static str)
        ensures
            r@ == self.name_of(),
    {
        match self {
            Preset::AnalyticNT => "analytic-nt",
            Preset::Elliptic => "elliptic",
            Preset::Combinatorics => "combinatorics",
            Preset::Physics => "physics",
            Preset::NumberTheory => "number-theory",
            Preset::Calculus => "calculus",
        }
    }

    /// One-line description of the preset.
    pub open spec fn description_of(self) -> Seq<char> {
        match self {
            Preset::AnalyticNT => "Analytic number theory: ζ values, Γ, log, π powers"@,
            Preset::Elliptic => "Elliptic/modular: K(k), E(k), Γ(1/4), q-series constants"@,
            Preset::Combinatorics => "Combinatorics: Catalan, Apéry, polylog patterns"@,
            Preset::Physics => "Physics: π, log, γ, ζ, Clausen-type constants"@,
            Preset::NumberTheory => "Number theory: rational/algebraic focus"@,
            Preset::Calculus => "Calculus: standard functions, no exotic constants"@,
        }
    }

    /// One-line description of the preset.
    pub fn description(&self) -> (r: &'static str)
        ensures
            r@ == self.description_of(),
    {
        match self {
            Preset::AnalyticNT => "Analytic number theory: ζ values, Γ, log, π powers",
            Preset::Elliptic => "Elliptic/modular: K(k), E(k), Γ(1/4), q-series constants",
            Preset::Combinatorics => "Combinatorics: Catalan, Apéry, polylog patterns",
            Preset::Physics => "Physics: π, log, γ, ζ, Clausen-type constants",
            Preset::NumberTheory => "Number theory: rational/algebraic focus",
            Preset::Calculus => "Calculus: standard functions, no exotic constants",
        }
    }

    /// The preset that the already lowercased name or alias `lowered`
    /// selects, if any.
    pub fn from_lowercase(lowered: &str) -> (r: Option<Self>)
        ensures
            r == preset_named(lowered@),
    {
        if str_equals(lowered, "analytic-nt") || str_equals(lowered, "ant") || str_equals(
            lowered,
            "analytic",
        ) {
            Some(Preset::AnalyticNT)
        } else if str_equals(lowered, "elliptic") || str_equals(lowered, "modular") {
            Some(Preset::Elliptic)
        } else if str_equals(lowered, "combinatorics") || str_equals(lowered, "combo") || str_equals(
            lowered,
            "catalan",
        ) {
            Some(Preset::Combinatorics)
        } else if str_equals(lowered, "physics") || str_equals(lowered, "phys") {
            Some(Preset::Physics)
        } else if str_equals(lowered, "number-theory") || str_equals(lowered, "nt") || str_equals(
            lowered,
            "algebraic",
        ) {
            Some(Preset::NumberTheory)
        } else if str_equals(lowered, "calculus") || str_equals(lowered, "calc") {
            Some(Preset::Calculus)
        } else {
            None
        }
    }

    /// The preset named by `s`, ignoring case, if any.
    pub fn from_str(s: &str) -> (r: Option<Self>)
        ensures
            r == preset_named(lowercase_of(s@)),
            is_ascii_text(s@) ==> r == preset_named(ascii_lower_text(s@)),
    {
        let lowered = to_lowercase(s);
        Preset::from_lowercase(lowered.as_str())
    }

    /// Every preset, in the order in which they are listed.
    pub open spec fn every() -> Seq<Preset> {
        seq![
            Preset::AnalyticNT,
            Preset::Elliptic,
            Preset::Combinatorics,
            Preset::Physics,
            Preset::NumberTheory,
            Preset::Calculus,
        ]
    }

    /// Every preset, in the order in which they are listed.
    pub fn all() -> (r: Vec<Preset>)
        ensures
            r@ == Preset::every(),
    {
        vec![
            Preset::AnalyticNT,
            Preset::Elliptic,
            Preset::Combinatorics,
            Preset::Physics,
            Preset::NumberTheory,
            Preset::Calculus,
        ]
    }

    /// The symbol weights that the preset sets, in the order in which it
    /// sets them.
    pub open spec fn weights_of(self) -> Seq<(Symbol, u32)> {
        match self {
            Preset::AnalyticNT => seq![
                (Symbol::Pi, 6),
                (Symbol::Ln, 6),
                (Symbol::Exp, 6),
                (Symbol::SinPi, 12),
                (Symbol::CosPi, 12),
                (Symbol::TanPi, 14),
                (Symbol::LambertW, 16),
                (Symbol::Apery, 8),
                (Symbol::Gamma, 8),
            ],
            Preset::Elliptic => seq![
                (Symbol::Sqrt, 4),
                (Symbol::Square, 4),
                (Symbol::Ln, 6),
                (Symbol::Pi, 6),
                (Symbol::SinPi, 16),
                (Symbol::CosPi, 16),
                (Symbol::TanPi, 18),
                (Symbol::Phi, 8),
            ],
            Preset::Combinatorics => seq![
                (Symbol::One, 2),
                (Symbol::Two, 2),
                (Symbol::Three, 2),
                (Symbol::Four, 3),
                (Symbol::Five, 3),
                (Symbol::Pi, 12),
                (Symbol::E, 12),
                (Symbol::Ln, 14),
                (Symbol::Exp, 14),
                (Symbol::Catalan, 8),
                (Symbol::Apery, 8),
            ],
            Preset::Physics => seq![
                (Symbol::Pi, 5),
                (Symbol::E, 6),
                (Symbol::Ln, 6),
                (Symbol::Exp, 6),
                (Symbol::Sqrt, 5),
                (Symbol::SinPi, 10),
                (Symbol::CosPi, 10),
                (Symbol::Gamma, 8),
            ],
            Preset::NumberTheory => seq![
                (Symbol::One, 2),
                (Symbol::Two, 2),
                (Symbol::Three, 2),
                (Symbol::Four, 3),
                (Symbol::Five, 3),
                (Symbol::Six, 3),
                (Symbol::Seven, 3),
                (Symbol::Eight, 4),
                (Symbol::Nine, 4),
                (Symbol::Sqrt, 6),
                (Symbol::Square, 6),
                (Symbol::Pi, 16),
                (Symbol::E, 16),
                (Symbol::Ln, 18),
                (Symbol::Exp, 18),
                (Symbol::Phi, 8),
                (Symbol::Plastic, 10),
            ],
            Preset::Calculus => seq![
                (Symbol::Pi, 7),
                (Symbol::E, 7),
                (Symbol::Ln, 7),
                (Symbol::Exp, 7),
                (Symbol::Sqrt, 5),
                (Symbol::Square, 5),
                (Symbol::SinPi, 8),
                (Symbol::CosPi, 8),
                (Symbol::TanPi, 9),
            ],
        }
    }

    /// The symbol weights that the preset sets. A preset's constants carry
    /// numeric values, and the caller adds them.
    pub fn symbol_weights(&self) -> (r: Vec<(Symbol, u32)>)
        ensures
            r@ == self.weights_of(),
    {
        match self {
            Preset::AnalyticNT => vec![
                (Symbol::Pi, 6),
                (Symbol::Ln, 6),
                (Symbol::Exp, 6),
                (Symbol::SinPi, 12),
                (Symbol::CosPi, 12),
                (Symbol::TanPi, 14),
                (Symbol::LambertW, 16),
                (Symbol::Apery, 8),
                (Symbol::Gamma, 8),
            ],
            Preset::Elliptic => vec![
                (Symbol::Sqrt, 4),
                (Symbol::Square, 4),
                (Symbol::Ln, 6),
                (Symbol::Pi, 6),
                (Symbol::SinPi, 16),
                (Symbol::CosPi, 16),
                (Symbol::TanPi, 18),
                (Symbol::Phi, 8),
            ],
            Preset::Combinatorics => vec![
                (Symbol::One, 2),
                (Symbol::Two, 2),
                (Symbol::Three, 2),
                (Symbol::Four, 3),
                (Symbol::Five, 3),
                (Symbol::Pi, 12),
                (Symbol::E, 12),
                (Symbol::Ln, 14),
                (Symbol::Exp, 14),
                (Symbol::Catalan, 8),
                (Symbol::Apery, 8),
            ],
            Preset::Physics => vec![
                (Symbol::Pi, 5),
                (Symbol::E, 6),
                (Symbol::Ln, 6),
                (Symbol::Exp, 6),
                (Symbol::Sqrt, 5),
                (Symbol::SinPi, 10),
                (Symbol::CosPi, 10),
                (Symbol::Gamma, 8),
            ],
            Preset::NumberTheory => vec![
                (Symbol::One, 2),
                (Symbol::Two, 2),
                (Symbol::Three, 2),
                (Symbol::Four, 3),
                (Symbol::Five, 3),
                (Symbol::Six, 3),
                (Symbol::Seven, 3),
                (Symbol::Eight, 4),
                (Symbol::Nine, 4),
                (Symbol::Sqrt, 6),
                (Symbol::Square, 6),
                (Symbol::Pi, 16),
                (Symbol::E, 16),
                (Symbol::Ln, 18),
                (Symbol::Exp, 18),
                (Symbol::Phi, 8),
                (Symbol::Plastic, 10),
            ],
            Preset::Calculus => vec![
                (Symbol::Pi, 7),
                (Symbol::E, 7),
                (Symbol::Ln, 7),
                (Symbol::Exp, 7),
                (Symbol::Sqrt, 5),
                (Symbol::Square, 5),
                (Symbol::SinPi, 8),
                (Symbol::CosPi, 8),
                (Symbol::TanPi, 9),
            ],
        }
    }
}

/// Preset names are read without regard to case: a preset's name in upper
/// case (or in any mix of cases that lower-cases to the name) selects the
/// preset, since an ASCII argument is lower-cased letter by letter.
pub proof fn lemma_preset_name_any_case(p: Preset, s: Seq<char>)
    requires
        is_ascii_text(s),
        ascii_lower_text(s) == p.name_of(),
    ensures
        preset_named(ascii_lower_text(s)) == Some(p),
{
    lemma_preset_name_roundtrip(p);
}

/// The upper-case form of a preset's name is ASCII and lower-cases back to
/// the name, so `Preset::from_str` reads it as the preset.
pub proof fn lemma_preset_upper_name(p: Preset)
    ensures
        is_ascii_text(ascii_upper_text(p.name_of())),
        preset_named(ascii_lower_text(ascii_upper_text(p.name_of()))) == Some(p),
{
    reveal_strlit("analytic-nt");
    reveal_strlit("elliptic");
    reveal_strlit("combinatorics");
    reveal_strlit("physics");
    reveal_strlit("number-theory");
    reveal_strlit("calculus");
    let n = p.name_of();
    assert(forall|i: int| 0 <= i < n.len() ==> (#[trigger] n[i] as u32) < 128 && !('A' <= n[i] <= 'Z'));
    lemma_upper_then_lower(n);
    lemma_preset_name_roundtrip(p);
}

/// The name of every preset selects that preset.
pub proof fn lemma_preset_name_roundtrip(p: Preset)
    ensures
        preset_named(p.name_of()) == Some(p),
{
    reveal_strlit("analytic-nt");
    reveal_strlit("ant");
    reveal_strlit("analytic");
    reveal_strlit("elliptic");
    reveal_strlit("modular");
    reveal_strlit("combinatorics");
    reveal_strlit("combo");
    reveal_strlit("catalan");
    reveal_strlit("physics");
    reveal_strlit("phys");
    reveal_strlit("number-theory");
    reveal_strlit("nt");
    reveal_strlit("algebraic");
    reveal_strlit("calculus");
    reveal_strlit("calc");
    match p {
        Preset::AnalyticNT => {},
        Preset::Elliptic => {
            assert("elliptic"@.len() != "analytic-nt"@.len());
            assert("elliptic"@[0] != "ant"@[0]);
            assert("elliptic"@[0] != "analytic"@[0]);
        },
        Preset::Combinatorics => {
            assert("combinatorics"@[0] != "analytic-nt"@[0]);
            assert("combinatorics"@[0] != "ant"@[0]);
            assert("combinatorics"@[0] != "analytic"@[0]);
            assert("combinatorics"@[0] != "elliptic"@[0]);
            assert("combinatorics"@[0] != "modular"@[0]);
        },
        Preset::Physics => {
            assert("physics"@[0] != "analytic-nt"@[0]);
            assert("physics"@[0] != "ant"@[0]);
            assert("physics"@[0] != "analytic"@[0]);
            assert("physics"@[0] != "elliptic"@[0]);
            assert("physics"@[0] != "modular"@[0]);
            assert("physics"@[0] != "combinatorics"@[0]);
            assert("physics"@[0] != "combo"@[0]);
            assert("physics"@[0] != "catalan"@[0]);
        },
        Preset::NumberTheory => {
            assert("number-theory"@[0] != "analytic-nt"@[0]);
            assert("number-theory"@[0] != "ant"@[0]);
            assert("number-theory"@[0] != "analytic"@[0]);
            assert("number-theory"@[0] != "elliptic"@[0]);
            assert("number-theory"@[0] != "modular"@[0]);
            assert("number-theory"@[0] != "combinatorics"@[0]);
            assert("number-theory"@[0] != "combo"@[0]);
            assert("number-theory"@[0] != "catalan"@[0]);
            assert("number-theory"@[0] != "physics"@[0]);
            assert("number-theory"@[0] != "phys"@[0]);
        },
        Preset::Calculus => {
            assert("calculus"@[0] != "analytic-nt"@[0]);
            assert("calculus"@[0] != "ant"@[0]);
            assert("calculus"@[0] != "analytic"@[0]);
            assert("calculus"@[0] != "elliptic"@[0]);
            assert("calculus"@[0] != "modular"@[0]);
            assert("calculus"@.len() != "combinatorics"@.len());
            assert("calculus"@.len() != "combo"@.len());
            assert("calculus"@[2] != "catalan"@[2]);
            assert("calculus"@[0] != "physics"@[0]);
            assert("calculus"@[0] != "phys"@[0]);
            assert("calculus"@[0] != "number-theory"@[0]);
            assert("calculus"@[0] != "nt"@[0]);
            assert("calculus"@[0] != "algebraic"@[0]);
        },
    }
}

} // verus!
