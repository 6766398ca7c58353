//! Symbol-level rules of the quick check for targets that equal a simple
//! constant expression.

use vstd::prelude::*;
use std::collections::HashSet;
use crate::symbol::{NumType, Symbol};

verus! {

broadcast use vstd::std_specs::hash::group_hash_axioms;

/// Configuration of the quick match check.
pub struct FastMatchConfig<'a> {
    /// Symbols that are excluded (`-N`).
    pub excluded_symbols: &'a HashSet<u8>,
    /// Symbols that are allowed, when only some are (`-S`): every symbol
    /// of a candidate must be in this set.
    pub allowed_symbols: Option<&'a HashSet<u8>>,
    /// Minimum numeric type required (`-a`, `-r`, `-i`).
    pub min_num_type: NumType,
}

/// Whether one of the symbols of `s` has its byte in `excluded`.
pub open spec fn has_excluded(s: Seq<Symbol>, excluded: Set<u8>) -> bool {
    exists|k: int| 0 <= k < s.len() && excluded.contains(#[trigger] s[k].byte_of())
}

/// Whether every symbol of `s` has its byte in `allowed`.
pub open spec fn all_allowed(s: Seq<Symbol>, allowed: Set<u8>) -> bool {
    forall|k: int| 0 <= k < s.len() ==> allowed.contains(#[trigger] s[k].byte_of())
}

/// Whether a candidate passes the symbol filters of `config`.
pub open spec fn passes_filters(s: Seq<Symbol>, config: FastMatchConfig) -> bool {
    &&& !has_excluded(s, config.excluded_symbols@)
    &&& (config.allowed_symbols matches Some(a) ==> all_allowed(s, a@))
}

/// Whether some symbol of `symbols` is excluded.
pub fn contains_excluded(symbols: &[Symbol], excluded: &HashSet<u8>) -> (r: bool)
    ensures
        r == has_excluded(symbols@, excluded@),
{
    let mut i: usize = 0;
    while i < symbols.len()
        invariant
            i <= symbols@.len(),
            forall|k: int| 0 <= k < i ==> !excluded@.contains(#[trigger] symbols@[k].byte_of()),
        decreases symbols.len() - i,
    {
        if excluded.contains(&symbols[i].to_byte()) {
            return true;
        }
        i = i + 1;
    }
    false
}

/// Whether every symbol of `symbols` is allowed.
fn all_in(symbols: &[Symbol], allowed: &HashSet<u8>) -> (r: bool)
    ensures
        r == all_allowed(symbols@, allowed@),
{
    let mut i: usize = 0;
    while i < symbols.len()
        invariant
            i <= symbols@.len(),
            forall|k: int| 0 <= k < i ==> allowed@.contains(#[trigger] symbols@[k].byte_of()),
        decreases symbols.len() - i,
    {
        if !allowed.contains(&symbols[i].to_byte()) {
            return false;
        }
        i = i + 1;
    }
    true
}

/// Whether `symbols` passes the excluded and allowed sets of `config`.
pub fn passes_symbol_filters(symbols: &[Symbol], config: &FastMatchConfig) -> (r: bool)
    ensures
        r == passes_filters(symbols@, *config),
{
    if contains_excluded(symbols, config.excluded_symbols) {
        return false;
    }
    match config.allowed_symbols {
        Some(allowed) => all_in(symbols, allowed),
        None => true,
    }
}

/// Whether `s` is one of the digits 1 to 9.
pub open spec fn is_digit_symbol(s: Symbol) -> bool {
    s == Symbol::One || s == Symbol::Two || s == Symbol::Three || s == Symbol::Four || s
        == Symbol::Five || s == Symbol::Six || s == Symbol::Seven || s == Symbol::Eight || s
        == Symbol::Nine
}

/// Whether `s` is one of the digits 1 to 9.
fn digit_symbol(s: Symbol) -> (r: bool)
    ensures
        r == is_digit_symbol(s),
{
    match s {
        Symbol::One | Symbol::Two | Symbol::Three | Symbol::Four | Symbol::Five | Symbol::Six
        | Symbol::Seven | Symbol::Eight | Symbol::Nine => true,
        _ => false,
    }
}

/// Whether some symbol of `s` is of transcendental type.
pub open spec fn has_transcendental(s: Seq<Symbol>) -> bool {
    exists|k: int| 0 <= k < s.len() && (#[trigger] s[k]).inherent_type_of() == NumType::Transcendental
}

/// Whether `s` holds `phi` or the plastic constant.
pub open spec fn has_algebraic_constant(s: Seq<Symbol>) -> bool {
    exists|k: int| 0 <= k < s.len() && (#[trigger] s[k] == Symbol::Phi || s[k] == Symbol::Plastic)
}

/// The numeric type the quick check gives a candidate: a single symbol
/// has its own type; the square root of a digit is algebraic and that of
/// a transcendental constant transcendental; the reciprocal of a digit and
/// the quotient of two digits are rational; otherwise a transcendental
/// symbol makes it transcendental, `phi` or the plastic constant algebraic,
/// and anything else is taken as transcendental.
pub open spec fn candidate_num_type(s: Seq<Symbol>) -> NumType {
    match special_num_type(s) {
        Some(t) => t,
        None => if has_transcendental(s) {
            NumType::Transcendental
        } else if has_algebraic_constant(s) {
            NumType::Algebraic
        } else {
            NumType::Transcendental
        },
    }
}

/// The numeric type of the candidate shapes with a rule of their own.
pub open spec fn special_num_type(s: Seq<Symbol>) -> Option<NumType> {
    if s.len() == 1 {
        Some(s[0].inherent_type_of())
    } else if s.len() == 2 && s[1] == Symbol::Sqrt && is_digit_symbol(s[0]) {
        Some(NumType::Algebraic)
    } else if s.len() == 2 && s[1] == Symbol::Sqrt && (s[0] == Symbol::Pi || s[0] == Symbol::E || s[0]
        == Symbol::Gamma || s[0] == Symbol::Apery || s[0] == Symbol::Catalan) {
        Some(NumType::Transcendental)
    } else if s.len() == 2 && s[1] == Symbol::Recip && is_digit_symbol(s[0]) {
        Some(NumType::Rational)
    } else if s.len() == 3 && s[2] == Symbol::Div && is_digit_symbol(s[0]) && is_digit_symbol(s[1]) {
        Some(NumType::Rational)
    } else {
        None
    }
}

/// The numeric type of a candidate, by the simple rules of the quick check.
pub fn get_num_type(symbols: &[Symbol]) -> (r: NumType)
    ensures
        r == candidate_num_type(symbols@),
{
    let n = symbols.len();
    if n == 1 {
        return symbols[0].inherent_type();
    }
    if n == 2 {
        if symbols[1] == Symbol::Sqrt {
            if digit_symbol(symbols[0]) {
                return NumType::Algebraic;
            }
            match symbols[0] {
                Symbol::Pi | Symbol::E | Symbol::Gamma | Symbol::Apery | Symbol::Catalan => {
                    return NumType::Transcendental;
                },
                _ => {},
            }
        }
        if symbols[1] == Symbol::Recip && digit_symbol(symbols[0]) {
            return NumType::Rational;
        }
    }
    if n == 3 && symbols[2] == Symbol::Div {
        if digit_symbol(symbols[0]) && digit_symbol(symbols[1]) {
            return NumType::Rational;
        }
    }
    assert(special_num_type(symbols@) is None);
    let mut i: usize = 0;
    while i < n
        invariant
            n == symbols@.len(),
            i <= n,
            special_num_type(symbols@) is None,
            forall|k: int| 0 <= k < i ==> (#[trigger] symbols@[k]).inherent_type_of()
                != NumType::Transcendental,
        decreases n - i,
    {
        if symbols[i].inherent_type() == NumType::Transcendental {
            assert(symbols@[i as int].inherent_type_of() == NumType::Transcendental);
            return NumType::Transcendental;
        }
        i = i + 1;
    }
    let mut j: usize = 0;
    while j < n
        invariant
            n == symbols@.len(),
            j <= n,
            special_num_type(symbols@) is None,
            !has_transcendental(symbols@),
            forall|k: int| 0 <= k < j ==> !(#[trigger] symbols@[k] == Symbol::Phi || symbols@[k]
                == Symbol::Plastic),
        decreases n - j,
    {
        if symbols[j] == Symbol::Phi || symbols[j] == Symbol::Plastic {
            assert(symbols@[j as int] == Symbol::Phi || symbols@[j as int] == Symbol::Plastic);
            return NumType::Algebraic;
        }
        j = j + 1;
    }
    NumType::Transcendental
}

/// Number of expressions the quick check tries.
pub const CANDIDATE_COUNT: usize = 45;

/// Expression `k` of those the quick check tries, in order: digits and
/// named constants, simple fractions, square roots, logarithms, sums and
/// differences with small integers, and reciprocals.
pub open spec fn constant_candidate(k: int) -> Seq<Symbol> {
    if k == 0 {
        seq![Symbol::One]
    } else if k == 1 {
        seq![Symbol::Two]
    } else if k == 2 {
        seq![Symbol::Three]
    } else if k == 3 {
        seq![Symbol::Four]
    } else if k == 4 {
        seq![Symbol::Five]
    } else if k == 5 {
        seq![Symbol::Six]
    } else if k == 6 {
        seq![Symbol::Seven]
    } else if k == 7 {
        seq![Symbol::Eight]
    } else if k == 8 {
        seq![Symbol::Nine]
    } else if k == 9 {
        seq![Symbol::Pi]
    } else if k == 10 {
        seq![Symbol::E]
    } else if k == 11 {
        seq![Symbol::Phi]
    } else if k == 12 {
        seq![Symbol::Gamma]
    } else if k == 13 {
        seq![Symbol::Plastic]
    } else if k == 14 {
        seq![Symbol::Apery]
    } else if k == 15 {
        seq![Symbol::Catalan]
    } else if k == 16 {
        seq![Symbol::One, Symbol::Two, Symbol::Div]
    } else if k == 17 {
        seq![Symbol::One, Symbol::Three, Symbol::Div]
    } else if k == 18 {
        seq![Symbol::Two, Symbol::Three, Symbol::Div]
    } else if k == 19 {
        seq![Symbol::One, Symbol::Four, Symbol::Div]
    } else if k == 20 {
        seq![Symbol::Three, Symbol::Four, Symbol::Div]
    } else if k == 21 {
        seq![Symbol::Two, Symbol::Sqrt]
    } else if k == 22 {
        seq![Symbol::Three, Symbol::Sqrt]
    } else if k == 23 {
        seq![Symbol::Five, Symbol::Sqrt]
    } else if k == 24 {
        seq![Symbol::Six, Symbol::Sqrt]
    } else if k == 25 {
        seq![Symbol::Seven, Symbol::Sqrt]
    } else if k == 26 {
        seq![Symbol::Eight, Symbol::Sqrt]
    } else if k == 27 {
        seq![Symbol::Pi, Symbol::Sqrt]
    } else if k == 28 {
        seq![Symbol::E, Symbol::Sqrt]
    } else if k == 29 {
        seq![Symbol::Two, Symbol::Ln]
    } else if k == 30 {
        seq![Symbol::Pi, Symbol::Ln]
    } else if k == 31 {
        seq![Symbol::E, Symbol::One, Symbol::Sub]
    } else if k == 32 {
        seq![Symbol::E, Symbol::One, Symbol::Add]
    } else if k == 33 {
        seq![Symbol::Pi, Symbol::One, Symbol::Sub]
    } else if k == 34 {
        seq![Symbol::Pi, Symbol::One, Symbol::Add]
    } else if k == 35 {
        seq![Symbol::Pi, Symbol::Two, Symbol::Sub]
    } else if k == 36 {
        seq![Symbol::One, Symbol::Two, Symbol::Add]
    } else if k == 37 {
        seq![Symbol::One, Symbol::Sqrt, Symbol::One, Symbol::Add]
    } else if k == 38 {
        seq![Symbol::Two, Symbol::Sqrt, Symbol::One, Symbol::Add]
    } else if k == 39 {
        seq![Symbol::Phi, Symbol::One, Symbol::Add]
    } else if k == 40 {
        seq![Symbol::Phi, Symbol::Two, Symbol::Add]
    } else if k == 41 {
        seq![Symbol::Phi, Symbol::Square]
    } else if k == 42 {
        seq![Symbol::Pi, Symbol::Recip]
    } else if k == 43 {
        seq![Symbol::E, Symbol::Recip]
    } else {
        seq![Symbol::Phi, Symbol::Recip]
    }
}

/// Expression `k` of those the quick check tries.
fn candidate_symbols(k: usize) -> (r: Vec<Symbol>)
    requires
        k < CANDIDATE_COUNT,
    ensures
        r@ == constant_candidate(k as int),
{
    match k {
        0 => vec![Symbol::One],
        1 => vec![Symbol::Two],
        2 => vec![Symbol::Three],
        3 => vec![Symbol::Four],
        4 => vec![Symbol::Five],
        5 => vec![Symbol::Six],
        6 => vec![Symbol::Seven],
        7 => vec![Symbol::Eight],
        8 => vec![Symbol::Nine],
        9 => vec![Symbol::Pi],
        10 => vec![Symbol::E],
        11 => vec![Symbol::Phi],
        12 => vec![Symbol::Gamma],
        13 => vec![Symbol::Plastic],
        14 => vec![Symbol::Apery],
        15 => vec![Symbol::Catalan],
        16 => vec![Symbol::One, Symbol::Two, Symbol::Div],
        17 => vec![Symbol::One, Symbol::Three, Symbol::Div],
        18 => vec![Symbol::Two, Symbol::Three, Symbol::Div],
        19 => vec![Symbol::One, Symbol::Four, Symbol::Div],
        20 => vec![Symbol::Three, Symbol::Four, Symbol::Div],
        21 => vec![Symbol::Two, Symbol::Sqrt],
        22 => vec![Symbol::Three, Symbol::Sqrt],
        23 => vec![Symbol::Five, Symbol::Sqrt],
        24 => vec![Symbol::Six, Symbol::Sqrt],
        25 => vec![Symbol::Seven, Symbol::Sqrt],
        26 => vec![Symbol::Eight, Symbol::Sqrt],
        27 => vec![Symbol::Pi, Symbol::Sqrt],
        28 => vec![Symbol::E, Symbol::Sqrt],
        29 => vec![Symbol::Two, Symbol::Ln],
        30 => vec![Symbol::Pi, Symbol::Ln],
        31 => vec![Symbol::E, Symbol::One, Symbol::Sub],
        32 => vec![Symbol::E, Symbol::One, Symbol::Add],
        33 => vec![Symbol::Pi, Symbol::One, Symbol::Sub],
        34 => vec![Symbol::Pi, Symbol::One, Symbol::Add],
        35 => vec![Symbol::Pi, Symbol::Two, Symbol::Sub],
        36 => vec![Symbol::One, Symbol::Two, Symbol::Add],
        37 => vec![Symbol::One, Symbol::Sqrt, Symbol::One, Symbol::Add],
        38 => vec![Symbol::Two, Symbol::Sqrt, Symbol::One, Symbol::Add],
        39 => vec![Symbol::Phi, Symbol::One, Symbol::Add],
        40 => vec![Symbol::Phi, Symbol::Two, Symbol::Add],
        41 => vec![Symbol::Phi, Symbol::Square],
        42 => vec![Symbol::Pi, Symbol::Recip],
        43 => vec![Symbol::E, Symbol::Recip],
        _ => vec![Symbol::Phi, Symbol::Recip],
    }
}

/// The expressions the quick check tries, in order.
pub fn get_constant_candidates() -> (r: Vec<Vec<Symbol>>)
    ensures
        r@.len() == CANDIDATE_COUNT,
        forall|k: int| 0 <= k < r@.len() ==> #[trigger] r@[k]@ == constant_candidate(k),
{
    let mut v: Vec<Vec<Symbol>> = Vec::new();
    let mut k: usize = 0;
    while k < CANDIDATE_COUNT
        invariant
            k <= CANDIDATE_COUNT,
            v@.len() == k,
            forall|j: int| 0 <= j < k ==> #[trigger] v@[j]@ == constant_candidate(j),
        decreases CANDIDATE_COUNT - k,
    {
        v.push(candidate_symbols(k));
        k = k + 1;
    }
    v
}

} // verus!
