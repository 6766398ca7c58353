//! Symbol and bigram frequencies across matches, and operator counts.
//!
//! The rarity scores derived from these counts are floating-point values and
//! are computed by the caller from the counts kept here.

use vstd::prelude::*;
use std::collections::HashMap;
use crate::expr::Expression;
use crate::symbol::{Seft, Symbol};

verus! {

broadcast use vstd::std_specs::hash::group_hash_axioms;

/// Number of positions of `s` holding a symbol with byte `b`.
pub open spec fn occurrences(s: Seq<Symbol>, b: u8) -> nat
    decreases s.len(),
{
    if s.len() == 0 {
        0
    } else {
        occurrences(s.drop_last(), b) + if s.last().byte_of() == b {
            1nat
        } else {
            0nat
        }
    }
}

/// Key of the bigram `(a, b)`.
pub open spec fn bigram_key(a: Symbol, b: Symbol) -> u16 {
    (a.byte_of() as u16 * 256 + b.byte_of() as u16) as u16
}

/// Number of adjacent pairs of `s` that form the bigram with key `key`.
pub open spec fn bigram_occurrences(s: Seq<Symbol>, key: u16) -> nat
    decreases s.len(),
{
    if s.len() < 2 {
        0
    } else {
        bigram_occurrences(s.drop_last(), key) + if bigram_key(s[s.len() - 2], s.last()) == key {
            1nat
        } else {
            0nat
        }
    }
}

/// Number of adjacent pairs of `s`.
pub open spec fn pair_count(s: Seq<Symbol>) -> nat {
    if s.len() < 2 {
        0
    } else {
        (s.len() - 1) as nat
    }
}

/// Count of `k` in a count map, 0 when absent.
pub open spec fn count_in<K>(m: Map<K, usize>, k: K) -> nat {
    if m.contains_key(k) {
        m[k] as nat
    } else {
        0
    }
}

/// Counts of symbols and of bigrams (adjacent symbol pairs) across the
/// matches added so far.
pub struct OperatorFrequency {
    symbol_counts: HashMap<u8, usize>,
    total: usize,
    bigram_counts: HashMap<u16, usize>,
    total_bigrams: usize,
}

impl OperatorFrequency {
    /// Occurrences of the symbol with byte `b`.
    pub closed spec fn symbol_count_of(&self, b: u8) -> nat {
        count_in(self.symbol_counts@, b)
    }

    /// Total symbol occurrences.
    pub closed spec fn total_of(&self) -> nat {
        self.total as nat
    }

    /// Occurrences of the bigram with key `key`.
    pub closed spec fn bigram_count_of(&self, key: u16) -> nat {
        count_in(self.bigram_counts@, key)
    }

    /// Total bigram occurrences.
    pub closed spec fn total_bigrams_of(&self) -> nat {
        self.total_bigrams as nat
    }

    /// No count exceeds its total.
    pub closed spec fn wf(&self) -> bool {
        &&& forall|b: u8| #[trigger] count_in(self.symbol_counts@, b) <= self.total
        &&& forall|k: u16| #[trigger] count_in(self.bigram_counts@, k) <= self.total_bigrams
    }

    /// An empty frequency map.
    pub fn new() -> (r: Self)
        ensures
            r.wf(),
            r.total_of() == 0,
            r.total_bigrams_of() == 0,
            forall|b: u8| #[trigger] r.symbol_count_of(b) == 0,
            forall|k: u16| #[trigger] r.bigram_count_of(k) == 0,
    {
        OperatorFrequency {
            symbol_counts: HashMap::new(),
            total: 0,
            bigram_counts: HashMap::new(),
            total_bigrams: 0,
        }
    }

    /// Count each symbol of `symbols`.
    fn count_symbols(&mut self, symbols: &[Symbol])
        requires
            old(self).wf(),
            old(self).total + symbols@.len() <= usize::MAX,
        ensures
            final(self).wf(),
            final(self).total == old(self).total + symbols@.len(),
            final(self).total_bigrams == old(self).total_bigrams,
            final(self).bigram_counts@ == old(self).bigram_counts@,
            forall|b: u8| #[trigger] count_in(final(self).symbol_counts@, b) == count_in(
                old(self).symbol_counts@,
                b,
            ) + occurrences(symbols@, b),
    {
        let mut i: usize = 0;
        while i < symbols.len()
            invariant
                i <= symbols@.len(),
                self.wf(),
                self.total == old(self).total + i,
                old(self).total + symbols@.len() <= usize::MAX,
                self.total_bigrams == old(self).total_bigrams,
                self.bigram_counts@ == old(self).bigram_counts@,
                forall|b: u8| #[trigger] count_in(self.symbol_counts@, b) == count_in(
                    old(self).symbol_counts@,
                    b,
                ) + occurrences(symbols@.take(i as int), b),
            decreases symbols.len() - i,
        {
            let key = symbols[i].to_byte();
            let current: usize = match self.symbol_counts.get(&key) {
                Some(c) => *c,
                None => 0,
            };
            assert(current == count_in(self.symbol_counts@, key));
            assert(current <= self.total);
            let ghost before = self.symbol_counts@;
            self.symbol_counts.insert(key, current + 1);
            self.total = self.total + 1;
            proof {
                assert(symbols@.take(i + 1).drop_last() =~= symbols@.take(i as int));
                assert(symbols@.take(i + 1).last() == symbols@[i as int]);
                assert forall|b: u8| #[trigger] count_in(self.symbol_counts@, b) == count_in(
                    old(self).symbol_counts@,
                    b,
                ) + occurrences(symbols@.take(i + 1), b) by {
                    if b != key {
                        assert(count_in(self.symbol_counts@, b) == count_in(before, b));
                    }
                }
                assert forall|b: u8| #[trigger] count_in(self.symbol_counts@, b) <= self.total by {
                    if b != key {
                        assert(count_in(self.symbol_counts@, b) == count_in(before, b));
                    }
                }
            }
            i = i + 1;
        }
        assert(symbols@.take(symbols@.len() as int) =~= symbols@);
    }

    /// Count each adjacent pair of `symbols`.
    fn count_bigrams(&mut self, symbols: &[Symbol])
        requires
            old(self).wf(),
            old(self).total_bigrams + symbols@.len() <= usize::MAX,
        ensures
            final(self).wf(),
            final(self).total_bigrams == old(self).total_bigrams + pair_count(symbols@),
            final(self).total == old(self).total,
            final(self).symbol_counts@ == old(self).symbol_counts@,
            forall|k: u16| #[trigger] count_in(final(self).bigram_counts@, k) == count_in(
                old(self).bigram_counts@,
                k,
            ) + bigram_occurrences(symbols@, k),
    {
        if symbols.len() < 2 {
            return;
        }
        let mut i: usize = 1;
        assert(bigram_occurrences(symbols@.take(1), 0) == 0);
        while i < symbols.len()
            invariant
                1 <= i <= symbols@.len(),
                self.wf(),
                self.total_bigrams == old(self).total_bigrams + (i - 1),
                old(self).total_bigrams + symbols@.len() <= usize::MAX,
                self.total == old(self).total,
                self.symbol_counts@ == old(self).symbol_counts@,
                forall|k: u16| #[trigger] count_in(self.bigram_counts@, k) == count_in(
                    old(self).bigram_counts@,
                    k,
                ) + bigram_occurrences(symbols@.take(i as int), k),
            decreases symbols.len() - i,
        {
            let a = symbols[i - 1].to_byte() as u16;
            let b = symbols[i].to_byte() as u16;
            let key: u16 = a * 256 + b;
            assert(key == bigram_key(symbols@[i - 1], symbols@[i as int]));
            let current: usize = match self.bigram_counts.get(&key) {
                Some(c) => *c,
                None => 0,
            };
            assert(current == count_in(self.bigram_counts@, key));
            assert(current <= self.total_bigrams);
            let ghost before = self.bigram_counts@;
            self.bigram_counts.insert(key, current + 1);
            self.total_bigrams = self.total_bigrams + 1;
            proof {
                let t = symbols@.take(i + 1);
                assert(t.drop_last() =~= symbols@.take(i as int));
                assert(t.last() == symbols@[i as int]);
                assert(t[t.len() - 2] == symbols@[i - 1]);
                assert forall|k: u16| #[trigger] count_in(self.bigram_counts@, k) == count_in(
                    old(self).bigram_counts@,
                    k,
                ) + bigram_occurrences(symbols@.take(i + 1), k) by {
                    if k != key {
                        assert(count_in(self.bigram_counts@, k) == count_in(before, k));
                    }
                }
                assert forall|k: u16| #[trigger] count_in(self.bigram_counts@, k)
                    <= self.total_bigrams by {
                    if k != key {
                        assert(count_in(self.bigram_counts@, k) == count_in(before, k));
                    }
                }
            }
            i = i + 1;
        }
        assert(symbols@.take(symbols@.len() as int) =~= symbols@);
    }

    /// Add the symbols and bigrams of the equation `lhs = rhs`: every symbol
    /// of both sides, and the adjacent pairs within each side.
    pub fn add(&mut self, lhs: &Expression, rhs: &Expression)
        requires
            old(self).wf(),
            old(self).total_of() + lhs@.len() + rhs@.len() <= usize::MAX,
            old(self).total_bigrams_of() + lhs@.len() + rhs@.len() <= usize::MAX,
        ensures
            final(self).wf(),
            final(self).total_of() == old(self).total_of() + lhs@.len() + rhs@.len(),
            final(self).total_bigrams_of() == old(self).total_bigrams_of() + pair_count(lhs@)
                + pair_count(rhs@),
            forall|b: u8| #[trigger] final(self).symbol_count_of(b) == old(self).symbol_count_of(b)
                + occurrences(lhs@, b) + occurrences(rhs@, b),
            forall|k: u16| #[trigger] final(self).bigram_count_of(k) == old(self).bigram_count_of(k)
                + bigram_occurrences(lhs@, k) + bigram_occurrences(rhs@, k),
    {
        self.count_symbols(lhs.symbols());
        self.count_symbols(rhs.symbols());
        self.count_bigrams(lhs.symbols());
        self.count_bigrams(rhs.symbols());
    }

    /// Occurrences of `sym`.
    pub fn symbol_count(&self, sym: Symbol) -> (r: usize)
        ensures
            r == self.symbol_count_of(sym.byte_of()),
    {
        match self.symbol_counts.get(&sym.to_byte()) {
            Some(c) => *c,
            None => 0,
        }
    }

    /// Total symbol occurrences.
    pub fn total(&self) -> (r: usize)
        ensures
            r == self.total_of(),
    {
        self.total
    }

    /// Occurrences of the bigram `(a, b)`.
    pub fn bigram_count(&self, a: Symbol, b: Symbol) -> (r: usize)
        ensures
            r == self.bigram_count_of(bigram_key(a, b)),
    {
        let key: u16 = (a.to_byte() as u16) * 256 + (b.to_byte() as u16);
        match self.bigram_counts.get(&key) {
            Some(c) => *c,
            None => 0,
        }
    }

    /// Total bigram occurrences.
    pub fn total_bigrams(&self) -> (r: usize)
        ensures
            r == self.total_bigrams_of(),
    {
        self.total_bigrams
    }
}

/// Number of symbols of `s` that are functions (not constants or `x`).
pub open spec fn operator_total(s: Seq<Symbol>) -> nat
    decreases s.len(),
{
    if s.len() == 0 {
        0
    } else {
        operator_total(s.drop_last()) + if s.last().seft_of() != Seft::A {
            1nat
        } else {
            0nat
        }
    }
}

/// Number of operators (functions of one or two arguments) in an expression.
pub fn count_operators(expr: &Expression) -> (r: usize)
    ensures
        r == operator_total(expr@),
{
    let s = expr.symbols();
    let mut count: usize = 0;
    let mut i: usize = 0;
    while i < s.len()
        invariant
            i <= s@.len(),
            s@ == expr@,
            count == operator_total(s@.take(i as int)),
            count <= i,
        decreases s.len() - i,
    {
        assert(s@.take(i + 1).drop_last() =~= s@.take(i as int));
        match s[i].seft() {
            Seft::A => {},
            _ => {
                count = count + 1;
            },
        }
        i = i + 1;
    }
    assert(s@.take(s@.len() as int) =~= s@);
    count
}

/// The operator family of a symbol: 1 for the algebraic operators, 2 for
/// the exponential ones (`ln`, `exp`, Lambert W), 3 for the trigonometric
/// ones, 0 for constants, `x` and user functions.
pub open spec fn family_of(s: Symbol) -> u8 {
    match s {
        Symbol::Add | Symbol::Sub | Symbol::Mul | Symbol::Div | Symbol::Pow | Symbol::Sqrt
        | Symbol::Square | Symbol::Root | Symbol::Neg | Symbol::Recip => 1,
        Symbol::Ln | Symbol::Exp | Symbol::LambertW => 2,
        Symbol::SinPi | Symbol::CosPi | Symbol::TanPi | Symbol::Atan2 => 3,
        _ => 0,
    }
}

/// Whether a symbol of `s` belongs to family `f`.
pub open spec fn has_family(s: Seq<Symbol>, f: u8) -> bool {
    exists|k: int| 0 <= k < s.len() && family_of(#[trigger] s[k]) == f
}

/// Number of the three operator families that occur in `s`.
pub open spec fn family_count(s: Seq<Symbol>) -> nat {
    (if has_family(s, 1) { 1nat } else { 0nat }) + (if has_family(s, 2) { 1nat } else { 0nat })
        + (if has_family(s, 3) { 1nat } else { 0nat })
}

/// The operator family of a symbol.
fn family(s: Symbol) -> (r: u8)
    ensures
        r == family_of(s),
{
    match s {
        Symbol::Add | Symbol::Sub | Symbol::Mul | Symbol::Div | Symbol::Pow | Symbol::Sqrt
        | Symbol::Square | Symbol::Root | Symbol::Neg | Symbol::Recip => 1,
        Symbol::Ln | Symbol::Exp | Symbol::LambertW => 2,
        Symbol::SinPi | Symbol::CosPi | Symbol::TanPi | Symbol::Atan2 => 3,
        _ => 0,
    }
}

/// Which of the three operator families occur in `s`.
fn family_flags(s: &[Symbol]) -> (r: (bool, bool, bool))
    ensures
        r.0 == has_family(s@, 1),
        r.1 == has_family(s@, 2),
        r.2 == has_family(s@, 3),
{
    let mut a = false;
    let mut b = false;
    let mut c = false;
    let mut i: usize = 0;
    while i < s.len()
        invariant
            i <= s@.len(),
            a == has_family(s@.take(i as int), 1),
            b == has_family(s@.take(i as int), 2),
            c == has_family(s@.take(i as int), 3),
        decreases s.len() - i,
    {
        let f = family(s[i]);
        let ghost t = s@.take(i + 1);
        assert(t[i as int] == s@[i as int]);
        assert forall|g: u8| #[trigger] has_family(t, g) == (has_family(s@.take(i as int), g)
            || family_of(s@[i as int]) == g) by {
            if has_family(t, g) {
                let k = choose|k: int| 0 <= k < t.len() && family_of(#[trigger] t[k]) == g;
                if k < i {
                    assert(s@.take(i as int)[k] == t[k]);
                }
            }
            if has_family(s@.take(i as int), g) {
                let k = choose|k: int| 0 <= k < i && family_of(#[trigger] s@.take(i as int)[k]) == g;
                assert(t[k] == s@.take(i as int)[k]);
            }
        }
        a = a || f == 1;
        b = b || f == 2;
        c = c || f == 3;
        i = i + 1;
    }
    assert(s@.take(s@.len() as int) =~= s@);
    (a, b, c)
}

/// A family occurs in two sequences put together when it occurs in one of
/// them.
proof fn lemma_has_family_concat(a: Seq<Symbol>, b: Seq<Symbol>, f: u8)
    ensures
        has_family(a + b, f) == (has_family(a, f) || has_family(b, f)),
{
    let ab = a + b;
    if has_family(ab, f) {
        let k = choose|k: int| 0 <= k < ab.len() && family_of(#[trigger] ab[k]) == f;
        if k >= a.len() {
            assert(b[k - a.len()] == ab[k]);
        }
    }
    if has_family(a, f) {
        let k = choose|k: int| 0 <= k < a.len() && family_of(#[trigger] a[k]) == f;
        assert(ab[k] == a[k]);
    }
    if has_family(b, f) {
        let k = choose|k: int| 0 <= k < b.len() && family_of(#[trigger] b[k]) == f;
        assert(ab[k + a.len()] == b[k]);
    }
}

/// Number of operator families (algebraic, exponential, trigonometric)
/// that occur in an equation; the diversity score rests on it.
pub fn family_count_of(lhs: &Expression, rhs: &Expression) -> (r: u8)
    ensures
        r == family_count(lhs@ + rhs@),
{
    let (a1, b1, c1) = family_flags(lhs.symbols());
    let (a2, b2, c2) = family_flags(rhs.symbols());
    proof {
        lemma_has_family_concat(lhs@, rhs@, 1);
        lemma_has_family_concat(lhs@, rhs@, 2);
        lemma_has_family_concat(lhs@, rhs@, 3);
    }
    let mut n: u8 = 0;
    if a1 || a2 {
        n = n + 1;
    }
    if b1 || b2 {
        n = n + 1;
    }
    if c1 || c2 {
        n = n + 1;
    }
    n
}

/// Whether a symbol is one of the costly functions: `ln`, `exp`, the
/// trigonometric ones, Lambert W, `log` and `atan2`.
pub open spec fn is_costly(s: Symbol) -> bool {
    s == Symbol::Ln || s == Symbol::Exp || s == Symbol::SinPi || s == Symbol::CosPi || s
        == Symbol::TanPi || s == Symbol::LambertW || s == Symbol::Log || s == Symbol::Atan2
}

/// Number of costly functions in `s`.
pub open spec fn costly_total(s: Seq<Symbol>) -> nat
    decreases s.len(),
{
    if s.len() == 0 {
        0
    } else {
        costly_total(s.drop_last()) + if is_costly(s.last()) {
            1nat
        } else {
            0nat
        }
    }
}

/// Number of costly functions in an expression; the ugliness score rests
/// on it.
pub fn count_costly(expr: &Expression) -> (r: usize)
    ensures
        r == costly_total(expr@),
{
    let s = expr.symbols();
    let mut count: usize = 0;
    let mut i: usize = 0;
    while i < s.len()
        invariant
            i <= s@.len(),
            s@ == expr@,
            count == costly_total(s@.take(i as int)),
            count <= i,
        decreases s.len() - i,
    {
        assert(s@.take(i + 1).drop_last() =~= s@.take(i as int));
        let sym = s[i];
        if sym == Symbol::Ln || sym == Symbol::Exp || sym == Symbol::SinPi || sym == Symbol::CosPi
            || sym == Symbol::TanPi || sym == Symbol::LambertW || sym == Symbol::Log || sym
            == Symbol::Atan2 {
            count = count + 1;
        }
        i = i + 1;
    }
    assert(s@.take(s@.len() as int) =~= s@);
    count
}

} // verus!
