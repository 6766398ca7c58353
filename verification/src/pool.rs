//! Ranking modes, pool statistics and the operator signatures of equations.

use vstd::prelude::*;
use crate::expr::Expression;
use crate::symbol::Symbol;

verus! {

/// Match ranking mode for pool eviction and final ordering.
#[derive(Debug, Clone, Copy, PartialEq, Eq, Structural)]
pub enum RankingMode {
    /// Sort by exactness, then error, then complexity.
    Complexity,
    /// Sort by exactness, then error, then the signed parity score, then complexity.
    Parity,
}

impl Default for RankingMode {
    fn default() -> (r: Self)
        ensures
            r == RankingMode::Complexity,
    {
        RankingMode::Complexity
    }
}

/// The name of a ranking mode in reports.
pub open spec fn ranking_mode_text(mode: RankingMode) -> Seq<char> {
    match mode {
        RankingMode::Complexity => "complexity"@,
        RankingMode::Parity => "parity"@,
    }
}

/// The name of a ranking mode in reports.
pub fn ranking_mode_name(mode: RankingMode) -> (r: &'static str)
    ensures
        r@ == ranking_mode_text(mode),
{
    match mode {
        RankingMode::Complexity => "complexity",
        RankingMode::Parity => "parity",
    }
}

/// Statistics from pool operations.
#[derive(Clone, Debug)]
pub struct PoolStats {
    /// Number of successful insertions.
    pub insertions: usize,
    /// Number rejected because of the error threshold.
    pub rejections_error: usize,
    /// Number rejected as duplicates.
    pub rejections_dedupe: usize,
    /// Number evicted to keep the pool within its capacity.
    pub evictions: usize,
}

impl Default for PoolStats {
    fn default() -> (r: Self)
        ensures
            r.insertions == 0,
            r.rejections_error == 0,
            r.rejections_dedupe == 0,
            r.evictions == 0,
    {
        PoolStats { insertions: 0, rejections_error: 0, rejections_dedupe: 0, evictions: 0 }
    }
}

/// The signature of an equation: the bytes of its left-hand symbols, `=`,
/// then the bytes of its right-hand symbols.
pub open spec fn signature_bytes(lhs: Seq<Symbol>, rhs: Seq<Symbol>) -> Seq<u8> {
    lhs.map_values(|s: Symbol| s.byte_of()) + seq![61u8] + rhs.map_values(|s: Symbol| s.byte_of())
}

/// Operator and constant pattern of an equation, used to keep one
/// "interesting" match per pattern.
#[derive(Clone, PartialEq, Eq, Hash)]
pub struct SignatureKey {
    key: Vec<u8>,
}

impl View for SignatureKey {
    type V = Seq<u8>;

    closed spec fn view(&self) -> Seq<u8> {
        self.key@
    }
}

/// Append the bytes of `symbols` to `out`.
fn push_symbol_bytes(out: &mut Vec<u8>, symbols: &[Symbol])
    ensures
        final(out)@ == old(out)@ + symbols@.map_values(|s: Symbol| s.byte_of()),
{
    let mut i: usize = 0;
    while i < symbols.len()
        invariant
            i <= symbols@.len(),
            out@ == old(out)@ + symbols@.take(i as int).map_values(|s: Symbol| s.byte_of()),
        decreases symbols.len() - i,
    {
        out.push(symbols[i].to_byte());
        assert(symbols@.take(i + 1).map_values(|s: Symbol| s.byte_of()) =~= symbols@.take(
            i as int,
        ).map_values(|s: Symbol| s.byte_of()).push(symbols@[i as int].byte_of()));
        i = i + 1;
    }
    assert(symbols@.take(symbols@.len() as int) =~= symbols@);
}

impl SignatureKey {
    /// The signature of the equation `lhs = rhs`.
    pub fn from_expressions(lhs: &Expression, rhs: &Expression) -> (r: Self)
        ensures
            r@ == signature_bytes(lhs@, rhs@),
    {
        let mut ops: Vec<u8> = Vec::new();
        push_symbol_bytes(&mut ops, lhs.symbols());
        ops.push(61u8);
        push_symbol_bytes(&mut ops, rhs.symbols());
        SignatureKey { key: ops }
    }

    /// The bytes of the signature.
    pub fn bytes(&self) -> (r: &[u8])
        ensures
            r@ == self@,
    {
        self.key.as_slice()
    }
}

} // verus!
