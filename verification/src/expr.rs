//! Postfix expressions.
//!
//! An expression is a sequence of symbols in postfix (reverse Polish) order,
//! together with a cached complexity score and a cached flag telling whether
//! the variable `x` occurs in it.

use vstd::prelude::*;
use vstd::string::StringSliceAdditionalSpecFns;
use vstd::utf8::{encode_scalar, encode_utf8, has_width_1_encoding, is_ascii_chars, is_ascii_chars_encode_utf8};
use crate::buffer::{buf_as_slice, buf_from_slice, buf_items, buf_new, buf_pop, buf_push, buf_push_limit, SymbolBuf};
use crate::symbol::{Seft, Symbol};
use crate::text::chars_to_string;
use crate::tree::{lemma_stack_none_extends, net_depth, parse_tree, postfix_stack, tree_height, valid_postfix};

verus! {

/// Maximum expression length used by the generator.
pub const MAX_EXPR_LEN: usize = 21;

/// Output format for expression display.
#[derive(Debug, Clone, Copy, PartialEq, Eq, Structural)]
pub enum OutputFormat {
    /// Default format.
    Default,
    /// Default format with Unicode substitutions (π, √, ²).
    Pretty,
    /// Mathematica syntax.
    Mathematica,
    /// SymPy (Python) syntax.
    SymPy,
}

impl Default for OutputFormat {
    fn default() -> (r: Self)
        ensures
            r == OutputFormat::Default,
    {
        OutputFormat::Default
    }
}

/// A symbolic expression in postfix notation.
#[derive(PartialEq, Eq, Hash, Debug)]
pub struct Expression {
    symbols: SymbolBuf,
    complexity: u32,
    contains_x: bool,
}

/// Sum of the default weights of the symbols of `s`.
pub open spec fn weight_sum(s: Seq<Symbol>) -> int
    decreases s.len(),
{
    if s.len() == 0 {
        0
    } else {
        weight_sum(s.drop_last()) + s.last().weight_of()
    }
}

/// `v` capped at the largest `u32`.
pub open spec fn cap_u32(v: int) -> u32 {
    if v > u32::MAX {
        u32::MAX
    } else if v < 0 {
        0
    } else {
        v as u32
    }
}

/// The complexity of an expression built from `s` at once: the sum of the
/// weights, saturated at the largest `u32`.
pub open spec fn saturated_weight(s: Seq<Symbol>) -> u32 {
    cap_u32(weight_sum(s))
}

/// The symbols spelled by the bytes `b`, or `None` when a byte is not a symbol.
pub open spec fn decode_symbols(b: Seq<u8>) -> Option<Seq<Symbol>>
    decreases b.len(),
{
    if b.len() == 0 {
        Some(Seq::empty())
    } else {
        match (decode_symbols(b.drop_last()), Symbol::symbol_of_byte(b.last())) {
            (Some(p), Some(s)) => Some(p.push(s)),
            _ => None,
        }
    }
}

/// Number of occurrences of `sym` in `s`.
pub open spec fn count_of(s: Seq<Symbol>, sym: Symbol) -> nat
    decreases s.len(),
{
    if s.len() == 0 {
        0
    } else {
        count_of(s.drop_last(), sym) + if s.last() == sym {
            1nat
        } else {
            0nat
        }
    }
}

/// A symbol occurs in `s` exactly when its count in `s` is positive; so an
/// expression contains `x` exactly when its count of `x` is positive.
pub proof fn lemma_count_positive_iff_contains(s: Seq<Symbol>, sym: Symbol)
    ensures
        count_of(s, sym) > 0 <==> s.contains(sym),
        count_of(s, sym) <= s.len(),
    decreases s.len(),
{
    if s.len() > 0 {
        let p = s.drop_last();
        lemma_count_positive_iff_contains(p, sym);
        if p.contains(sym) {
            let k = choose|k: int| 0 <= k < p.len() && p[k] == sym;
            assert(s[k] == sym);
        }
        if s.last() == sym {
            assert(s[s.len() - 1] == sym);
        }
        if s.contains(sym) {
            let k = choose|k: int| 0 <= k < s.len() && s[k] == sym;
            if k < s.len() - 1 {
                assert(p[k] == sym);
            }
        }
    }
}

/// Number of symbols of `s` that are functions (stack effect other than `A`).
pub open spec fn operator_count_of(s: Seq<Symbol>) -> nat
    decreases s.len(),
{
    if s.len() == 0 {
        0
    } else {
        operator_count_of(s.drop_last()) + if s.last().seft_of() != Seft::A {
            1nat
        } else {
            0nat
        }
    }
}

/// The character that stands for a symbol in postfix text.
pub open spec fn postfix_char(s: Symbol) -> char {
    s.byte_of() as char
}

/// Postfix text of a symbol sequence.
pub open spec fn postfix_chars(s: Seq<Symbol>) -> Seq<char> {
    s.map_values(|sym: Symbol| postfix_char(sym))
}

/// Height of the tree denoted by `s`, or 0 when `s` is not well formed.
pub open spec fn depth_of(s: Seq<Symbol>) -> nat {
    match parse_tree(s) {
        Some(t) => tree_height(t),
        None => 0,
    }
}

impl View for Expression {
    type V = Seq<Symbol>;

    closed spec fn view(&self) -> Seq<Symbol> {
        buf_items(self.symbols)
    }
}

/// Symbols of an expression (the same as its view).
pub open spec fn syms(e: Expression) -> Seq<Symbol> {
    e@
}

impl Expression {
    /// The cached complexity score.
    pub closed spec fn complexity_of(self) -> u32 {
        self.complexity
    }

    /// The expression's cached flag agrees with its symbols.
    pub closed spec fn wf(self) -> bool {
        self.contains_x == buf_items(self.symbols).contains(Symbol::X)
    }

    /// Create an empty expression.
    pub fn new() -> (e: Self)
        ensures
            e.wf(),
            e@ == Seq::<Symbol>::empty(),
            e.complexity_of() == 0,
    {
        Expression { symbols: buf_new(), complexity: 0, contains_x: false }
    }

    /// Create an expression holding the symbols of `symbols` as they are,
    /// without checking that they form well-formed postfix text.
    pub fn from_symbols(symbols: &[Symbol]) -> (e: Self)
        ensures
            e.wf(),
            e@ == symbols@,
            e.complexity_of() == saturated_weight(symbols@),
    {
        let complexity = sum_weights(symbols);
        let contains_x = slice_contains(symbols, Symbol::X);
        Expression { symbols: buf_from_slice(symbols), complexity, contains_x }
    }

    /// Parse well-formed postfix text such as `"32s1+s*"`.
    ///
    /// Returns `None` when a byte is not a symbol or when the symbols do not
    /// form exactly one expression.
    pub fn parse(s: &str) -> (r: Option<Self>)
        ensures
            r is Some <==> (decode_symbols(s.spec_bytes()) matches Some(d) && valid_postfix(d)),
            r matches Some(e) ==> {
                &&& e.wf()
                &&& Some(e@) == decode_symbols(s.spec_bytes())
                &&& e.complexity_of() == saturated_weight(e@)
                &&& postfix_chars(e@) == s@
            },
    {
        proof {
            lemma_parse_postfix_roundtrip(s@);
        }
        let bytes = s.as_bytes();
        let mut decoded: Vec<Symbol> = Vec::new();
        let mut i: usize = 0;
        while i < bytes.len()
            invariant
                i <= bytes@.len(),
                bytes@ == s.spec_bytes(),
                decode_symbols(bytes@.take(i as int)) == Some(decoded@),
            decreases bytes.len() - i,
        {
            assert(bytes@.take(i + 1).drop_last() =~= bytes@.take(i as int));
            match Symbol::from_byte(bytes[i]) {
                Some(sym) => decoded.push(sym),
                None => {
                    proof {
                        lemma_decode_none_extends(bytes@, i as int + 1);
                    }
                    return None;
                },
            }
            i = i + 1;
        }
        assert(bytes@.take(bytes@.len() as int) =~= bytes@);
        if !is_valid_postfix(decoded.as_slice()) {
            return None;
        }
        Some(Expression::from_symbols(decoded.as_slice()))
    }

    /// The symbols of the expression, in postfix order.
    pub fn symbols(&self) -> (r: &[Symbol])
        ensures
            r@ == self@,
    {
        buf_as_slice(&self.symbols)
    }

    /// Number of symbols.
    pub fn len(&self) -> (n: usize)
        ensures
            n == self@.len(),
    {
        buf_as_slice(&self.symbols).len()
    }

    /// Whether the expression has no symbol.
    pub fn is_empty(&self) -> (r: bool)
        ensures
            r == (self@.len() == 0),
    {
        self.len() == 0
    }

    /// The complexity score.
    pub fn complexity(&self) -> (c: u32)
        ensures
            c == self.complexity_of(),
    {
        self.complexity
    }

    /// Whether the variable `x` occurs in the expression.
    pub fn contains_x(&self) -> (r: bool)
        requires
            self.wf(),
        ensures
            r == self@.contains(Symbol::X),
            r == (count_of(self@, Symbol::X) > 0),
    {
        proof {
            lemma_count_positive_iff_contains(self@, Symbol::X);
        }
        self.contains_x
    }

    /// Number of occurrences of `sym`, truncated to 32 bits.
    pub fn count_symbol(&self, sym: Symbol) -> (n: u32)
        ensures
            n == count_of(self@, sym) as u32,
    {
        let s = self.symbols();
        let mut count: usize = 0;
        let mut i: usize = 0;
        while i < s.len()
            invariant
                i <= s@.len(),
                s@ == self@,
                count == count_of(s@.take(i as int), sym),
                count <= i,
            decreases s.len() - i,
        {
            assert(s@.take(i + 1).drop_last() =~= s@.take(i as int));
            if s[i] == sym {
                count = count + 1;
            }
            i = i + 1;
        }
        assert(s@.take(s@.len() as int) =~= s@);
        count as u32
    }

    /// Whether the expression is well-formed postfix text (one value left).
    pub fn is_valid(&self) -> (r: bool)
        ensures
            r == valid_postfix(self@),
    {
        is_valid_postfix(self.symbols())
    }

    /// Append a symbol, adding its weight to the complexity (saturating).
    pub fn push(&mut self, sym: Symbol)
        requires
            old(self).wf(),
            old(self)@.len() < buf_push_limit(),
        ensures
            final(self).wf(),
            final(self)@ == old(self)@.push(sym),
            final(self).complexity_of() == cap_u32(old(self).complexity_of() + sym.weight_of()),
    {
        self.complexity = self.complexity.saturating_add(sym.weight());
        if sym == Symbol::X {
            self.contains_x = true;
        }
        buf_push(&mut self.symbols, sym);
        proof {
            let o = buf_items(old(self).symbols);
            assert(o.push(sym).contains(Symbol::X) <==> (o.contains(Symbol::X) || sym
                == Symbol::X)) by {
                if o.contains(Symbol::X) {
                    let k = choose|k: int| 0 <= k < o.len() && o[k] == Symbol::X;
                    assert(o.push(sym)[k] == Symbol::X);
                }
                if sym == Symbol::X {
                    assert(o.push(sym)[o.len() as int] == Symbol::X);
                }
                if o.push(sym).contains(Symbol::X) {
                    let k = choose|k: int| 0 <= k < o.len() + 1 && o.push(sym)[k] == Symbol::X;
                    if k < o.len() {
                        assert(o[k] == Symbol::X);
                    }
                }
            }
        }
    }

    /// A copy of the expression with `sym` appended, adding its weight to the
    /// complexity (saturating).
    pub fn appended(&self, sym: Symbol) -> (r: Self)
        requires
            self.wf(),
        ensures
            r.wf(),
            r@ == self@.push(sym),
            r.complexity_of() == cap_u32(self.complexity_of() + sym.weight_of()),
    {
        let src = self.symbols();
        let mut v: Vec<Symbol> = Vec::new();
        let mut i: usize = 0;
        while i < src.len()
            invariant
                i <= src@.len(),
                v@ == src@.take(i as int),
            decreases src.len() - i,
        {
            v.push(src[i]);
            assert(src@.take(i + 1) =~= src@.take(i as int).push(src@[i as int]));
            i = i + 1;
        }
        assert(src@.take(src@.len() as int) =~= src@);
        v.push(sym);
        let contains_x = self.contains_x || sym == Symbol::X;
        proof {
            let o = self@;
            if o.contains(Symbol::X) {
                let k = choose|k: int| 0 <= k < o.len() && o[k] == Symbol::X;
                assert(o.push(sym)[k] == Symbol::X);
            }
            if sym == Symbol::X {
                assert(o.push(sym)[o.len() as int] == Symbol::X);
            }
            if o.push(sym).contains(Symbol::X) {
                let k = choose|k: int| 0 <= k < o.len() + 1 && o.push(sym)[k] == Symbol::X;
                if k < o.len() {
                    assert(o[k] == Symbol::X);
                }
            }
        }
        Expression {
            symbols: buf_from_slice(v.as_slice()),
            complexity: self.complexity.saturating_add(sym.weight()),
            contains_x,
        }
    }

    /// Remove the last symbol, subtracting its weight from the complexity
    /// (saturating at zero).
    pub fn pop(&mut self) -> (r: Option<Symbol>)
        requires
            old(self).wf(),
        ensures
            final(self).wf(),
            old(self)@.len() == 0 ==> r is None && final(self)@ == old(self)@
                && final(self).complexity_of() == old(self).complexity_of(),
            old(self)@.len() > 0 ==> r == Some(old(self)@.last()) && final(self)@ == old(
                self,
            )@.drop_last() && final(self).complexity_of() == cap_u32(
                old(self).complexity_of() - old(self)@.last().weight_of(),
            ),
    {
        let popped = buf_pop(&mut self.symbols);
        match popped {
            None => None,
            Some(sym) => {
                self.complexity = self.complexity.saturating_sub(sym.weight());
                if sym == Symbol::X {
                    self.contains_x = slice_contains(buf_as_slice(&self.symbols), Symbol::X);
                } else {
                    proof {
                        let o = buf_items(old(self).symbols);
                        let n = buf_items(self.symbols);
                        assert(n =~= o.drop_last());
                        if o.contains(Symbol::X) {
                            let k = choose|k: int| 0 <= k < o.len() && o[k] == Symbol::X;
                            assert(k < o.len() - 1);
                            assert(n[k] == Symbol::X);
                        }
                        if n.contains(Symbol::X) {
                            let k = choose|k: int| 0 <= k < n.len() && n[k] == Symbol::X;
                            assert(o[k] == Symbol::X);
                        }
                    }
                }
                Some(sym)
            },
        }
    }

    /// The postfix text of the expression, one character per symbol.
    pub fn to_postfix(&self) -> (r: String)
        ensures
            r@ == postfix_chars(self@),
    {
        let s = self.symbols();
        let mut out: Vec<char> = Vec::new();
        let mut i: usize = 0;
        while i < s.len()
            invariant
                i <= s@.len(),
                s@ == self@,
                out@ == postfix_chars(s@.take(i as int)),
            decreases s.len() - i,
        {
            let b = s[i].to_byte();
            out.push(b as char);
            assert(postfix_chars(s@.take(i + 1)) =~= postfix_chars(s@.take(i as int)).push(
                postfix_char(s@[i as int]),
            ));
            i = i + 1;
        }
        assert(s@.take(s@.len() as int) =~= s@);
        chars_to_string(&out)
    }

    /// Number of function symbols (those that are not constants or `x`).
    pub fn operator_count(&self) -> (n: usize)
        ensures
            n == operator_count_of(self@),
    {
        let s = self.symbols();
        let mut count: usize = 0;
        let mut i: usize = 0;
        while i < s.len()
            invariant
                i <= s@.len(),
                s@ == self@,
                count == operator_count_of(s@.take(i as int)),
                count <= i,
            decreases s.len() - i,
        {
            assert(s@.take(i + 1).drop_last() =~= s@.take(i as int));
            if s[i].seft() != Seft::A {
                count = count + 1;
            }
            i = i + 1;
        }
        assert(s@.take(s@.len() as int) =~= s@);
        count
    }

    /// Height of the expression tree: 1 for a single atom, 0 when the
    /// expression is empty or not well formed.
    pub fn tree_depth(&self) -> (d: usize)
        ensures
            d == depth_of(self@),
    {
        let s = self.symbols();
        let mut stack: Vec<usize> = Vec::new();
        let mut i: usize = 0;
        while i < s.len()
            invariant
                i <= s@.len(),
                s@ == self@,
                postfix_stack(s@.take(i as int)) matches Some(st) && st.len() == stack@.len()
                    && forall|j: int|
                    0 <= j < st.len() ==> stack@[j] == tree_height(#[trigger] st[j]) && tree_height(
                        st[j],
                    ) <= i,
            decreases s.len() - i,
        {
            let ghost st = postfix_stack(s@.take(i as int))->Some_0;
            assert(s@.take(i + 1).drop_last() =~= s@.take(i as int));
            let sym = s[i];
            match sym.seft() {
                Seft::A => {
                    stack.push(1);
                },
                Seft::B => {
                    match stack.pop() {
                        Some(d) => {
                            stack.push(d + 1);
                        },
                        None => {
                            proof {
                                lemma_stack_none_extends(s@, i + 1);
                            }
                            return 0;
                        },
                    }
                },
                Seft::C => {
                    if stack.len() < 2 {
                        proof {
                            lemma_stack_none_extends(s@, i + 1);
                        }
                        return 0;
                    }
                    let r = stack.pop().unwrap();
                    let l = stack.pop().unwrap();
                    let m = if l >= r {
                        l
                    } else {
                        r
                    };
                    stack.push(m + 1);
                },
            }
            proof {
                let nst = postfix_stack(s@.take(i + 1))->Some_0;
                assert forall|j: int| 0 <= j < nst.len() implies stack@[j] == tree_height(
                    #[trigger] nst[j],
                ) && tree_height(nst[j]) <= i + 1 by {
                    if j < nst.len() - 1 {
                        assert(nst[j] == st[j]);
                    }
                }
            }
            i = i + 1;
        }
        assert(s@.take(s@.len() as int) =~= s@);
        if stack.len() == 1 {
            stack[0]
        } else {
            0
        }
    }
}

impl Clone for Expression {
    fn clone(&self) -> (r: Self)
        ensures
            r@ == self@,
            r.complexity_of() == self.complexity_of(),
            r.wf() == self.wf(),
    {
        Expression {
            symbols: buf_from_slice(buf_as_slice(&self.symbols)),
            complexity: self.complexity,
            contains_x: self.contains_x,
        }
    }
}

impl Default for Expression {
    fn default() -> (e: Self)
        ensures
            e.wf(),
            e@ == Seq::<Symbol>::empty(),
            e.complexity_of() == 0,
    {
        Expression::new()
    }
}

/// Decoding fails for good once one byte is not a symbol.
pub proof fn lemma_decode_none_extends(b: Seq<u8>, i: int)
    requires
        0 <= i <= b.len(),
        decode_symbols(b.take(i)) is None,
    ensures
        decode_symbols(b) is None,
    decreases b.len() - i,
{
    if i < b.len() {
        assert(b.take(i + 1).drop_last() =~= b.take(i));
        lemma_decode_none_extends(b, i + 1);
    } else {
        assert(b.take(i) =~= b);
    }
}

/// Sum of the weights of the symbols, saturating at the largest `u32`.
fn sum_weights(symbols: &[Symbol]) -> (c: u32)
    ensures
        c == saturated_weight(symbols@),
{
    let mut acc: u32 = 0;
    let mut i: usize = 0;
    while i < symbols.len()
        invariant
            i <= symbols@.len(),
            acc == saturated_weight(symbols@.take(i as int)),
        decreases symbols.len() - i,
    {
        assert(symbols@.take(i + 1).drop_last() =~= symbols@.take(i as int));
        proof {
            lemma_weight_sum_nonneg(symbols@.take(i as int));
        }
        acc = acc.saturating_add(symbols[i].weight());
        i = i + 1;
    }
    assert(symbols@.take(symbols@.len() as int) =~= symbols@);
    acc
}

/// An expression has no more operators than symbols.
pub proof fn lemma_operator_count_le_len(s: Seq<Symbol>)
    ensures
        operator_count_of(s) <= s.len(),
    decreases s.len(),
{
    if s.len() > 0 {
        lemma_operator_count_le_len(s.drop_last());
    }
}

/// Weights are never negative, so neither is their sum.
pub proof fn lemma_weight_sum_nonneg(s: Seq<Symbol>)
    ensures
        weight_sum(s) >= 0,
    decreases s.len(),
{
    if s.len() > 0 {
        lemma_weight_sum_nonneg(s.drop_last());
    }
}

/// Whether `sym` occurs in `s`.
pub(crate) fn slice_contains(s: &[Symbol], sym: Symbol) -> (r: bool)
    ensures
        r == s@.contains(sym),
{
    let mut i: usize = 0;
    while i < s.len()
        invariant
            i <= s@.len(),
            forall|j: int| 0 <= j < i ==> s@[j] != sym,
        decreases s.len() - i,
    {
        if s[i] == sym {
            assert(s@[i as int] == sym);
            return true;
        }
        i = i + 1;
    }
    false
}

/// Whether `symbols` is well-formed postfix text: every prefix leaves at
/// least one value on the stack and the whole text leaves exactly one.
pub fn is_valid_postfix(symbols: &[Symbol]) -> (r: bool)
    ensures
        r == valid_postfix(symbols@),
{
    let mut depth: usize = 0;
    let mut i: usize = 0;
    while i < symbols.len()
        invariant
            i <= symbols@.len(),
            depth == net_depth(symbols@.take(i as int)),
            depth <= i,
            forall|k: int| 1 <= k <= i ==> #[trigger] net_depth(symbols@.take(k)) >= 1,
        decreases symbols.len() - i,
    {
        assert(symbols@.take(i + 1).drop_last() =~= symbols@.take(i as int));
        match symbols[i].seft() {
            Seft::A => {
                depth = depth + 1;
            },
            Seft::B => {},
            Seft::C => {
                if depth == 0 {
                    assert(net_depth(symbols@.take(i + 1)) < 1);
                    return false;
                }
                depth = depth - 1;
            },
        }
        if depth < 1 {
            assert(net_depth(symbols@.take(i + 1)) < 1);
            return false;
        }
        i = i + 1;
    }
    assert(symbols@.take(symbols@.len() as int) =~= symbols@);
    depth == 1
}

/// Decoding the bytes `b` where each is the byte of the matching symbol of
/// `s` gives `s`.
proof fn lemma_decode_symbol_bytes(b: Seq<u8>, s: Seq<Symbol>)
    requires
        b.len() == s.len(),
        forall|k: int| 0 <= k < s.len() ==> #[trigger] b[k] == s[k].byte_of(),
    ensures
        decode_symbols(b) == Some(s),
    decreases s.len(),
{
    if s.len() > 0 {
        lemma_decode_symbol_bytes(b.drop_last(), s.drop_last());
        crate::symbol::lemma_symbol_byte_roundtrip(s.last());
        assert(b.last() == s.last().byte_of());
        assert(s.drop_last().push(s.last()) =~= s);
    } else {
        assert(s =~= Seq::<Symbol>::empty());
    }
}

/// Postfix text round trip: when every symbol has an ASCII byte, the UTF-8
/// bytes of the postfix text of `s` (what `to_postfix` writes) decode to
/// `s` again (what `parse` reads).
pub proof fn lemma_postfix_text_roundtrip(s: Seq<Symbol>)
    requires
        forall|k: int| 0 <= k < s.len() ==> #[trigger] s[k].byte_of() < 128,
    ensures
        decode_symbols(vstd::utf8::encode_utf8(postfix_chars(s))) == Some(s),
{
    let t = postfix_chars(s);
    assert forall|i: int| 0 <= i < t.len() implies '\0' <= #[trigger] t[i] <= '\u{7f}' by {
        assert(t[i] == s[i].byte_of() as char);
    }
    vstd::utf8::is_ascii_chars_encode_utf8(t);
    let b = vstd::utf8::encode_utf8(t);
    assert forall|k: int| 0 <= k < s.len() implies #[trigger] b[k] == s[k].byte_of() by {
        assert(t[k] as u8 == b[k]);
        assert(t[k] == s[k].byte_of() as char);
    }
    lemma_decode_symbol_bytes(b, s);
}

/// Pushing a symbol and popping it again restores the expression: `pop`
/// gives back the pushed symbol, the symbols are those from before, and so
/// is the complexity unless the push saturated it. `pushed` and `after` are
/// the states that `push` and then `pop` leave, as their contracts give them.
pub proof fn lemma_push_then_pop(
    before: Expression,
    sym: Symbol,
    pushed: Expression,
    after: Expression,
    r: Option<Symbol>,
)
    requires
        before.wf(),
        before.complexity_of() + sym.weight_of() <= u32::MAX,
        pushed.wf(),
        pushed@ == before@.push(sym),
        pushed.complexity_of() == cap_u32(before.complexity_of() + sym.weight_of()),
        after.wf(),
        r == Some(pushed@.last()),
        after@ == pushed@.drop_last(),
        after.complexity_of() == cap_u32(pushed.complexity_of() - pushed@.last().weight_of()),
    ensures
        r == Some(sym),
        after@ == before@,
        after.complexity_of() == before.complexity_of(),
{
    lemma_push_pop_inverse(before@, before.complexity_of(), sym);
}

/// Pushing a symbol and popping it again gives the symbol back and restores
/// the symbols, and restores the complexity when the push did not saturate
/// it (`push` and `pop` state these effects on the symbols `s` and the
/// complexity `c`).
pub proof fn lemma_push_pop_inverse(s: Seq<Symbol>, c: u32, sym: Symbol)
    ensures
        s.push(sym).last() == sym,
        s.push(sym).drop_last() == s,
        c + sym.weight_of() <= u32::MAX ==> cap_u32(cap_u32(c + sym.weight_of()) - sym.weight_of())
            == c,
{
    assert(s.push(sym).drop_last() =~= s);
}

/// A byte that decodes to a symbol is below `0x90`: symbols use the ASCII
/// bytes and `0x80`..`0x8f`.
proof fn lemma_symbol_byte_small(sym: Symbol)
    ensures
        sym.byte_of() < 0x90,
{
}

/// A decoded byte sequence has one symbol per byte, each the symbol of its
/// byte, and every byte is a symbol byte.
proof fn lemma_decoded_bytes(b: Seq<u8>, d: Seq<Symbol>)
    requires
        decode_symbols(b) == Some(d),
    ensures
        d.len() == b.len(),
        forall|k: int| 0 <= k < b.len() ==> #[trigger] d[k].byte_of() == b[k] && b[k] < 0x90,
    decreases b.len(),
{
    if b.len() > 0 {
        let p = decode_symbols(b.drop_last())->Some_0;
        let sym = Symbol::symbol_of_byte(b.last())->Some_0;
        lemma_decoded_bytes(b.drop_last(), p);
        crate::symbol::lemma_byte_symbol_roundtrip(b.last());
        lemma_symbol_byte_small(sym);
        assert(d == p.push(sym));
        assert forall|k: int| 0 <= k < b.len() implies #[trigger] d[k].byte_of() == b[k] && b[k] < 0x90 by {
            if k < b.len() - 1 {
                assert(d[k] == p[k]);
                assert(b.drop_last()[k] == b[k]);
                assert(p[k].byte_of() == b.drop_last()[k]);
            } else {
                assert(d[k] == sym);
            }
        }
    }
}

/// The leading byte of a UTF-8 sequence of two or more bytes is at least
/// `0xC0`.
proof fn lemma_leading_bytes_high(x: u8)
    by (bit_vector)
    ensures
        0xC0u8 | x >= 0xC0u8,
        0xE0u8 | x >= 0xC0u8,
        0xF0u8 | x >= 0xC0u8,
{
}

/// Characters whose UTF-8 encoding has no byte of `0xC0` or above are all
/// ASCII.
proof fn lemma_low_bytes_ascii(chars: Seq<char>)
    requires
        forall|k: int| 0 <= k < encode_utf8(chars).len() ==> #[trigger] encode_utf8(chars)[k] < 0xC0,
    ensures
        is_ascii_chars(chars),
    decreases chars.len(),
{
    if chars.len() > 0 {
        let c = chars[0] as u32;
        let head = encode_scalar(c);
        let rest = encode_utf8(chars.drop_first());
        assert(encode_utf8(chars) == head + rest);
        assert(encode_utf8(chars)[0] == head[0]);
        if !has_width_1_encoding(c) {
            lemma_leading_bytes_high(((c >> 6) & 0x1F) as u8);
            lemma_leading_bytes_high(((c >> 12) & 0x0F) as u8);
            lemma_leading_bytes_high(((c >> 18) & 0x7) as u8);
            assert(head[0] >= 0xC0);
        }
        assert(has_width_1_encoding(c));
        assert forall|k: int| 0 <= k < rest.len() implies #[trigger] rest[k] < 0xC0 by {
            assert(encode_utf8(chars)[k + head.len()] == rest[k]);
        }
        lemma_low_bytes_ascii(chars.drop_first());
        assert forall|i: int| 0 <= i < chars.len() implies '\0' <= #[trigger] chars[i] <= '\u{7f}' by {
            if i > 0 {
                assert(chars.drop_first()[i - 1] == chars[i]);
            } else {
                vstd::utf8::char_u32_cast(chars[0], c);
                assert((c as char) == chars[0]);
                assert(c <= 0x7F);
                assert((c as char) <= '\u{7f}');
            }
        }
    }
}

/// Text that parses is given back by its postfix text: only ASCII text
/// decodes into symbols, one symbol per character, and each symbol is
/// written as the character it was read from.
pub proof fn lemma_parse_postfix_roundtrip(s: Seq<char>)
    ensures
        decode_symbols(encode_utf8(s)) matches Some(d) ==> postfix_chars(d) == s,
{
    let b = encode_utf8(s);
    if let Some(d) = decode_symbols(b) {
        lemma_decoded_bytes(b, d);
        assert forall|k: int| 0 <= k < b.len() implies #[trigger] b[k] < 0xC0 by {
            assert(d[k].byte_of() == b[k]);
        }
        lemma_low_bytes_ascii(s);
        is_ascii_chars_encode_utf8(s);
        assert forall|i: int| 0 <= i < s.len() implies #[trigger] postfix_chars(d)[i] == s[i] by {
            assert(d[i].byte_of() == b[i]);
            assert(b[i] == s[i] as u8);
            assert(('\0' <= s[i] <= '\u{7f}'));
        }
        assert(postfix_chars(d) =~= s);
    }
}

} // verus!
