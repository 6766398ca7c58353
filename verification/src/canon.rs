//! Canonical keys and digit signatures of expressions.
//!
//! The canonical key of an expression writes its tree with every function
//! in front of its operands, ordering the two operands of `+` and `*` so
//! that expressions that differ only by the order of those operands share
//! one key. The digit signature lists the digit constants of an expression
//! in increasing order.

use vstd::prelude::*;
use crate::expr::{count_of, postfix_char, Expression};
use crate::solve::{build_solve_ast, node_tree, node_wf, SolveNode, SolveNodeKind};
use crate::symbol::{Seft, Symbol};
use crate::text::{chars_to_string, decimal, digit_char};
use crate::tree::{
    lemma_parse_tree_postfix, lemma_parse_tree_roundtrip, lemma_parse_tree_wf, lemma_valid_iff_tree,
    parse_tree, tree_postfix, tree_wf, valid_postfix, Tree,
};

verus! {

/// Whether `b` is a printable ASCII character other than space.
pub open spec fn is_graphic_byte(b: u8) -> bool {
    0x21 <= b <= 0x7e
}

/// Key of one symbol: its character when printable, else `#` and its byte
/// value in decimal.
pub open spec fn sym_key(s: Symbol) -> Seq<char> {
    if is_graphic_byte(s.byte_of()) {
        seq![s.byte_of() as char]
    } else {
        seq!['#'] + decimal(s.byte_of() as nat)
    }
}

/// Strict lexicographic order on character sequences, by code point.
pub open spec fn lex_less(a: Seq<char>, b: Seq<char>) -> bool
    decreases a.len(),
{
    if a.len() == 0 {
        b.len() > 0
    } else if b.len() == 0 {
        false
    } else if a[0] != b[0] {
        a[0] < b[0]
    } else {
        lex_less(a.skip(1), b.skip(1))
    }
}

/// Canonical key of a tree.
pub open spec fn canon_key(t: Tree) -> Seq<char>
    decreases t,
{
    match t {
        Tree::Leaf(s) => seq![postfix_char(s)],
        Tree::Unary(op, a) => sym_key(op) + seq!['('] + canon_key(*a) + seq![')'],
        Tree::Binary(op, a, b) => {
            let lk = canon_key(*a);
            let rk = canon_key(*b);
            if (op == Symbol::Add || op == Symbol::Mul) && lex_less(rk, lk) {
                seq!['('] + rk + sym_key(op) + lk + seq![')']
            } else {
                seq!['('] + lk + sym_key(op) + rk + seq![')']
            }
        },
    }
}

/// Canonical key of postfix symbols, when they form one expression.
pub open spec fn canonical_key_of(s: Seq<Symbol>) -> Option<Seq<char>> {
    match parse_tree(s) {
        Some(t) => Some(canon_key(t)),
        None => None,
    }
}

/// `n` copies of `c`.
pub open spec fn repeat_char(c: char, n: nat) -> Seq<char> {
    Seq::new(n, |i: int| c)
}

/// The digit constants of `s` as characters, in increasing order.
pub open spec fn digit_signature_of(s: Seq<Symbol>) -> Seq<char> {
    repeat_char('1', count_of(s, Symbol::One)) + repeat_char('2', count_of(s, Symbol::Two))
        + repeat_char('3', count_of(s, Symbol::Three)) + repeat_char('4', count_of(s, Symbol::Four))
        + repeat_char('5', count_of(s, Symbol::Five)) + repeat_char('6', count_of(s, Symbol::Six))
        + repeat_char('7', count_of(s, Symbol::Seven)) + repeat_char(
        '8',
        count_of(s, Symbol::Eight),
    ) + repeat_char('9', count_of(s, Symbol::Nine))
}

/// `lex_less` never holds of a sequence and itself.
pub proof fn lemma_lex_irreflexive(a: Seq<char>)
    ensures
        !lex_less(a, a),
    decreases a.len(),
{
    if a.len() > 0 {
        lemma_lex_irreflexive(a.skip(1));
    }
}

/// `lex_less` never holds both ways.
pub proof fn lemma_lex_asymmetric(a: Seq<char>, b: Seq<char>)
    ensures
        !(lex_less(a, b) && lex_less(b, a)),
    decreases a.len(),
{
    if a.len() > 0 && b.len() > 0 && a[0] == b[0] {
        lemma_lex_asymmetric(a.skip(1), b.skip(1));
    }
}

/// Two different sequences are ordered one way or the other.
pub proof fn lemma_lex_total(a: Seq<char>, b: Seq<char>)
    ensures
        a == b || lex_less(a, b) || lex_less(b, a),
    decreases a.len(),
{
    if a.len() == 0 {
        if b.len() == 0 {
            assert(a =~= b);
        }
    } else if b.len() > 0 {
        if a[0] == b[0] {
            lemma_lex_total(a.skip(1), b.skip(1));
            if a.skip(1) == b.skip(1) {
                assert(a =~= seq![a[0]] + a.skip(1));
                assert(b =~= seq![b[0]] + b.skip(1));
            }
        } else {
            assert(a[0] < b[0] || b[0] < a[0]);
        }
    }
}

/// The canonical key does not depend on the order of the operands of `+`
/// and `*`.
pub proof fn lemma_canonical_key_commutes(op: Symbol, a: Tree, b: Tree)
    requires
        op == Symbol::Add || op == Symbol::Mul,
    ensures
        canon_key(Tree::Binary(op, Box::new(a), Box::new(b))) == canon_key(
            Tree::Binary(op, Box::new(b), Box::new(a)),
        ),
{
    let ka = canon_key(a);
    let kb = canon_key(b);
    lemma_lex_total(ka, kb);
    lemma_lex_asymmetric(ka, kb);
    lemma_lex_irreflexive(ka);
}

/// The canonical key of the equation side "a, then b, then `+`" (or `*`)
/// is that of "b, then a, then the same operator", for any well-formed
/// postfix `a` and `b`; and only well-formed postfix has a key.
pub proof fn lemma_canonical_key_commutes_postfix(op: Symbol, a: Seq<Symbol>, b: Seq<Symbol>)
    requires
        op == Symbol::Add || op == Symbol::Mul,
        valid_postfix(a),
        valid_postfix(b),
    ensures
        canonical_key_of((a + b).push(op)) is Some,
        canonical_key_of((a + b).push(op)) == canonical_key_of((b + a).push(op)),
{
    lemma_valid_iff_tree(a);
    lemma_valid_iff_tree(b);
    lemma_parse_tree_postfix(a);
    lemma_parse_tree_postfix(b);
    lemma_parse_tree_wf(a);
    lemma_parse_tree_wf(b);
    let ta = parse_tree(a)->Some_0;
    let tb = parse_tree(b)->Some_0;
    let tab = Tree::Binary(op, Box::new(ta), Box::new(tb));
    let tba = Tree::Binary(op, Box::new(tb), Box::new(ta));
    lemma_parse_tree_roundtrip(tab);
    lemma_parse_tree_roundtrip(tba);
    assert(tree_postfix(tab) == (a + b).push(op));
    assert(tree_postfix(tba) == (b + a).push(op));
    lemma_canonical_key_commutes(op, ta, tb);
}

/// An expression that is not well-formed postfix has no canonical key.
pub proof fn lemma_canonical_key_needs_valid(s: Seq<Symbol>)
    ensures
        canonical_key_of(s) is Some <==> valid_postfix(s),
{
    lemma_valid_iff_tree(s);
}

/// Whether two trees are the same up to the order of the operands of `+`
/// and `*`.
pub open spec fn comm_equiv(t1: Tree, t2: Tree) -> bool
    decreases t1,
{
    match (t1, t2) {
        (Tree::Leaf(a), Tree::Leaf(b)) => a == b,
        (Tree::Unary(o1, a1), Tree::Unary(o2, a2)) => o1 == o2 && comm_equiv(*a1, *a2),
        (Tree::Binary(o1, a1, b1), Tree::Binary(o2, a2, b2)) => o1 == o2 && ((comm_equiv(*a1, *a2)
            && comm_equiv(*b1, *b2)) || ((o1 == Symbol::Add || o1 == Symbol::Mul) && comm_equiv(
            *a1,
            *b2,
        ) && comm_equiv(*b1, *a2))),
        _ => false,
    }
}

/// Symbol bytes: no symbol is written `(` or `)`, and every function symbol
/// is a printable ASCII character.
proof fn lemma_symbol_key_chars(s: Symbol)
    ensures
        s.byte_of() != 40,
        s.byte_of() != 41,
        s.seft_of() != Seft::A ==> is_graphic_byte(s.byte_of()),
{
}

/// Two symbols written with the same character are the same symbol.
proof fn lemma_same_char_same_symbol(a: Symbol, b: Symbol)
    requires
        (a.byte_of() as char) == (b.byte_of() as char),
    ensures
        a == b,
{
    assert(a.byte_of() == b.byte_of());
    crate::symbol::lemma_symbol_byte_roundtrip(a);
    crate::symbol::lemma_symbol_byte_roundtrip(b);
}

/// The first character of a key: the symbol's character for a leaf or a
/// function of one argument, `(` for a function of two arguments.
proof fn lemma_key_first(t: Tree)
    requires
        tree_wf(t),
    ensures
        canon_key(t).len() > 0,
        t matches Tree::Leaf(c) ==> canon_key(t)[0] == postfix_char(c) && canon_key(t)[0] != '(',
        t matches Tree::Unary(o, _) ==> canon_key(t)[0] == (o.byte_of() as char) && canon_key(t)[0]
            != '(',
        t is Binary ==> canon_key(t)[0] == '(',
{
    match t {
        Tree::Leaf(c) => {
            lemma_symbol_key_chars(c);
        },
        Tree::Unary(o, a) => {
            lemma_symbol_key_chars(o);
        },
        Tree::Binary(o, a, b) => {},
    }
}

/// Keys read unambiguously from the left: if one key followed by some text
/// equals another key followed by some text, the keys are of trees equal up
/// to the order of the operands of `+` and `*`, and the texts are equal.
proof fn lemma_key_prefix(t1: Tree, t2: Tree, s1: Seq<char>, s2: Seq<char>)
    requires
        tree_wf(t1),
        tree_wf(t2),
        canon_key(t1) + s1 == canon_key(t2) + s2,
    ensures
        s1 == s2,
        comm_equiv(t1, t2),
    decreases t1, 1nat,
{
    let k1 = canon_key(t1);
    let k2 = canon_key(t2);
    lemma_key_first(t1);
    lemma_key_first(t2);
    assert((k1 + s1)[0] == k1[0]);
    assert((k2 + s2)[0] == k2[0]);
    match (t1, t2) {
        (Tree::Leaf(c1), Tree::Leaf(c2)) => {
            lemma_same_char_same_symbol(c1, c2);
            assert(s1 =~= (k1 + s1).skip(1));
            assert(s2 =~= (k2 + s2).skip(1));
        },
        (Tree::Leaf(c1), Tree::Unary(o2, _)) => {
            lemma_same_char_same_symbol(c1, o2);
        },
        (Tree::Unary(o1, _), Tree::Leaf(c2)) => {
            lemma_same_char_same_symbol(c2, o1);
        },
        (Tree::Unary(_, _), Tree::Unary(_, _)) => {
            lemma_key_prefix_unary(t1, t2, s1, s2);
        },
        (Tree::Binary(_, _, _), Tree::Binary(_, _, _)) => {
            lemma_key_prefix_binary(t1, t2, s1, s2);
        },
        _ => {},
    }
}

/// `lemma_key_prefix` for two functions of one argument.
proof fn lemma_key_prefix_unary(t1: Tree, t2: Tree, s1: Seq<char>, s2: Seq<char>)
    requires
        tree_wf(t1),
        tree_wf(t2),
        t1 is Unary,
        t2 is Unary,
        canon_key(t1) + s1 == canon_key(t2) + s2,
    ensures
        s1 == s2,
        comm_equiv(t1, t2),
    decreases t1, 0nat,
{
    if let (Tree::Unary(o1, a1), Tree::Unary(o2, a2)) = (t1, t2) {
        let k1 = canon_key(t1);
        let k2 = canon_key(t2);
        lemma_symbol_key_chars(o1);
        lemma_symbol_key_chars(o2);
        assert(k1 =~= seq![o1.byte_of() as char, '('] + canon_key(*a1) + seq![')']);
        assert(k2 =~= seq![o2.byte_of() as char, '('] + canon_key(*a2) + seq![')']);
        assert((k1 + s1)[0] == (k2 + s2)[0]);
        lemma_same_char_same_symbol(o1, o2);
        assert((k1 + s1).skip(2) =~= canon_key(*a1) + (seq![')'] + s1));
        assert((k2 + s2).skip(2) =~= canon_key(*a2) + (seq![')'] + s2));
        lemma_key_prefix(*a1, *a2, seq![')'] + s1, seq![')'] + s2);
        assert(s1 =~= (seq![')'] + s1).skip(1));
        assert(s2 =~= (seq![')'] + s2).skip(1));
    }
}

/// `lemma_key_prefix` for two functions of two arguments.
#[verifier::rlimit(40)]
proof fn lemma_key_prefix_binary(t1: Tree, t2: Tree, s1: Seq<char>, s2: Seq<char>)
    requires
        tree_wf(t1),
        tree_wf(t2),
        t1 is Binary,
        t2 is Binary,
        canon_key(t1) + s1 == canon_key(t2) + s2,
    ensures
        s1 == s2,
        comm_equiv(t1, t2),
    decreases t1, 0nat,
{
    if let (Tree::Binary(o1, a1, b1), Tree::Binary(o2, a2, b2)) = (t1, t2) {
        lemma_symbol_key_chars(o1);
        lemma_symbol_key_chars(o2);
        let sw1 = (o1 == Symbol::Add || o1 == Symbol::Mul) && lex_less(canon_key(*b1), canon_key(*a1));
        let sw2 = (o2 == Symbol::Add || o2 == Symbol::Mul) && lex_less(canon_key(*b2), canon_key(*a2));
        let p1 = if sw1 { *b1 } else { *a1 };
        let q1 = if sw1 { *a1 } else { *b1 };
        let p2 = if sw2 { *b2 } else { *a2 };
        let q2 = if sw2 { *a2 } else { *b2 };
        let c1 = seq![o1.byte_of() as char];
        let c2 = seq![o2.byte_of() as char];
        let k1 = canon_key(t1);
        let k2 = canon_key(t2);
        assert(k1 =~= seq!['('] + canon_key(p1) + c1 + canon_key(q1) + seq![')']);
        assert(k2 =~= seq!['('] + canon_key(p2) + c2 + canon_key(q2) + seq![')']);
        let r1 = c1 + canon_key(q1) + seq![')'] + s1;
        let r2 = c2 + canon_key(q2) + seq![')'] + s2;
        assert((k1 + s1).skip(1) =~= canon_key(p1) + r1);
        assert((k2 + s2).skip(1) =~= canon_key(p2) + r2);
        lemma_key_prefix(p1, p2, r1, r2);
        assert(r1[0] == r2[0]);
        lemma_same_char_same_symbol(o1, o2);
        assert(r1.skip(1) =~= canon_key(q1) + (seq![')'] + s1));
        assert(r2.skip(1) =~= canon_key(q2) + (seq![')'] + s2));
        lemma_key_prefix(q1, q2, seq![')'] + s1, seq![')'] + s2);
        assert(s1 =~= (seq![')'] + s1).skip(1));
        assert(s2 =~= (seq![')'] + s2).skip(1));
    }
}

/// Equal canonical keys belong to trees that are equal up to the order of
/// the operands of `+` and `*`: the key merges no two equations that differ
/// otherwise, and the operands of `-`, `/`, `^` and the other functions
/// keep their order.
pub proof fn lemma_equal_keys_commute_only(t1: Tree, t2: Tree)
    requires
        tree_wf(t1),
        tree_wf(t2),
        canon_key(t1) == canon_key(t2),
    ensures
        comm_equiv(t1, t2),
{
    assert(canon_key(t1) + Seq::<char>::empty() =~= canon_key(t1));
    assert(canon_key(t2) + Seq::<char>::empty() =~= canon_key(t2));
    lemma_key_prefix(t1, t2, Seq::empty(), Seq::empty());
}

/// Two expressions with the same canonical key are the same expression up
/// to the order of the operands of `+` and `*`.
pub proof fn lemma_equal_expression_keys(s1: Seq<Symbol>, s2: Seq<Symbol>)
    requires
        canonical_key_of(s1) is Some,
        canonical_key_of(s1) == canonical_key_of(s2),
    ensures
        comm_equiv(parse_tree(s1)->Some_0, parse_tree(s2)->Some_0),
{
    lemma_parse_tree_wf(s1);
    lemma_parse_tree_wf(s2);
    lemma_equal_keys_commute_only(parse_tree(s1)->Some_0, parse_tree(s2)->Some_0);
}

/// Decimal text of a byte.
fn decimal_u8(b: u8) -> (r: Vec<char>)
    ensures
        r@ == decimal(b as nat),
{
    if b < 10 {
        vec![(48u8 + b) as char]
    } else if b < 100 {
        let t = b / 10;
        let u = b % 10;
        let r = vec![(48u8 + t) as char, (48u8 + u) as char];
        assert(decimal(t as nat) == seq![digit_char(t as nat)]);
        assert(r@ =~= decimal(t as nat).push(digit_char(u as nat)));
        r
    } else {
        let h = b / 100;
        let t = (b / 10) % 10;
        let u = b % 10;
        let r = vec![(48u8 + h) as char, (48u8 + t) as char, (48u8 + u) as char];
        assert(decimal(h as nat) == seq![digit_char(h as nat)]);
        assert((b / 10) as nat / 10 == h as nat);
        assert(decimal((b / 10) as nat) =~= seq![digit_char(h as nat), digit_char(t as nat)]);
        assert(r@ =~= decimal((b / 10) as nat).push(digit_char(u as nat)));
        r
    }
}

/// Key of one symbol: its character when printable, else `#` and its byte
/// value in decimal.
pub fn symbol_key(sym: Symbol) -> (r: String)
    ensures
        r@ == sym_key(sym),
{
    let v = symbol_key_chars(sym);
    chars_to_string(&v)
}

/// Key of one symbol as characters.
fn symbol_key_chars(sym: Symbol) -> (r: Vec<char>)
    ensures
        r@ == sym_key(sym),
{
    let b = sym.to_byte();
    if 0x21 <= b && b <= 0x7e {
        vec![b as char]
    } else {
        let mut r = vec!['#'];
        let d = decimal_u8(b);
        crate::text::push_all(&mut r, &d);
        r
    }
}

/// Whether `a` comes strictly before `b` in lexicographic order.
fn chars_less(a: &Vec<char>, b: &Vec<char>) -> (r: bool)
    ensures
        r == lex_less(a@, b@),
{
    let mut i: usize = 0;
    assert(a@.skip(0) =~= a@ && b@.skip(0) =~= b@);
    while i < a.len() && i < b.len()
        invariant
            i <= a@.len(),
            i <= b@.len(),
            forall|k: int| 0 <= k < i ==> a@[k] == b@[k],
            lex_less(a@, b@) == lex_less(a@.skip(i as int), b@.skip(i as int)),
        decreases a.len() - i,
    {
        if a[i] != b[i] {
            let ca = a[i];
            let cb = b[i];
            assert(a@.skip(i as int)[0] == ca && b@.skip(i as int)[0] == cb);
            return ca < cb;
        }
        assert(a@.skip(i as int).skip(1) =~= a@.skip(i + 1));
        assert(b@.skip(i as int).skip(1) =~= b@.skip(i + 1));
        i = i + 1;
    }
    i == a.len() && i < b.len()
}

/// Canonical key of a solve node.
fn canonical_node_key(node: &SolveNode) -> (r: Vec<char>)
    requires
        node_wf(*node),
    ensures
        r@ == canon_key(node_tree(*node)),
    decreases *node,
{
    match &node.kind {
        SolveNodeKind::Atom => {
            let s = node.expr.symbols();
            vec![s[0].to_byte() as char]
        },
        SolveNodeKind::Unary(op, child) => {
            let mut r = symbol_key_chars(*op);
            r.push('(');
            let ck = canonical_node_key(child);
            crate::text::push_all(&mut r, &ck);
            r.push(')');
            r
        },
        SolveNodeKind::Binary(op, left, right) => {
            let lk = canonical_node_key(left);
            let rk = canonical_node_key(right);
            let swap = (*op == Symbol::Add || *op == Symbol::Mul) && chars_less(&rk, &lk);
            let (first, second) = if swap {
                (rk, lk)
            } else {
                (lk, rk)
            };
            let mut r = vec!['('];
            crate::text::push_all(&mut r, &first);
            let k = symbol_key_chars(*op);
            crate::text::push_all(&mut r, &k);
            crate::text::push_all(&mut r, &second);
            r.push(')');
            r
        },
    }
}

/// Canonical key of an expression, or `None` when it is not one
/// well-formed postfix expression.
pub fn canonical_expression_key(expression: &Expression) -> (r: Option<String>)
    ensures
        r is Some <==> canonical_key_of(expression@) is Some,
        r matches Some(k) ==> Some(k@) == canonical_key_of(expression@),
{
    match build_solve_ast(expression) {
        Some(node) => {
            let v = canonical_node_key(&node);
            Some(chars_to_string(&v))
        },
        None => None,
    }
}

/// Number of occurrences of `sym` in `s`.
fn count_in(s: &[Symbol], sym: Symbol) -> (n: usize)
    ensures
        n == count_of(s@, sym),
{
    let mut count: usize = 0;
    let mut i: usize = 0;
    while i < s.len()
        invariant
            i <= s@.len(),
            count == count_of(s@.take(i as int), sym),
            count <= i,
        decreases s.len() - i,
    {
        assert(s@.take(i + 1).drop_last() =~= s@.take(i as int));
        if s[i] == sym {
            count = count + 1;
        }
        i = i + 1;
    }
    assert(s@.take(s@.len() as int) =~= s@);
    count
}

/// Appends `n` copies of `c`.
fn push_repeat(out: &mut Vec<char>, c: char, n: usize)
    ensures
        final(out)@ == old(out)@ + repeat_char(c, n as nat),
{
    let mut k: usize = 0;
    while k < n
        invariant
            k <= n,
            out@ == old(out)@ + repeat_char(c, k as nat),
        decreases n - k,
    {
        out.push(c);
        assert(repeat_char(c, (k + 1) as nat) =~= repeat_char(c, k as nat).push(c));
        k = k + 1;
    }
}

/// The digit constants of the expression, as characters in increasing order.
pub fn digit_signature(expression: &Expression) -> (r: String)
    ensures
        r@ == digit_signature_of(expression@),
{
    let v = digit_signature_chars(expression);
    chars_to_string(&v)
}

/// The digit signature as characters.
fn digit_signature_chars(expression: &Expression) -> (r: Vec<char>)
    ensures
        r@ == digit_signature_of(expression@),
{
    let s = expression.symbols();
    let mut out: Vec<char> = Vec::new();
    push_repeat(&mut out, '1', count_in(s, Symbol::One));
    push_repeat(&mut out, '2', count_in(s, Symbol::Two));
    push_repeat(&mut out, '3', count_in(s, Symbol::Three));
    push_repeat(&mut out, '4', count_in(s, Symbol::Four));
    push_repeat(&mut out, '5', count_in(s, Symbol::Five));
    push_repeat(&mut out, '6', count_in(s, Symbol::Six));
    push_repeat(&mut out, '7', count_in(s, Symbol::Seven));
    push_repeat(&mut out, '8', count_in(s, Symbol::Eight));
    push_repeat(&mut out, '9', count_in(s, Symbol::Nine));
    assert(out@ =~= digit_signature_of(expression@));
    out
}

/// Whether two character vectors are equal.
fn chars_equal(a: &Vec<char>, b: &Vec<char>) -> (r: bool)
    ensures
        r == (a@ == b@),
{
    if a.len() != b.len() {
        return false;
    }
    let mut i: usize = 0;
    while i < a.len()
        invariant
            i <= a@.len(),
            a@.len() == b@.len(),
            forall|k: int| 0 <= k < i ==> a@[k] == b@[k],
        decreases a.len() - i,
    {
        if a[i] != b[i] {
            return false;
        }
        i = i + 1;
    }
    assert(a@ =~= b@);
    true
}

/// Whether the two sides of an equation use the same nonempty multiset of
/// digit constants.
pub fn match_is_numeric_anagram(lhs: &Expression, rhs: &Expression) -> (r: bool)
    ensures
        r == (digit_signature_of(lhs@).len() > 0 && digit_signature_of(lhs@)
            == digit_signature_of(rhs@)),
{
    let l = digit_signature_chars(lhs);
    let r = digit_signature_chars(rhs);
    l.len() > 0 && chars_equal(&l, &r)
}

} // verus!
