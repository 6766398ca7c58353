//! The meaning of postfix text as a stack of expression trees.
//!
//! Reading postfix symbols from left to right, a symbol with stack effect
//! `A` pushes a leaf, `B` replaces the top tree by a unary node over it and
//! `C` replaces the two top trees by a binary node. This module states that
//! reading as spec functions, which the contracts of the exec functions in
//! the other modules are written against.

use vstd::prelude::*;
use crate::symbol::{Seft, Symbol};

verus! {

/// An expression tree.
pub enum Tree {
    /// A constant or the variable.
    Leaf(Symbol),
    /// A function of one argument applied to a subtree.
    Unary(Symbol, Box<Tree>),
    /// A function of two arguments applied to a left and a right subtree.
    Binary(Symbol, Box<Tree>, Box<Tree>),
}

/// One step of reading postfix text: the stack after reading `sym`, or
/// `None` when `sym` needs more operands than the stack holds.
pub open spec fn stack_step(st: Seq<Tree>, sym: Symbol) -> Option<Seq<Tree>> {
    match sym.seft_of() {
        Seft::A => Some(st.push(Tree::Leaf(sym))),
        Seft::B => {
            if st.len() >= 1 {
                Some(st.drop_last().push(Tree::Unary(sym, Box::new(st.last()))))
            } else {
                None
            }
        },
        Seft::C => {
            if st.len() >= 2 {
                let r = st[st.len() - 1];
                let l = st[st.len() - 2];
                Some(st.subrange(0, st.len() - 2).push(Tree::Binary(sym, Box::new(l), Box::new(r))))
            } else {
                None
            }
        },
    }
}

/// The stack of trees left after reading all of `s`, or `None` on underflow.
pub open spec fn postfix_stack(s: Seq<Symbol>) -> Option<Seq<Tree>>
    decreases s.len(),
{
    if s.len() == 0 {
        Some(Seq::empty())
    } else {
        match postfix_stack(s.drop_last()) {
            Some(st) => stack_step(st, s.last()),
            None => None,
        }
    }
}

/// The single tree that well-formed postfix text denotes.
pub open spec fn parse_tree(s: Seq<Symbol>) -> Option<Tree> {
    match postfix_stack(s) {
        Some(st) => if st.len() == 1 {
            Some(st[0])
        } else {
            None
        },
        None => None,
    }
}

/// Height of a tree: a leaf has height 1.
pub open spec fn tree_height(t: Tree) -> nat
    decreases t,
{
    match t {
        Tree::Leaf(_) => 1,
        Tree::Unary(_, a) => tree_height(*a) + 1,
        Tree::Binary(_, a, b) => {
            let ha = tree_height(*a);
            let hb = tree_height(*b);
            (if ha >= hb {
                ha
            } else {
                hb
            }) + 1
        },
    }
}

/// Number of symbols in a tree.
pub open spec fn tree_size(t: Tree) -> nat
    decreases t,
{
    match t {
        Tree::Leaf(_) => 1,
        Tree::Unary(_, a) => tree_size(*a) + 1,
        Tree::Binary(_, a, b) => tree_size(*a) + tree_size(*b) + 1,
    }
}

/// The postfix symbols of a tree.
pub open spec fn tree_postfix(t: Tree) -> Seq<Symbol>
    decreases t,
{
    match t {
        Tree::Leaf(s) => seq![s],
        Tree::Unary(op, a) => tree_postfix(*a).push(op),
        Tree::Binary(op, a, b) => (tree_postfix(*a) + tree_postfix(*b)).push(op),
    }
}

/// 1 when `s` is the variable, 0 otherwise.
pub open spec fn x_mark(s: Symbol) -> nat {
    if s == Symbol::X {
        1
    } else {
        0
    }
}

/// Number of occurrences of `x` among the symbols of a tree.
pub open spec fn tree_x_count(t: Tree) -> nat
    decreases t,
{
    match t {
        Tree::Leaf(s) => x_mark(s),
        Tree::Unary(op, a) => tree_x_count(*a) + x_mark(op),
        Tree::Binary(op, a, b) => tree_x_count(*a) + tree_x_count(*b) + x_mark(op),
    }
}

/// Net number of values that the symbols of `s` leave on the stack.
pub open spec fn net_depth(s: Seq<Symbol>) -> int
    decreases s.len(),
{
    if s.len() == 0 {
        0
    } else {
        net_depth(s.drop_last()) + match s.last().seft_of() {
            Seft::A => 1int,
            Seft::B => 0int,
            Seft::C => -1int,
        }
    }
}

/// Postfix text is well formed when every nonempty prefix leaves at least one
/// value on the stack and the whole text leaves exactly one.
pub open spec fn valid_postfix(s: Seq<Symbol>) -> bool {
    &&& forall|i: int| 1 <= i <= s.len() ==> #[trigger] net_depth(s.take(i)) >= 1
    &&& net_depth(s) == 1
}

/// Once the reading underflows, it stays failed whatever follows.
pub proof fn lemma_stack_none_extends(s: Seq<Symbol>, i: int)
    requires
        0 <= i <= s.len(),
        postfix_stack(s.take(i)) is None,
    ensures
        postfix_stack(s) is None,
    decreases s.len() - i,
{
    if i < s.len() {
        assert(s.take(i + 1).drop_last() =~= s.take(i));
        lemma_stack_none_extends(s, i + 1);
    } else {
        assert(s.take(i) =~= s);
    }
}

/// The reading succeeds exactly when every nonempty prefix leaves at least
/// one value, and then the stack holds `net_depth` trees.
pub proof fn lemma_stack_len(s: Seq<Symbol>)
    ensures
        postfix_stack(s) matches Some(st) ==> st.len() == net_depth(s),
        postfix_stack(s) is Some <==> (forall|i: int|
            1 <= i <= s.len() ==> #[trigger] net_depth(s.take(i)) >= 1),
    decreases s.len(),
{
    if s.len() > 0 {
        let p = s.drop_last();
        lemma_stack_len(p);
        assert forall|i: int| 1 <= i <= p.len() implies #[trigger] p.take(i) == s.take(i) by {
            assert(p.take(i) =~= s.take(i));
        }
        assert(s.take(s.len() as int) =~= s);
        if postfix_stack(p) is Some {
            if postfix_stack(s) is Some {
                assert forall|i: int| 1 <= i <= s.len() implies #[trigger] net_depth(s.take(i))
                    >= 1 by {
                    if i < s.len() {
                        assert(p.take(i) == s.take(i));
                    }
                }
            } else {
                assert(!(net_depth(s.take(s.len() as int)) >= 1));
            }
        } else {
            let i = choose|i: int| 1 <= i <= p.len() && !(#[trigger] net_depth(p.take(i)) >= 1);
            assert(p.take(i) == s.take(i));
        }
    }
}

/// Well-formed postfix text is exactly the text that denotes a single tree.
pub proof fn lemma_valid_iff_tree(s: Seq<Symbol>)
    ensures
        valid_postfix(s) <==> parse_tree(s) is Some,
{
    lemma_stack_len(s);
}

/// The postfix symbols of the trees of a stack, bottom first.
pub open spec fn stack_postfix(st: Seq<Tree>) -> Seq<Symbol>
    decreases st.len(),
{
    if st.len() == 0 {
        Seq::empty()
    } else {
        stack_postfix(st.drop_last()) + tree_postfix(st.last())
    }
}

proof fn lemma_stack_postfix_split(st: Seq<Tree>, k: int)
    requires
        0 <= k <= st.len(),
    ensures
        stack_postfix(st) == stack_postfix(st.take(k)) + stack_postfix(st.skip(k)),
    decreases st.len(),
{
    if st.len() == k {
        assert(st.take(k) =~= st);
        assert(st.skip(k) =~= Seq::<Tree>::empty());
        assert(stack_postfix(st) + Seq::<Symbol>::empty() =~= stack_postfix(st));
    } else {
        lemma_stack_postfix_split(st.drop_last(), k);
        assert(st.drop_last().take(k) =~= st.take(k));
        assert(st.skip(k).drop_last() =~= st.drop_last().skip(k));
        assert(st.skip(k).last() == st.last());
        assert(stack_postfix(st.take(k)) + stack_postfix(st.skip(k)) =~= stack_postfix(st.take(k))
            + stack_postfix(st.drop_last().skip(k)) + tree_postfix(st.last()));
    }
}

/// Reading postfix text and writing the trees back gives the text again.
pub proof fn lemma_stack_postfix(s: Seq<Symbol>)
    ensures
        postfix_stack(s) matches Some(st) ==> stack_postfix(st) == s,
    decreases s.len(),
{
    if s.len() > 0 {
        let p = s.drop_last();
        lemma_stack_postfix(p);
        if let Some(st) = postfix_stack(p) {
            let sym = s.last();
            assert(p.push(sym) =~= s);
            if let Some(st2) = stack_step(st, sym) {
                match sym.seft_of() {
                    Seft::A => {
                        assert(st2.drop_last() =~= st);
                    },
                    Seft::B => {
                        lemma_stack_postfix_split(st, st.len() - 1);
                        assert(st.take(st.len() - 1) =~= st.drop_last());
                        assert(st2.drop_last() =~= st.drop_last());
                        assert(stack_postfix(st.skip(st.len() - 1)) =~= tree_postfix(st.last())) by {
                            assert(st.skip(st.len() - 1).drop_last() =~= Seq::<Tree>::empty());
                        }
                    },
                    Seft::C => {
                        let n = st.len();
                        lemma_stack_postfix_split(st, n - 2);
                        assert(st2.drop_last() =~= st.take(n - 2));
                        let tail = st.skip(n - 2);
                        assert(tail.drop_last().drop_last() =~= Seq::<Tree>::empty());
                        assert(tail.drop_last().last() == st[n - 2]);
                        assert(tail.last() == st[n - 1]);
                        assert(stack_postfix(tail.drop_last().drop_last()) == Seq::<Symbol>::empty());
                        assert(stack_postfix(tail.drop_last()) =~= tree_postfix(st[n - 2]));
                        assert(stack_postfix(tail) =~= tree_postfix(st[n - 2]) + tree_postfix(
                            st[n - 1],
                        ));
                    },
                }
            }
        }
    }
}

/// The tree of well-formed postfix text spells that text.
pub proof fn lemma_parse_tree_postfix(s: Seq<Symbol>)
    ensures
        parse_tree(s) matches Some(t) ==> tree_postfix(t) == s,
{
    lemma_stack_postfix(s);
    if let Some(st) = postfix_stack(s) {
        if st.len() == 1 {
            assert(st.drop_last() =~= Seq::<Tree>::empty());
            assert(stack_postfix(st.drop_last()) == Seq::<Symbol>::empty());
            assert(st.last() == st[0]);
            assert(Seq::<Symbol>::empty() + tree_postfix(st[0]) =~= tree_postfix(st[0]));
        }
    }
}

/// Every node of the tree carries a symbol of the matching stack effect.
pub open spec fn tree_wf(t: Tree) -> bool
    decreases t,
{
    match t {
        Tree::Leaf(s) => s.seft_of() == Seft::A,
        Tree::Unary(op, a) => op.seft_of() == Seft::B && tree_wf(*a),
        Tree::Binary(op, a, b) => op.seft_of() == Seft::C && tree_wf(*a) && tree_wf(*b),
    }
}

/// The trees that reading postfix text produces are well formed.
pub proof fn lemma_stack_wf(s: Seq<Symbol>)
    ensures
        postfix_stack(s) matches Some(st) ==> forall|j: int|
            0 <= j < st.len() ==> tree_wf(#[trigger] st[j]),
    decreases s.len(),
{
    if s.len() > 0 {
        lemma_stack_wf(s.drop_last());
        if let Some(st) = postfix_stack(s.drop_last()) {
            if let Some(st2) = stack_step(st, s.last()) {
                assert forall|j: int| 0 <= j < st2.len() implies tree_wf(#[trigger] st2[j]) by {
                    if j < st2.len() - 1 {
                        assert(st2[j] == st[j]);
                    }
                }
            }
        }
    }
}

/// Reading the postfix symbols of a well-formed tree after some text pushes
/// exactly that tree on the stack the text left.
pub proof fn lemma_postfix_stack_append(p: Seq<Symbol>, t: Tree)
    requires
        tree_wf(t),
    ensures
        postfix_stack(p + tree_postfix(t)) == match postfix_stack(p) {
            Some(st) => Some(st.push(t)),
            None => None,
        },
    decreases t,
{
    match t {
        Tree::Leaf(sym) => {
            assert((p + seq![sym]).drop_last() =~= p);
            assert((p + seq![sym]).last() == sym);
        },
        Tree::Unary(op, a) => {
            lemma_postfix_stack_append(p, *a);
            let q = p + tree_postfix(*a);
            assert(p + tree_postfix(t) =~= q.push(op));
            assert(q.push(op).drop_last() =~= q);
            if let Some(st) = postfix_stack(p) {
                assert(st.push(*a).drop_last() =~= st);
            }
        },
        Tree::Binary(op, a, b) => {
            lemma_postfix_stack_append(p, *a);
            let q = p + tree_postfix(*a);
            lemma_postfix_stack_append(q, *b);
            let q2 = q + tree_postfix(*b);
            assert(p + tree_postfix(t) =~= q2.push(op));
            assert(q2.push(op).drop_last() =~= q2);
            if let Some(st) = postfix_stack(p) {
                let st2 = st.push(*a).push(*b);
                assert(st2.subrange(0, st2.len() - 2) =~= st);
            }
        },
    }
}

/// Writing a well-formed tree in postfix and reading it back gives the tree.
pub proof fn lemma_parse_tree_roundtrip(t: Tree)
    requires
        tree_wf(t),
    ensures
        parse_tree(tree_postfix(t)) == Some(t),
        valid_postfix(tree_postfix(t)),
{
    lemma_postfix_stack_append(Seq::empty(), t);
    assert(Seq::<Symbol>::empty() + tree_postfix(t) =~= tree_postfix(t));
    assert(Seq::<Tree>::empty().push(t)[0] == t);
    lemma_valid_iff_tree(tree_postfix(t));
}

/// The tree of well-formed postfix text is well formed.
pub proof fn lemma_parse_tree_wf(s: Seq<Symbol>)
    ensures
        parse_tree(s) matches Some(t) ==> tree_wf(t),
{
    lemma_stack_wf(s);
}

} // verus!
