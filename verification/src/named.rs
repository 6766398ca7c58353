//! Infix text under the display names of a run.
//!
//! A run may rename symbols (`--symbol-names`, profile lines) and shows user
//! constants and functions by the names they were defined with. The names
//! form a table keyed by symbol byte; a symbol without an entry keeps its
//! built-in name. The notation is the library's own (`crate::infix`,
//! `InfixStyle::Standard`); only the names of leaves and of user functions
//! change.

use vstd::prelude::*;
use std::collections::HashMap;
use crate::expr::Expression;
use crate::infix::{
    binary_chars, binary_text, cat3, infix_text, render, unary_chars, unary_text, InfixError,
    InfixStyle, PREC_ATOM,
};
use crate::symbol::{Seft, Symbol};
use crate::text::{chars_to_string, str_to_chars};
use crate::tree::{lemma_parse_tree_postfix, parse_tree, postfix_stack, tree_postfix, Tree};

verus! {

broadcast use vstd::std_specs::hash::group_hash_axioms;

/// Whether `op` is one of the user-defined functions.
pub open spec fn is_user_function(op: Symbol) -> bool {
    match op {
        Symbol::UserFunction0 | Symbol::UserFunction1 | Symbol::UserFunction2
        | Symbol::UserFunction3 | Symbol::UserFunction4 | Symbol::UserFunction5
        | Symbol::UserFunction6 | Symbol::UserFunction7 | Symbol::UserFunction8
        | Symbol::UserFunction9 | Symbol::UserFunction10 | Symbol::UserFunction11
        | Symbol::UserFunction12 | Symbol::UserFunction13 | Symbol::UserFunction14
        | Symbol::UserFunction15 => true,
        _ => false,
    }
}

/// The name of `sym` under the table: its entry, else its built-in name.
pub open spec fn name_under(sym: Symbol, names: Map<u8, String>) -> Seq<char> {
    if names.contains_key(sym.byte_of()) {
        names[sym.byte_of()]@
    } else {
        sym.name_of()
    }
}

/// Text of a function of one argument under the table: user functions are
/// called by their names, the others are written as in the standard style.
pub open spec fn named_unary_text(op: Symbol, arg: Seq<char>, prec: u8, names: Map<u8, String>) -> Seq<
    char,
> {
    if is_user_function(op) {
        name_under(op, names) + seq!['('] + arg + seq![')']
    } else {
        unary_text(op, arg, prec, InfixStyle::Standard)
    }
}

/// Text and precedence of a tree under the table.
pub open spec fn render_named(t: Tree, names: Map<u8, String>) -> (Seq<char>, u8)
    decreases t,
{
    match t {
        Tree::Leaf(s) => (name_under(s, names), PREC_ATOM),
        Tree::Unary(op, a) => {
            let ra = render_named(*a, names);
            (named_unary_text(op, ra.0, ra.1, names), PREC_ATOM)
        },
        Tree::Binary(op, a, b) => {
            let ra = render_named(*a, names);
            let rb = render_named(*b, names);
            binary_text(op, ra.0, ra.1, rb.0, rb.1, InfixStyle::Standard)
        },
    }
}

/// Infix text of postfix symbols under the table: the text of the top tree
/// left on the stack, or `?` when no tree is left.
pub open spec fn named_infix_text(s: Seq<Symbol>, names: Map<u8, String>) -> Seq<char> {
    match postfix_stack(s) {
        Some(st) => if st.len() > 0 {
            render_named(st.last(), names).0
        } else {
            seq!['?']
        },
        None => seq!['?'],
    }
}

/// Under an empty table a tree renders exactly as in the standard style.
proof fn lemma_render_named_empty(t: Tree)
    ensures
        render_named(t, Map::empty()) == render(t, InfixStyle::Standard),
    decreases t,
{
    match t {
        Tree::Leaf(s) => {},
        Tree::Unary(op, a) => {
            lemma_render_named_empty(*a);
        },
        Tree::Binary(op, a, b) => {
            lemma_render_named_empty(*a);
            lemma_render_named_empty(*b);
        },
    }
}

/// Without display names, rendering under a table is the library's own
/// infix rendering: a table only ever changes the names.
pub proof fn lemma_empty_table_is_standard(s: Seq<Symbol>)
    ensures
        named_infix_text(s, Map::empty()) == infix_text(s, InfixStyle::Standard),
{
    if let Some(st) = postfix_stack(s) {
        if st.len() > 0 {
            lemma_render_named_empty(st.last());
        }
    }
}

/// Where every symbol of a tree keeps its built-in name under the table,
/// the tree renders exactly as in the standard style.
proof fn lemma_render_named_builtin(t: Tree, names: Map<u8, String>)
    requires
        forall|i: int|
            0 <= i < tree_postfix(t).len() ==> name_under(#[trigger] tree_postfix(t)[i], names)
                == tree_postfix(t)[i].name_of(),
    ensures
        render_named(t, names) == render(t, InfixStyle::Standard),
    decreases t,
{
    match t {
        Tree::Leaf(s) => {
            assert(tree_postfix(t)[0] == s);
        },
        Tree::Unary(op, a) => {
            let pa = tree_postfix(*a);
            assert(tree_postfix(t) == pa.push(op));
            assert forall|i: int| 0 <= i < pa.len() implies name_under(#[trigger] pa[i], names)
                == pa[i].name_of() by {
                assert(tree_postfix(t)[i] == pa[i]);
            }
            assert(tree_postfix(t)[pa.len() as int] == op);
            lemma_render_named_builtin(*a, names);
        },
        Tree::Binary(op, a, b) => {
            let pa = tree_postfix(*a);
            let pb = tree_postfix(*b);
            assert(tree_postfix(t) == (pa + pb).push(op));
            assert forall|i: int| 0 <= i < pa.len() implies name_under(#[trigger] pa[i], names)
                == pa[i].name_of() by {
                assert(tree_postfix(t)[i] == pa[i]);
            }
            assert forall|i: int| 0 <= i < pb.len() implies name_under(#[trigger] pb[i], names)
                == pb[i].name_of() by {
                assert(tree_postfix(t)[pa.len() + i] == pb[i]);
            }
            lemma_render_named_builtin(*a, names);
            lemma_render_named_builtin(*b, names);
        },
    }
}

/// A table that gives every symbol of a well-formed expression its
/// built-in name renders the expression exactly as the library's own
/// infix rendering: the table only ever changes names.
pub proof fn lemma_builtin_names_are_standard(s: Seq<Symbol>, names: Map<u8, String>)
    requires
        parse_tree(s) is Some,
        forall|i: int| 0 <= i < s.len() ==> name_under(#[trigger] s[i], names) == s[i].name_of(),
    ensures
        named_infix_text(s, names) == infix_text(s, InfixStyle::Standard),
{
    lemma_parse_tree_postfix(s);
    let t = parse_tree(s)->Some_0;
    lemma_render_named_builtin(t, names);
}

/// The name of `sym` under the table.
fn name_chars_under(sym: Symbol, names: &HashMap<u8, String>) -> (r: Vec<char>)
    ensures
        r@ == name_under(sym, names@),
{
    match names.get(&sym.to_byte()) {
        Some(n) => str_to_chars(n.as_str()),
        None => sym.name_chars(),
    }
}

/// Text of a function of one argument under the table.
fn named_unary_chars(op: Symbol, arg: &Vec<char>, prec: u8, names: &HashMap<u8, String>) -> (r: Vec<
    char,
>)
    ensures
        r@ == named_unary_text(op, arg@, prec, names@),
{
    match op {
        Symbol::UserFunction0 | Symbol::UserFunction1 | Symbol::UserFunction2
        | Symbol::UserFunction3 | Symbol::UserFunction4 | Symbol::UserFunction5
        | Symbol::UserFunction6 | Symbol::UserFunction7 | Symbol::UserFunction8
        | Symbol::UserFunction9 | Symbol::UserFunction10 | Symbol::UserFunction11
        | Symbol::UserFunction12 | Symbol::UserFunction13 | Symbol::UserFunction14
        | Symbol::UserFunction15 => {
            let mut n = name_chars_under(op, names);
            n.push('(');
            cat3(n, arg, vec![')'])
        },
        _ => unary_chars(op, arg, prec, InfixStyle::Standard),
    }
}

/// Reads postfix symbols with a stack of rendered operands, under the table
/// of names.
///
/// Returns the text of the top tree (`?` when none is left), or
/// `Err(StackUnderflow)` when a function symbol lacks operands.
pub fn render_postfix_named(symbols: &[Symbol], names: &HashMap<u8, String>) -> (r: Result<
    Vec<char>,
    InfixError,
>)
    ensures
        r is Ok <==> postfix_stack(symbols@) is Some,
        r matches Ok(v) ==> v@ == named_infix_text(symbols@, names@),
{
    let mut stack: Vec<(Vec<char>, u8)> = Vec::new();
    let mut i: usize = 0;
    while i < symbols.len()
        invariant
            i <= symbols@.len(),
            postfix_stack(symbols@.take(i as int)) matches Some(st) && st.len() == stack@.len()
                && forall|j: int|
                0 <= j < st.len() ==> (#[trigger] stack@[j]).0@ == render_named(st[j], names@).0
                    && stack@[j].1 == render_named(st[j], names@).1,
        decreases symbols.len() - i,
    {
        let ghost st = postfix_stack(symbols@.take(i as int))->Some_0;
        assert(symbols@.take(i + 1).drop_last() =~= symbols@.take(i as int));
        let sym = symbols[i];
        match sym.seft() {
            Seft::A => {
                stack.push((name_chars_under(sym, names), PREC_ATOM));
            },
            Seft::B => {
                match stack.pop() {
                    Some(top) => {
                        let text = named_unary_chars(sym, &top.0, top.1, names);
                        stack.push((text, PREC_ATOM));
                    },
                    None => {
                        proof {
                            crate::tree::lemma_stack_none_extends(symbols@, i + 1);
                        }
                        return Err(InfixError::StackUnderflow);
                    },
                }
            },
            Seft::C => {
                if stack.len() < 2 {
                    proof {
                        crate::tree::lemma_stack_none_extends(symbols@, i + 1);
                    }
                    return Err(InfixError::StackUnderflow);
                }
                let rhs = stack.pop().unwrap();
                let lhs = stack.pop().unwrap();
                let res = binary_chars(sym, &lhs.0, lhs.1, &rhs.0, rhs.1, InfixStyle::Standard);
                stack.push(res);
            },
        }
        proof {
            let nst = postfix_stack(symbols@.take(i + 1))->Some_0;
            assert forall|j: int| 0 <= j < nst.len() implies (#[trigger] stack@[j]).0@
                == render_named(nst[j], names@).0 && stack@[j].1 == render_named(
                nst[j],
                names@,
            ).1 by {
                if j < nst.len() - 1 {
                    assert(nst[j] == st[j]);
                }
            }
        }
        i = i + 1;
    }
    assert(symbols@.take(symbols@.len() as int) =~= symbols@);
    match stack.pop() {
        Some(top) => Ok(top.0),
        None => Ok(vec!['?']),
    }
}

impl Expression {
    /// Infix text in the library's own notation, with the display names of
    /// `table` (keyed by symbol byte) in place of the built-in names. The
    /// expression must not underflow its stack.
    pub fn to_infix_with_table(&self, table: &HashMap<u8, String>) -> (r: String)
        requires
            postfix_stack(self@) is Some,
        ensures
            r@ == named_infix_text(self@, table@),
    {
        match render_postfix_named(self.symbols(), table) {
            Ok(v) => chars_to_string(&v),
            Err(_) => String::new(),
        }
    }
}

} // verus!
