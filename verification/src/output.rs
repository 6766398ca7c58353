//! Choosing and producing the text shown for an expression.

use vstd::prelude::*;
use std::collections::HashMap;
use crate::named::named_infix_text;
use crate::expr::{postfix_chars, saturated_weight, Expression, OutputFormat};
use crate::infix::{infix_text, is_digit_char, is_letter_char, pretty_text, InfixStyle};
use crate::symbol::{Seft, Symbol};
use crate::text::{ascii_lower_text, chars_to_string, is_ascii_text, lowercase_of, push_all, str_equals, str_to_chars, to_lowercase};
use crate::tree::{lemma_stack_none_extends, postfix_stack, tree_postfix, valid_postfix, Tree};

verus! {

/// Display format for expression output.
#[derive(Debug, Clone, Copy, PartialEq, Eq, Structural)]
pub enum DisplayFormat {
    /// Infix notation with the given format.
    Infix(OutputFormat),
    /// Compact postfix notation.
    PostfixCompact,
    /// Verbose postfix notation with named tokens.
    PostfixVerbose,
    /// Condensed format (shown as compact postfix).
    Condensed,
}

/// The display format named by an already lowercased option value.
pub open spec fn display_format_of(t: Seq<char>) -> DisplayFormat {
    if t == "0"@ {
        DisplayFormat::PostfixCompact
    } else if t == "1"@ {
        DisplayFormat::Condensed
    } else if t == "3"@ {
        DisplayFormat::PostfixVerbose
    } else if t == "pretty"@ || t == "unicode"@ {
        DisplayFormat::Infix(OutputFormat::Pretty)
    } else if t == "mathematica"@ || t == "math"@ || t == "mma"@ {
        DisplayFormat::Infix(OutputFormat::Mathematica)
    } else if t == "sympy"@ || t == "python"@ {
        DisplayFormat::Infix(OutputFormat::SymPy)
    } else {
        DisplayFormat::Infix(OutputFormat::Default)
    }
}

/// The display format named by `lowered`, which is an option value after
/// lowercasing: numeric codes `0`, `1`, `3` and the names of the infix
/// styles; anything else selects the default infix style.
pub fn display_format_from_lowercase(lowered: &str) -> (r: DisplayFormat)
    ensures
        r == display_format_of(lowered@),
{
    if str_equals(lowered, "0") {
        DisplayFormat::PostfixCompact
    } else if str_equals(lowered, "1") {
        DisplayFormat::Condensed
    } else if str_equals(lowered, "3") {
        DisplayFormat::PostfixVerbose
    } else if str_equals(lowered, "pretty") || str_equals(lowered, "unicode") {
        DisplayFormat::Infix(OutputFormat::Pretty)
    } else if str_equals(lowered, "mathematica") || str_equals(lowered, "math") || str_equals(
        lowered,
        "mma",
    ) {
        DisplayFormat::Infix(OutputFormat::Mathematica)
    } else if str_equals(lowered, "sympy") || str_equals(lowered, "python") {
        DisplayFormat::Infix(OutputFormat::SymPy)
    } else {
        DisplayFormat::Infix(OutputFormat::Default)
    }
}

/// Parse an output format argument, ignoring case.
pub fn parse_display_format(s: &str) -> (r: DisplayFormat)
    ensures
        r == display_format_of(lowercase_of(s@)),
        is_ascii_text(s@) ==> r == display_format_of(ascii_lower_text(s@)),
{
    let lowered = to_lowercase(s);
    display_format_from_lowercase(lowered.as_str())
}

/// Token of a symbol in verbose postfix output.
pub open spec fn verbose_token(sym: Symbol) -> Seq<char> {
    match sym {
        Symbol::Neg => "neg"@,
        Symbol::Recip => "recip"@,
        Symbol::Sqrt => "sqrt"@,
        Symbol::Square => "dup*"@,
        Symbol::Pow => "**"@,
        Symbol::Root => "root"@,
        Symbol::Log => "logn"@,
        Symbol::Exp => "exp"@,
        _ => sym.name_of(),
    }
}

/// The verbose tokens of `s`, separated by single spaces.
pub open spec fn verbose_text(s: Seq<Symbol>) -> Seq<char>
    decreases s.len(),
{
    if s.len() == 0 {
        Seq::empty()
    } else if s.len() == 1 {
        verbose_token(s[0])
    } else {
        verbose_text(s.drop_last()).push(' ') + verbose_token(s.last())
    }
}

/// Character `i` of `s` after making implicit multiplication explicit: a
/// space between a digit or `)` and a letter or `(` becomes `*`.
pub open spec fn explicit_multiply_char(s: Seq<char>, i: int) -> char {
    if s[i] != ' ' {
        s[i]
    } else if i >= 1 && (is_digit_char(s[i - 1]) || s[i - 1] == ')') && i + 1 < s.len() && (
    is_letter_char(s[i + 1]) || s[i + 1] == '(') {
        '*'
    } else {
        ' '
    }
}

/// `s` with every implicit multiplication made explicit.
pub open spec fn explicit_multiply_text(s: Seq<char>) -> Seq<char> {
    Seq::new(s.len(), |i: int| explicit_multiply_char(s, i))
}

/// Infix text of `s` in the given output format.
pub open spec fn format_text(s: Seq<Symbol>, format: OutputFormat) -> Seq<char> {
    match format {
        OutputFormat::Default => infix_text(s, InfixStyle::Standard),
        OutputFormat::Pretty => pretty_text(infix_text(s, InfixStyle::Standard)),
        OutputFormat::Mathematica => infix_text(s, InfixStyle::Mathematica),
        OutputFormat::SymPy => infix_text(s, InfixStyle::SymPy),
    }
}

/// Infix text of `s` in the given output format, or, when a table of
/// display names is given, in the library's own notation under those names
/// whatever the format.
pub open spec fn table_format_text(s: Seq<Symbol>, format: OutputFormat, table: Option<Map<u8, String>>) -> Seq<char> {
    match table {
        Some(names) => named_infix_text(s, names),
        None => format_text(s, format),
    }
}

/// The view of an optional table of names.
pub open spec fn table_view(table: Option<&HashMap<u8, String>>) -> Option<Map<u8, String>> {
    match table {
        Some(t) => Some(t@),
        None => None,
    }
}

/// The text shown for the symbols `s` in display format `format`, under the
/// table of display names when one is given.
pub open spec fn display_text(
    s: Seq<Symbol>,
    format: DisplayFormat,
    explicit_multiply: bool,
    table: Option<Map<u8, String>>,
) -> Seq<char> {
    match format {
        DisplayFormat::Infix(inner) => if explicit_multiply {
            explicit_multiply_text(table_format_text(s, inner, table))
        } else {
            table_format_text(s, inner, table)
        },
        DisplayFormat::PostfixCompact => postfix_chars(s),
        DisplayFormat::Condensed => postfix_chars(s),
        DisplayFormat::PostfixVerbose => verbose_text(s),
    }
}

/// Turn implicit multiplication such as `2 x` into explicit `2*x`.
pub fn apply_explicit_multiply(infix: &str) -> (r: String)
    ensures
        r@ == explicit_multiply_text(infix@),
{
    let chars = str_to_chars(infix);
    let mut out: Vec<char> = Vec::new();
    let n = chars.len();
    let mut i: usize = 0;
    while i < n
        invariant
            n == chars@.len(),
            chars@ == infix@,
            i <= n,
            out@.len() == i,
            forall|j: int| 0 <= j < i ==> out@[j] == explicit_multiply_char(chars@, j),
        decreases n - i,
    {
        let ch = chars[i];
        if ch != ' ' {
            out.push(ch);
        } else {
            let prev_ok = i >= 1 && (('0' <= chars[i - 1] && chars[i - 1] <= '9') || chars[i - 1]
                == ')');
            let next_ok = i + 1 < n && (('a' <= chars[i + 1] && chars[i + 1] <= 'z') || ('A'
                <= chars[i + 1] && chars[i + 1] <= 'Z') || chars[i + 1] == '(');
            if prev_ok && next_ok {
                out.push('*');
            } else {
                out.push(' ');
            }
        }
        i = i + 1;
    }
    assert(out@ =~= explicit_multiply_text(chars@));
    chars_to_string(&out)
}

/// Token of a symbol in verbose postfix output.
fn postfix_verbose_token(sym: Symbol) -> (r: Vec<char>)
    ensures
        r@ == verbose_token(sym),
{
    match sym {
        Symbol::Neg => str_to_chars("neg"),
        Symbol::Recip => str_to_chars("recip"),
        Symbol::Sqrt => str_to_chars("sqrt"),
        Symbol::Square => str_to_chars("dup*"),
        Symbol::Pow => str_to_chars("**"),
        Symbol::Root => str_to_chars("root"),
        Symbol::Log => str_to_chars("logn"),
        Symbol::Exp => str_to_chars("exp"),
        _ => sym.name_chars(),
    }
}

/// Verbose postfix text: the token of every symbol, separated by spaces.
fn verbose_postfix(symbols: &[Symbol]) -> (r: Vec<char>)
    ensures
        r@ == verbose_text(symbols@),
{
    let mut out: Vec<char> = Vec::new();
    let mut i: usize = 0;
    while i < symbols.len()
        invariant
            i <= symbols@.len(),
            out@ == verbose_text(symbols@.take(i as int)),
        decreases symbols.len() - i,
    {
        let tok = postfix_verbose_token(symbols[i]);
        let ghost before = out@;
        if i > 0 {
            out.push(' ');
        }
        push_all(&mut out, &tok);
        proof {
            let t = symbols@.take(i + 1);
            assert(t.drop_last() =~= symbols@.take(i as int));
            assert(t.last() == symbols@[i as int]);
            if i == 0 {
                assert(before =~= Seq::<char>::empty());
                assert(out@ =~= verbose_token(t[0]));
            }
        }
        i = i + 1;
    }
    assert(symbols@.take(symbols@.len() as int) =~= symbols@);
    out
}

/// Text of an expression in the given display format, with implicit
/// multiplication made explicit on request for the infix formats. Given a
/// table of display names, the infix formats all render in the library's
/// own notation under those names. The infix formats need an expression
/// whose stack does not underflow.
pub fn format_expression_for_display(
    expression: &Expression,
    format: DisplayFormat,
    explicit_multiply: bool,
    table: Option<&HashMap<u8, String>>,
) -> (r: String)
    requires
        format is Infix ==> postfix_stack(expression@) is Some,
    ensures
        r@ == display_text(expression@, format, explicit_multiply, table_view(table)),
{
    match format {
        DisplayFormat::Infix(inner) => {
            let infix = match table {
                Some(t) => expression.to_infix_with_table(t),
                None => expression.to_infix_with_format(inner),
            };
            assert(infix@ == table_format_text(expression@, inner, table_view(table)));
            if explicit_multiply {
                apply_explicit_multiply(infix.as_str())
            } else {
                infix
            }
        },
        DisplayFormat::PostfixCompact => expression.to_postfix(),
        DisplayFormat::Condensed => expression.to_postfix(),
        DisplayFormat::PostfixVerbose => {
            let v = verbose_postfix(expression.symbols());
            chars_to_string(&v)
        },
    }
}

/// The condensed format shows exactly what the compact postfix format shows.
pub proof fn lemma_condensed_is_compact(
    s: Seq<Symbol>,
    explicit_multiply: bool,
    table: Option<Map<u8, String>>,
)
    ensures
        display_text(s, DisplayFormat::Condensed, explicit_multiply, table) == display_text(
            s,
            DisplayFormat::PostfixCompact,
            explicit_multiply,
            table,
        ),
{
}

/// Postfix text of the tree on top of the stack after reading the first
/// `k + 1` symbols of `s`.
pub open spec fn step_symbols(s: Seq<Symbol>, k: int) -> Seq<Symbol> {
    tree_postfix(postfix_stack(s.take(k + 1)).unwrap().last())
}

/// The subexpressions of an expression in the order in which reading its
/// postfix text completes them: step `k` is the value on top of the stack
/// after symbol `k`. The steps stop where the stack would underflow; every
/// shorter prefix reads without underflow, as `lemma_stack_none_extends`
/// shows from the prefix that the steps cover.
pub fn decompose_subexpressions(expression: &Expression) -> (r: Vec<Expression>)
    ensures
        r@.len() <= expression@.len(),
        postfix_stack(expression@.take(r@.len() as int)) is Some,
        forall|k: int|
            0 <= k < r@.len() ==> #[trigger] r@[k]@ == step_symbols(expression@, k) && r@[k].wf()
                && r@[k].complexity_of() == saturated_weight(r@[k]@),
        r@.len() < expression@.len() ==> postfix_stack(expression@.take(r@.len() + 1int)) is None,
{
    let syms = expression.symbols();
    let n = syms.len();
    let ghost s = syms@;
    let mut stack: Vec<Vec<Symbol>> = Vec::new();
    let mut steps: Vec<Expression> = Vec::new();
    let mut i: usize = 0;
    let mut failed = false;
    assert(s.take(0) =~= Seq::<Symbol>::empty());
    while i < n && !failed
        invariant
            s == syms@,
            s == expression@,
            n == s.len(),
            i <= n,
            failed ==> i < n && postfix_stack(s.take(i + 1)) is None,
            postfix_stack(s.take(i as int)) is Some,
            !failed ==> stack@.len() == postfix_stack(s.take(i as int)).unwrap().len(),
            !failed ==> forall|j: int|
                0 <= j < stack@.len() ==> #[trigger] stack@[j]@ == tree_postfix(
                    postfix_stack(s.take(i as int)).unwrap()[j],
                ),
            steps@.len() == i,
            forall|k: int| 0 <= k < i ==> #[trigger] steps@[k]@ == step_symbols(s, k),
            forall|k: int| 0 <= k < i ==> #[trigger] steps@[k].wf(),
            forall|k: int|
                0 <= k < i ==> #[trigger] steps@[k].complexity_of() == saturated_weight(steps@[k]@),
        decreases n - i + (if failed { 0int } else { 1int }),
    {
        let sym = syms[i];
        let ghost st = postfix_stack(s.take(i as int)).unwrap();
        let ghost prev = stack@;
        let ghost prev_steps = steps@;
        assert(s.take(i + 1).drop_last() =~= s.take(i as int));
        assert(s.take(i + 1).last() == sym);
        match sym.seft() {
            Seft::A => {
                let mut v: Vec<Symbol> = Vec::new();
                v.push(sym);
                let e = Expression::from_symbols(v.as_slice());
                stack.push(v);
                steps.push(e);
                proof {
                    let nst = st.push(Tree::Leaf(sym));
                    assert(postfix_stack(s.take(i + 1)) == Some(nst));
                    assert(tree_postfix(Tree::Leaf(sym)) =~= seq![sym]);
                    assert(e@ == tree_postfix(nst.last()));
                    assert(e@ == step_symbols(s, i as int));
                    assert forall|j: int| 0 <= j < stack@.len() implies #[trigger] stack@[j]@
                        == tree_postfix(nst[j]) by {
                        if j < st.len() {
                            assert(stack@[j] == prev[j]);
                        }
                    }
                }
                i = i + 1;
            },
            Seft::B => {
                if stack.len() == 0 {
                    failed = true;
                } else {
                    let mut a = stack.pop().unwrap();
                    a.push(sym);
                    let e = Expression::from_symbols(a.as_slice());
                    stack.push(a);
                    steps.push(e);
                    proof {
                        let nst = st.drop_last().push(Tree::Unary(sym, Box::new(st.last())));
                        assert(postfix_stack(s.take(i + 1)) == Some(nst));
                        assert(e@ == tree_postfix(nst.last()));
                        assert(e@ == step_symbols(s, i as int));
                        assert forall|j: int| 0 <= j < stack@.len() implies #[trigger] stack@[j]@
                            == tree_postfix(nst[j]) by {
                            if j < st.len() - 1 {
                                assert(stack@[j] == prev[j]);
                            }
                        }
                    }
                    i = i + 1;
                }
            },
            Seft::C => {
                if stack.len() < 2 {
                    failed = true;
                } else {
                    let mut b = stack.pop().unwrap();
                    let mut a = stack.pop().unwrap();
                    a.append(&mut b);
                    a.push(sym);
                    let e = Expression::from_symbols(a.as_slice());
                    stack.push(a);
                    steps.push(e);
                    proof {
                        let r = st[st.len() - 1];
                        let l = st[st.len() - 2];
                        let nst = st.subrange(0, st.len() - 2).push(
                            Tree::Binary(sym, Box::new(l), Box::new(r)),
                        );
                        assert(postfix_stack(s.take(i + 1)) == Some(nst));
                        assert(e@ == tree_postfix(nst.last()));
                        assert(e@ == step_symbols(s, i as int));
                        assert forall|j: int| 0 <= j < stack@.len() implies #[trigger] stack@[j]@
                            == tree_postfix(nst[j]) by {
                            if j < st.len() - 2 {
                                assert(stack@[j] == prev[j]);
                            }
                        }
                    }
                    i = i + 1;
                }
            },
        }
        proof {
            if !failed {
                assert forall|k: int| 0 <= k < i implies #[trigger] steps@[k]@ == step_symbols(s, k)
                    && steps@[k].wf() && steps@[k].complexity_of() == saturated_weight(steps@[k]@) by {
                    if k < i - 1 {
                        assert(steps@[k] == prev_steps[k]);
                    }
                }
            }
        }
    }
    steps
}

/// The last step of a well-formed expression is the whole expression.
pub proof fn lemma_last_step_is_whole(s: Seq<Symbol>)
    requires
        valid_postfix(s),
    ensures
        s.len() > 0,
        step_symbols(s, s.len() - 1) == s,
{
    crate::tree::lemma_valid_iff_tree(s);
    crate::tree::lemma_parse_tree_postfix(s);
    assert(s.take(s.len() as int) =~= s);
    if s.len() == 0 {
        assert(postfix_stack(s) == Some(Seq::<Tree>::empty()));
    }
}

} // verus!
