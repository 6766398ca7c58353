//! Helpers for the command-line options that name symbols.

use vstd::prelude::*;
use std::collections::{HashMap, HashSet};
use vstd::string::StringSliceAdditionalSpecFns;
use crate::profile::{split_at_char, split_chars};
use crate::symbol::Symbol;
use crate::text::{chars_to_string, decimal, decimal_chars,
    ascii_lower, ascii_lower_chars, char_is_white_space, char_low_byte, chars_same, is_white_space,
    lemma_skip_white_space, low_byte, skip_white_space, str_equals, str_to_chars, trim_chars,
    trimmed,
};

verus! {

broadcast use vstd::std_specs::hash::group_hash_axioms;

/// Whether `c` is an ASCII decimal digit.
pub open spec fn is_ascii_digit(c: char) -> bool {
    '0' <= c <= '9'
}

/// Value of an ASCII digit.
pub open spec fn digit_value(c: char) -> nat {
    (c as u32 - '0' as u32) as nat
}

/// Decimal value of a sequence of ASCII digits.
pub open spec fn digits_value(s: Seq<char>) -> nat
    decreases s.len(),
{
    if s.len() == 0 {
        0
    } else {
        digits_value(s.drop_last()) * 10 + digit_value(s.last())
    }
}

/// `v`, or `u32::MAX` when `v` is larger.
pub open spec fn saturate_u32(v: nat) -> u32 {
    if v > u32::MAX {
        u32::MAX
    } else {
        v as u32
    }
}

/// Index of the first character at or after `i` that is not an ASCII digit.
pub open spec fn digits_end(s: Seq<char>, i: int) -> int
    decreases s.len() - i,
{
    if 0 <= i < s.len() && is_ascii_digit(s[i]) {
        digits_end(s, i + 1)
    } else {
        i
    }
}

/// Message for a count at the end of `-O` with no symbol after it.
pub open spec fn trailing_count_message() -> Seq<char> {
    "Trailing count with no symbol in -O/--op-limits"@
}

/// Message for a zero count in `-O`.
pub open spec fn zero_count_message(c: char) -> Seq<char> {
    "Invalid zero count for symbol '"@ + seq![c, '\'']
}

/// Message for a character of `-O` that names no symbol.
pub open spec fn unknown_limit_symbol_message(c: char) -> Seq<char> {
    "Unknown symbol '"@ + seq![c] + "' in -O/--op-limits"@
}

/// Reading the `-O` text `s` from position `i` with the limits `acc` found
/// so far: the limits keyed by symbol byte, or the message of the first
/// error. Each item is an optional decimal count (saturating at
/// `u32::MAX`, 1 when absent) followed by a symbol; white space separates
/// items, and a count followed by white space is dropped.
pub open spec fn scan_limits(s: Seq<char>, i: int, acc: Map<u8, u32>) -> Result<
    Map<u8, u32>,
    Seq<char>,
>
    decreases s.len() - i,
{
    if i < 0 || i >= s.len() {
        Ok(acc)
    } else if is_white_space(s[i]) {
        scan_limits(s, i + 1, acc)
    } else {
        proof {
            lemma_digits_end(s, i);
        }
        let j = digits_end(s, i);
        if j >= s.len() {
            Err(trailing_count_message())
        } else {
            let c = s[j];
            if is_white_space(c) {
                scan_limits(s, j + 1, acc)
            } else {
                let count = if j > i {
                    saturate_u32(digits_value(s.subrange(i, j)))
                } else {
                    1u32
                };
                if count == 0 {
                    Err(zero_count_message(c))
                } else {
                    match Symbol::symbol_of_byte(low_byte(c)) {
                        None => Err(unknown_limit_symbol_message(c)),
                        Some(sym) => scan_limits(s, j + 1, acc.insert(sym.byte_of(), count)),
                    }
                }
            }
        }
    }
}

/// `digits_end` lies at or after its starting point.
pub proof fn lemma_digits_end(s: Seq<char>, i: int)
    requires
        0 <= i <= s.len(),
    ensures
        i <= digits_end(s, i) <= s.len(),
        forall|k: int| i <= k < digits_end(s, i) ==> is_ascii_digit(#[trigger] s[k]),
    decreases s.len() - i,
{
    if i < s.len() && is_ascii_digit(s[i]) {
        lemma_digits_end(s, i + 1);
    }
}

/// One more digit multiplies the saturated value by ten and adds the digit,
/// saturating at each step.
proof fn lemma_saturating_digit(v: nat, d: nat)
    requires
        d < 10,
    ensures
        saturate_u32(v * 10 + d) == saturate_u32(saturate_u32(saturate_u32(v) as nat * 10) as nat
            + d),
{
    if v > u32::MAX {
        assert(v * 10 + d > u32::MAX) by (nonlinear_arith)
            requires
                v > u32::MAX,
        ;
    }
}

/// Build the characters of `lit` followed by those of `tail`.
pub(crate) fn message(lit: &str, tail: &Vec<char>) -> (r: String)
    ensures
        r@ == lit@ + tail@,
{
    let mut v = str_to_chars(lit);
    crate::text::push_all(&mut v, tail);
    crate::text::chars_to_string(&v)
}

/// Parse `-O`/`--op-limits` into per-symbol maximum counts, keyed by the
/// byte of the symbol.
pub fn parse_symbol_count_limits(text: &str) -> (r: Result<HashMap<u8, u32>, String>)
    ensures
        r is Ok <==> scan_limits(text@, 0, Map::empty()) is Ok,
        r matches Ok(m) ==> scan_limits(text@, 0, Map::empty()) == Ok::<Map<u8, u32>, Seq<char>>(
            m@,
        ),
        r matches Err(e) ==> scan_limits(text@, 0, Map::empty()) == Err::<Map<u8, u32>, Seq<char>>(
            e@,
        ),
{
    let mut limits: HashMap<u8, u32> = HashMap::new();
    let chars = str_to_chars(text);
    let ghost s = text@;
    let n = chars.len();
    let mut i: usize = 0;
    while i < n
        invariant
            chars@ == s,
            s == text@,
            n == s.len(),
            i <= n,
            scan_limits(s, i as int, limits@) == scan_limits(s, 0, Map::empty()),
        decreases n - i,
    {
        if char_is_white_space(chars[i]) {
            i = i + 1;
            continue;
        }
        let ghost start = i as int;
        proof {
            lemma_digits_end(s, start);
        }
        let mut saw_digits = false;
        let mut count: u32 = 0;
        while i < n && '0' <= chars[i] && chars[i] <= '9'
            invariant
                chars@ == s,
                s == text@,
                n == s.len(),
                0 <= start <= i <= n,
                digits_end(s, i as int) == digits_end(s, start),
                scan_limits(s, start, limits@) == scan_limits(s, 0, Map::empty()),
                !is_white_space(s[start]),
                digits_end(s, start) <= n,
                saw_digits == (i > start),
                count == saturate_u32(digits_value(s.subrange(start, i as int))),
                forall|k: int| start <= k < digits_end(s, start) ==> is_ascii_digit(#[trigger] s[k]),
            decreases n - i,
        {
            saw_digits = true;
            let d = (chars[i] as u32) - ('0' as u32);
            proof {
                let p = s.subrange(start, i + 1);
                assert(p.drop_last() =~= s.subrange(start, i as int));
                assert(p.last() == s[i as int]);
                lemma_saturating_digit(digits_value(s.subrange(start, i as int)), d as nat);
            }
            let times_ten: u32 = if count > u32::MAX / 10 {
                u32::MAX
            } else {
                count * 10
            };
            count = times_ten.saturating_add(d);
            i = i + 1;
        }
        assert(i == digits_end(s, start));
        if i >= n {
            let r = message("Trailing count with no symbol in -O/--op-limits", &Vec::new());
            assert(r@ =~= trailing_count_message());
            return Err(r);
        }
        let symbol_char = chars[i];
        i = i + 1;
        if char_is_white_space(symbol_char) {
            continue;
        }
        let max_count = if saw_digits {
            count
        } else {
            1
        };
        if max_count == 0 {
            let tail = vec![symbol_char, '\''];
            let r = message("Invalid zero count for symbol '", &tail);
            assert(r@ =~= zero_count_message(symbol_char));
            return Err(r);
        }
        match Symbol::from_byte(char_low_byte(symbol_char)) {
            None => {
                let mut tail = vec![symbol_char];
                let rest = str_to_chars("' in -O/--op-limits");
                crate::text::push_all(&mut tail, &rest);
                proof {
                    assert(tail@ =~= seq![symbol_char] + "' in -O/--op-limits"@);
                }
                let r = message("Unknown symbol '", &tail);
                assert(r@ =~= unknown_limit_symbol_message(symbol_char));
                return Err(r);
            },
            Some(sym) => {
                limits.insert(sym.to_byte(), max_count);
            },
        }
    }
    Ok(limits)
}

/// The set of bytes occurring in `b`.
pub open spec fn byte_set(b: Seq<u8>) -> Set<u8> {
    Set::new(|x: u8| b.contains(x))
}

/// The byte set of an optional option value.
pub open spec fn optional_byte_set(o: Option<&str>) -> Option<Set<u8>> {
    match o {
        Some(s) => Some(byte_set(s.spec_bytes())),
        None => None,
    }
}

/// The contents of an optional set.
pub open spec fn optional_set_view(o: Option<HashSet<u8>>) -> Option<Set<u8>> {
    match o {
        Some(h) => Some(h@),
        None => None,
    }
}

/// The allowed and excluded symbol bytes for the options `-S` (`only`),
/// `-N` (`exclude`) and `-E` (`enable`): `-E all` drops the exclusions,
/// and any other `-E` value removes its bytes from the exclusions and adds
/// them to the allowed symbols, where those sets are given.
pub open spec fn symbol_sets(only: Option<&str>, exclude: Option<&str>, enable: Option<&str>) -> (
    Option<Set<u8>>,
    Option<Set<u8>>,
) {
    let allowed = optional_byte_set(only);
    let excluded = optional_byte_set(exclude);
    match enable {
        None => (allowed, excluded),
        Some(e) => if e@ == "all"@ {
            (allowed, None)
        } else {
            let extra = byte_set(e.spec_bytes());
            (
                match allowed {
                    Some(a) => Some(a.union(extra)),
                    None => None,
                },
                match excluded {
                    Some(x) => Some(x.difference(extra)),
                    None => None,
                },
            )
        },
    }
}

/// The set of the bytes of `s`.
fn bytes_to_set(s: &str) -> (r: HashSet<u8>)
    ensures
        r@ == byte_set(s.spec_bytes()),
{
    let bytes = s.as_bytes();
    let mut set: HashSet<u8> = HashSet::new();
    let mut i: usize = 0;
    while i < bytes.len()
        invariant
            i <= bytes@.len(),
            bytes@ == s.spec_bytes(),
            set@ == byte_set(bytes@.take(i as int)),
        decreases bytes.len() - i,
    {
        set.insert(bytes[i]);
        proof {
            let p = bytes@.take(i as int);
            assert(bytes@.take(i + 1) =~= p.push(bytes@[i as int]));
            assert forall|x: u8| #[trigger] set@.contains(x) == byte_set(bytes@.take(i + 1)).contains(
                x,
            ) by {
                if p.push(bytes@[i as int]).contains(x) && x != bytes@[i as int] {
                    let k = choose|k: int| 0 <= k < p.len() + 1 && p.push(bytes@[i as int])[k] == x;
                    assert(p[k] == x);
                }
                if p.contains(x) {
                    let k = choose|k: int| 0 <= k < p.len() && p[k] == x;
                    assert(p.push(bytes@[i as int])[k] == x);
                }
                if x == bytes@[i as int] {
                    assert(p.push(bytes@[i as int])[p.len() as int] == x);
                }
            }
            assert(set@ =~= byte_set(bytes@.take(i + 1)));
        }
        i = i + 1;
    }
    assert(bytes@.take(bytes@.len() as int) =~= bytes@);
    set
}

/// Parse the allowed and excluded symbol sets, with an optional re-enable
/// set (`all` clears every exclusion).
pub fn parse_symbol_sets(
    only_symbols: Option<&str>,
    exclude_symbols: Option<&str>,
    enable_symbols: Option<&str>,
) -> (r: (Option<HashSet<u8>>, Option<HashSet<u8>>))
    ensures
        (optional_set_view(r.0), optional_set_view(r.1)) == symbol_sets(
            only_symbols,
            exclude_symbols,
            enable_symbols,
        ),
{
    let mut allowed: Option<HashSet<u8>> = match only_symbols {
        Some(s) => Some(bytes_to_set(s)),
        None => None,
    };
    let mut excluded: Option<HashSet<u8>> = match exclude_symbols {
        Some(s) => Some(bytes_to_set(s)),
        None => None,
    };
    match enable_symbols {
        None => {},
        Some(enabled) => {
            if str_equals(enabled, "all") {
                excluded = None;
            } else {
                let bytes = enabled.as_bytes();
                let ghost allowed0 = optional_set_view(allowed);
                let ghost excluded0 = optional_set_view(excluded);
                let mut i: usize = 0;
                while i < bytes.len()
                    invariant
                        i <= bytes@.len(),
                        bytes@ == enabled.spec_bytes(),
                        optional_set_view(allowed) == match allowed0 {
                            Some(a) => Some(a.union(byte_set(bytes@.take(i as int)))),
                            None => None::<Set<u8>>,
                        },
                        optional_set_view(excluded) == match excluded0 {
                            Some(x) => Some(x.difference(byte_set(bytes@.take(i as int)))),
                            None => None::<Set<u8>>,
                        },
                    decreases bytes.len() - i,
                {
                    let b = bytes[i];
                    let ghost p = bytes@.take(i as int);
                    proof {
                        assert(bytes@.take(i + 1) =~= p.push(b));
                        assert forall|x: u8| #[trigger] byte_set(p.push(b)).contains(x) == (
                        byte_set(p).contains(x) || x == b) by {
                            if p.push(b).contains(x) && x != b {
                                let k = choose|k: int| 0 <= k < p.len() + 1 && p.push(b)[k] == x;
                                assert(p[k] == x);
                            }
                            if p.contains(x) {
                                let k = choose|k: int| 0 <= k < p.len() && p[k] == x;
                                assert(p.push(b)[k] == x);
                            }
                            if x == b {
                                assert(p.push(b)[p.len() as int] == x);
                            }
                        }
                    }
                    let mut new_excluded: Option<HashSet<u8>> = None;
                    match excluded {
                        Some(mut x) => {
                            x.remove(&b);
                            proof {
                                assert(x@ =~= excluded0.unwrap().difference(byte_set(p.push(b))));
                            }
                            new_excluded = Some(x);
                        },
                        None => {},
                    }
                    excluded = new_excluded;
                    let mut new_allowed: Option<HashSet<u8>> = None;
                    match allowed {
                        Some(mut a) => {
                            a.insert(b);
                            proof {
                                assert(a@ =~= allowed0.unwrap().union(byte_set(p.push(b))));
                            }
                            new_allowed = Some(a);
                        },
                        None => {},
                    }
                    allowed = new_allowed;
                    i = i + 1;
                }
                assert(bytes@.take(bytes@.len() as int) =~= bytes@);
            }
        },
    }
    (allowed, excluded)
}

/// Whether the value of `--canon-reduction` switches canonical reduction
/// on: a missing value does not, and neither does one that, trimmed and
/// in ASCII lower case, is empty, `off`, `none`, `0` or `false`.
pub open spec fn canon_enabled(value: Option<Seq<char>>) -> bool {
    match value {
        None => false,
        Some(v) => {
            let t = trimmed(v).map_values(|c: char| ascii_lower(c));
            !(t == ""@ || t == "off"@ || t == "none"@ || t == "0"@ || t == "false"@)
        },
    }
}

/// Whether canonical reduction is enabled by the option value.
pub fn canon_reduction_enabled(spec: Option<&str>) -> (r: bool)
    ensures
        r == canon_enabled(
            match spec {
                Some(s) => Some(s@),
                None => None,
            },
        ),
{
    match spec {
        None => false,
        Some(value) => {
            let chars = str_to_chars(value);
            let t = trim_chars(&chars);
            let lowered = ascii_lower_chars(&t);
            let empty = str_to_chars("");
            let off = str_to_chars("off");
            let none = str_to_chars("none");
            let zero = str_to_chars("0");
            let no = str_to_chars("false");
            !(chars_same(&lowered, &empty) || chars_same(&lowered, &off) || chars_same(
                &lowered,
                &none,
            ) || chars_same(&lowered, &zero) || chars_same(&lowered, &no))
        },
    }
}

/// Description of a symbol in the symbol table listing (`-S`).
pub open spec fn description_of(sym: Symbol) -> Seq<char> {
    match sym {
        Symbol::One | Symbol::Two | Symbol::Three | Symbol::Four | Symbol::Five | Symbol::Six
        | Symbol::Seven | Symbol::Eight | Symbol::Nine => "integer"@,
        Symbol::Pi => "pi = 3.14159..."@,
        Symbol::E => "e = base of natural logarithms, 2.71828..."@,
        Symbol::Phi => "phi = the golden ratio, (1+sqrt(5))/2"@,
        Symbol::Gamma => "Euler-Mascheroni constant gamma"@,
        Symbol::Plastic => "plastic constant"@,
        Symbol::Apery => "Apery's constant zeta(3)"@,
        Symbol::Catalan => "Catalan's constant"@,
        Symbol::X => "the variable of the equation"@,
        Symbol::Neg => "negate"@,
        Symbol::Recip => "reciprocal"@,
        Symbol::Sqrt => "sqrt(x) = square root"@,
        Symbol::Square => "^2 = square"@,
        Symbol::Ln => "ln(x) = natural logarithm or log base e"@,
        Symbol::Exp => "natural exponent function"@,
        Symbol::SinPi => "sinpi(X) = sin(pi * x)"@,
        Symbol::CosPi => "cospi(X) = cos(pi * x)"@,
        Symbol::TanPi => "tanpi(X) = tan(pi * x)"@,
        Symbol::LambertW => "Lambert W function"@,
        Symbol::Add => "add"@,
        Symbol::Sub => "subtract"@,
        Symbol::Mul => "multiply"@,
        Symbol::Div => "divide"@,
        Symbol::Pow => "power"@,
        Symbol::Root => "a-th root of b"@,
        Symbol::Log => "log base a of b"@,
        Symbol::Atan2 => "2-argument arctangent"@,
        _ => ""@,
    }
}

/// Description of a symbol for the symbol table listing (`-S`); user
/// constants and functions have none.
pub fn sym_description(sym: Symbol) -> (r: &'static str)
    ensures
        r@ == description_of(sym),
{
    match sym {
        Symbol::One | Symbol::Two | Symbol::Three | Symbol::Four | Symbol::Five | Symbol::Six
        | Symbol::Seven | Symbol::Eight | Symbol::Nine => "integer",
        Symbol::Pi => "pi = 3.14159...",
        Symbol::E => "e = base of natural logarithms, 2.71828...",
        Symbol::Phi => "phi = the golden ratio, (1+sqrt(5))/2",
        Symbol::Gamma => "Euler-Mascheroni constant gamma",
        Symbol::Plastic => "plastic constant",
        Symbol::Apery => "Apery's constant zeta(3)",
        Symbol::Catalan => "Catalan's constant",
        Symbol::X => "the variable of the equation",
        Symbol::Neg => "negate",
        Symbol::Recip => "reciprocal",
        Symbol::Sqrt => "sqrt(x) = square root",
        Symbol::Square => "^2 = square",
        Symbol::Ln => "ln(x) = natural logarithm or log base e",
        Symbol::Exp => "natural exponent function",
        Symbol::SinPi => "sinpi(X) = sin(pi * x)",
        Symbol::CosPi => "cospi(X) = cos(pi * x)",
        Symbol::TanPi => "tanpi(X) = tan(pi * x)",
        Symbol::LambertW => "Lambert W function",
        Symbol::Add => "add",
        Symbol::Sub => "subtract",
        Symbol::Mul => "multiply",
        Symbol::Div => "divide",
        Symbol::Pow => "power",
        Symbol::Root => "a-th root of b",
        Symbol::Log => "log base a of b",
        Symbol::Atan2 => "2-argument arctangent",
        _ => "",
    }
}

/// End of the token that starts at `i`: the first white-space position at
/// or after `i`, or the end of the text.
pub open spec fn token_end(s: Seq<char>, i: int) -> int
    decreases s.len() - i,
{
    if 0 <= i < s.len() && !is_white_space(s[i]) {
        token_end(s, i + 1)
    } else {
        i
    }
}

/// `token_end` stays within the text, past non-white-space characters.
pub proof fn lemma_token_end(s: Seq<char>, i: int)
    requires
        0 <= i <= s.len(),
    ensures
        i <= token_end(s, i) <= s.len(),
        forall|k: int| i <= k < token_end(s, i) ==> !is_white_space(#[trigger] s[k]),
    decreases s.len() - i,
{
    if i < s.len() && !is_white_space(s[i]) {
        lemma_token_end(s, i + 1);
    }
}

/// Index of the first `c` in `s`, if any.
pub open spec fn first_index_of(s: Seq<char>, c: char) -> Option<int>
    decreases s.len(),
{
    if s.len() == 0 {
        None
    } else if s[0] == c {
        Some(0)
    } else {
        match first_index_of(s.skip(1), c) {
            Some(k) => Some(k + 1),
            None => None,
        }
    }
}

/// What one token of `--symbol-names` or `--symbol-weights` gives.
pub enum SymbolItem<T> {
    /// A token that does not start with `:` is ignored.
    Skip,
    /// The token is malformed; the message says why.
    Bad(Seq<char>),
    /// The symbol and the value given for it.
    Item(Symbol, T),
}

/// The symbol-name item written by the token `part`: `:c:name` names
/// symbol `c` (only the first character counts) with `name`.
pub open spec fn name_item(part: Seq<char>) -> SymbolItem<Seq<char>> {
    if part.len() == 0 || part[0] != ':' {
        SymbolItem::Skip
    } else {
        let inner = part.skip(1);
        match first_index_of(inner, ':') {
            None => SymbolItem::Bad("Invalid symbol name format: "@ + part),
            Some(pos) => if pos == 0 {
                SymbolItem::Bad("Empty symbol in --symbol-names"@)
            } else if inner.skip(pos + 1).len() == 0 {
                SymbolItem::Bad("Empty replacement name in --symbol-names: "@ + part)
            } else {
                match Symbol::symbol_of_byte(low_byte(inner[0])) {
                    None => SymbolItem::Bad("Unknown symbol in --symbol-names: "@ + seq![inner[0]]),
                    Some(sym) => SymbolItem::Item(sym, inner.skip(pos + 1)),
                }
            },
        }
    }
}

/// The value of a decimal `u32` literal with an optional leading `+`, as
/// `str::parse::<u32>` reads it; `None` when it is empty, holds another
/// character or overflows.
pub open spec fn parse_u32_text(t: Seq<char>) -> Option<u32> {
    u32_digits_value(strip_plus(t))
}

/// `t` without one leading `+`.
pub open spec fn strip_plus(t: Seq<char>) -> Seq<char> {
    if t.len() > 0 && t[0] == '+' {
        t.skip(1)
    } else {
        t
    }
}

/// The value of the decimal digits `d`, when they are one or more ASCII
/// digits whose value fits in a `u32`.
pub open spec fn u32_digits_value(d: Seq<char>) -> Option<u32> {
    if d.len() == 0 || !(forall|k: int| 0 <= k < d.len() ==> is_ascii_digit(#[trigger] d[k])) {
        None
    } else if digits_value(d) > u32::MAX {
        None
    } else {
        Some(digits_value(d) as u32)
    }
}

/// The symbol-weight item written by the token `part`: `:c:w` gives
/// symbol `c` (only the first character counts) the weight `w`.
pub open spec fn weight_item(part: Seq<char>) -> SymbolItem<u32> {
    if part.len() == 0 || part[0] != ':' {
        SymbolItem::Skip
    } else {
        let inner = part.skip(1);
        match first_index_of(inner, ':') {
            None => SymbolItem::Bad("Invalid symbol weight format: "@ + part),
            Some(pos) => if pos == 0 {
                SymbolItem::Bad("Empty symbol in --symbol-weights"@)
            } else {
                match parse_u32_text(inner.skip(pos + 1)) {
                    None => SymbolItem::Bad("Invalid weight in --symbol-weights: "@ + part),
                    Some(w) => match Symbol::symbol_of_byte(low_byte(inner[0])) {
                        None => SymbolItem::Bad(
                            "Unknown symbol in --symbol-weights: "@ + seq![inner[0]],
                        ),
                        Some(sym) => SymbolItem::Item(sym, w),
                    },
                }
            },
        }
    }
}

/// Reading the white-space separated tokens of `s` from position `i` with
/// `item` giving the meaning of each token: the items found, in order, and
/// the message of the first malformed token, if any (reading stops there).
pub open spec fn scan_items<T>(
    s: Seq<char>,
    i: int,
    item: spec_fn(Seq<char>) -> SymbolItem<T>,
) -> (Seq<(Symbol, T)>, Option<Seq<char>>)
    decreases s.len() - i,
{
    if i < 0 || i > s.len() {
        (Seq::empty(), None)
    } else {
        let a = skip_white_space(s, i);
        if a >= s.len() {
            (Seq::empty(), None)
        } else {
            proof {
                lemma_skip_white_space(s, i);
                lemma_token_end(s, a + 1);
            }
            let e = token_end(s, a);
            match item(s.subrange(a, e)) {
                SymbolItem::Skip => scan_items(s, e, item),
                SymbolItem::Bad(msg) => (Seq::empty(), Some(msg)),
                SymbolItem::Item(sym, v) => {
                    let rest = scan_items(s, e, item);
                    (seq![(sym, v)] + rest.0, rest.1)
                },
            }
        }
    }
}

/// Pairs of symbols and strings, with each string taken by its characters.
pub open spec fn named_pairs(v: Seq<(Symbol, String)>) -> Seq<(Symbol, Seq<char>)> {
    v.map_values(|p: (Symbol, String)| (p.0, p.1@))
}

/// Reading the `--symbol-names` text `s` from position `i`.
pub open spec fn scan_names(s: Seq<char>, i: int) -> (Seq<(Symbol, Seq<char>)>, Option<Seq<char>>) {
    scan_items(s, i, |p: Seq<char>| name_item(p))
}

/// Reading the `--symbol-weights` text `s` from position `i`.
pub open spec fn scan_weights(s: Seq<char>, i: int) -> (Seq<(Symbol, u32)>, Option<Seq<char>>) {
    scan_items(s, i, |p: Seq<char>| weight_item(p))
}

/// `first_index_of` finds the first occurrence, and only that.
pub proof fn lemma_first_index_of(s: Seq<char>, c: char)
    ensures
        match first_index_of(s, c) {
            Some(k) => 0 <= k < s.len() && s[k] == c && forall|j: int| 0 <= j < k ==> s[j] != c,
            None => forall|j: int| 0 <= j < s.len() ==> s[j] != c,
        },
    decreases s.len(),
{
    if s.len() > 0 && s[0] != c {
        lemma_first_index_of(s.skip(1), c);
        match first_index_of(s.skip(1), c) {
            Some(k) => {
                assert forall|j: int| 0 <= j < k + 1 implies s[j] != c by {
                    if j > 0 {
                        assert(s[j] == s.skip(1)[j - 1]);
                    }
                }
            },
            None => {
                assert forall|j: int| 0 <= j < s.len() implies s[j] != c by {
                    if j > 0 {
                        assert(s[j] == s.skip(1)[j - 1]);
                    }
                }
            },
        }
    }
}

/// The characters `s[a..e]`.
pub(crate) fn sub_chars(s: &Vec<char>, a: usize, e: usize) -> (r: Vec<char>)
    requires
        a <= e <= s@.len(),
    ensures
        r@ == s@.subrange(a as int, e as int),
{
    let mut out: Vec<char> = Vec::new();
    let mut k: usize = a;
    while k < e
        invariant
            a <= k <= e <= s@.len(),
            out@ == s@.subrange(a as int, k as int),
        decreases e - k,
    {
        out.push(s[k]);
        assert(s@.subrange(a as int, k + 1) =~= s@.subrange(a as int, k as int).push(s@[k as int]));
        k = k + 1;
    }
    out
}

/// Position, within `part[1..]`, of the first `:` after the leading one.
pub(crate) fn inner_colon(part: &Vec<char>) -> (r: Option<usize>)
    requires
        part@.len() >= 1,
    ensures
        first_index_of(part@.skip(1), ':') == match r {
            Some(k) => Some(k as int),
            None => None::<int>,
        },
        r matches Some(k) ==> k + 1 < part@.len(),
{
    let ghost inner = part@.skip(1);
    proof {
        lemma_first_index_of(inner, ':');
    }
    let mut j: usize = 1;
    while j < part.len()
        invariant
            1 <= j <= part@.len(),
            inner == part@.skip(1),
            forall|t: int| 0 <= t < j - 1 ==> inner[t] != ':',
        decreases part.len() - j,
    {
        if part[j] == ':' {
            assert(inner[j - 1] == ':');
            proof {
                lemma_first_index_of(inner, ':');
            }
            return Some(j - 1);
        }
        assert(inner[j - 1] != ':');
        j = j + 1;
    }
    None
}

/// Meaning of one `--symbol-names` token: `Ok(None)` to skip it.
fn name_item_exec(part: &Vec<char>) -> (r: Result<Option<(Symbol, String)>, String>)
    ensures
        r matches Ok(None) <==> name_item(part@) is Skip,
        r matches Err(m) ==> name_item(part@) == SymbolItem::<Seq<char>>::Bad(m@),
        r matches Ok(Some(p)) ==> name_item(part@) == SymbolItem::Item(p.0, p.1@),
{
    if part.len() == 0 || part[0] != ':' {
        return Ok(None);
    }
    let ghost inner = part@.skip(1);
    match inner_colon(part) {
        None => Err(message("Invalid symbol name format: ", part)),
        Some(pos) => {
            if pos == 0 {
                return Err(message("Empty symbol in --symbol-names", &Vec::new()));
            }
            let name = sub_chars(part, pos + 2, part.len());
            assert(name@ =~= inner.skip(pos + 1));
            if name.len() == 0 {
                return Err(message("Empty replacement name in --symbol-names: ", part));
            }
            let c = part[1];
            assert(c == inner[0]);
            match Symbol::from_byte(char_low_byte(c)) {
                None => {
                    let tail = vec![c];
                    let m = message("Unknown symbol in --symbol-names: ", &tail);
                    assert(m@ =~= "Unknown symbol in --symbol-names: "@ + seq![inner[0]]);
                    Err(m)
                },
                Some(sym) => Ok(Some((sym, crate::text::chars_to_string(&name)))),
            }
        },
    }
}

/// Every prefix of a digit string has at most the value of the whole.
proof fn lemma_digits_value_prefix(s: Seq<char>, k: int)
    requires
        0 <= k <= s.len(),
    ensures
        digits_value(s.take(k)) <= digits_value(s),
    decreases s.len(),
{
    if k < s.len() {
        assert(s.drop_last().take(k) =~= s.take(k));
        lemma_digits_value_prefix(s.drop_last(), k);
    } else {
        assert(s.take(k) =~= s);
    }
}

/// Read a `u32` as `str::parse::<u32>` does.
pub(crate) fn parse_u32_chars(t: &Vec<char>) -> (r: Option<u32>)
    ensures
        r == parse_u32_text(t@),
{
    let start: usize = if t.len() > 0 && t[0] == '+' {
        1
    } else {
        0
    };
    let ghost d = strip_plus(t@);
    assert(d =~= t@.skip(start as int));
    if start == t.len() {
        return None;
    }
    let mut value: u32 = 0;
    let mut k: usize = start;
    while k < t.len()
        invariant
            start <= k <= t@.len(),
            d =~= t@.skip(start as int),
            d == strip_plus(t@),
            forall|j: int| 0 <= j < k - start ==> is_ascii_digit(#[trigger] d[j]),
            value == digits_value(d.take(k - start)),
        decreases t.len() - k,
    {
        let c = t[k];
        if !('0' <= c && c <= '9') {
            assert(!is_ascii_digit(d[k - start]));
            return None;
        }
        let digit = (c as u32) - ('0' as u32);
        let ghost p = d.take(k - start + 1);
        assert(p.drop_last() =~= d.take(k - start));
        assert(p.last() == c);
        let wide: u64 = (value as u64) * 10 + (digit as u64);
        if wide > 0xffff_ffff {
            proof {
                lemma_digits_value_prefix(d, k - start + 1);
            }
            return None;
        }
        value = wide as u32;
        k = k + 1;
    }
    assert(d.take(k - start) =~= d);
    Some(value)
}

/// Meaning of one `--symbol-weights` token: `Ok(None)` to skip it.
fn weight_item_exec(part: &Vec<char>) -> (r: Result<Option<(Symbol, u32)>, String>)
    ensures
        r matches Ok(None) <==> weight_item(part@) is Skip,
        r matches Err(m) ==> weight_item(part@) == SymbolItem::<u32>::Bad(m@),
        r matches Ok(Some(p)) ==> weight_item(part@) == SymbolItem::Item(p.0, p.1),
{
    if part.len() == 0 || part[0] != ':' {
        return Ok(None);
    }
    let ghost inner = part@.skip(1);
    match inner_colon(part) {
        None => Err(message("Invalid symbol weight format: ", part)),
        Some(pos) => {
            if pos == 0 {
                return Err(message("Empty symbol in --symbol-weights", &Vec::new()));
            }
            let text = sub_chars(part, pos + 2, part.len());
            assert(text@ =~= inner.skip(pos + 1));
            match parse_u32_chars(&text) {
                None => Err(message("Invalid weight in --symbol-weights: ", part)),
                Some(w) => {
                    let c = part[1];
                    assert(c == inner[0]);
                    match Symbol::from_byte(char_low_byte(c)) {
                        None => {
                            let tail = vec![c];
                            let m = message("Unknown symbol in --symbol-weights: ", &tail);
                            assert(m@ =~= "Unknown symbol in --symbol-weights: "@ + seq![inner[0]]);
                            Err(m)
                        },
                        Some(sym) => Ok(Some((sym, w))),
                    }
                },
            }
        },
    }
}

/// Start and end of the next token of `s` at or after `i`, or `None` when
/// only white space is left.
pub(crate) fn next_token(s: &Vec<char>, i: usize) -> (r: Option<(usize, usize)>)
    requires
        i <= s@.len(),
    ensures
        match r {
            None => skip_white_space(s@, i as int) >= s@.len(),
            Some((a, e)) => {
                &&& a == skip_white_space(s@, i as int)
                &&& i <= a < s@.len()
                &&& e == token_end(s@, a as int)
                &&& a < e <= s@.len()
            },
        },
{
    let n = s.len();
    let mut a: usize = i;
    while a < n && char_is_white_space(s[a])
        invariant
            n == s@.len(),
            i <= a <= n,
            skip_white_space(s@, a as int) == skip_white_space(s@, i as int),
        decreases n - a,
    {
        a = a + 1;
    }
    if a >= n {
        return None;
    }
    let mut e: usize = a;
    while e < n && !char_is_white_space(s[e])
        invariant
            n == s@.len(),
            a <= e <= n,
            token_end(s@, e as int) == token_end(s@, a as int),
        decreases n - e,
    {
        e = e + 1;
    }
    Some((a, e))
}

/// Parse `--symbol-names` text such as `:p:PI :e:EULER`, appending each
/// symbol with its display name to `names`. Tokens that do not start with
/// `:` are ignored; on a malformed token the names before it stay appended
/// and its message is returned.
pub fn parse_symbol_names_from_cli(names: &mut Vec<(Symbol, String)>, spec: &str) -> (r: Result<
    (),
    String,
>)
    ensures
        named_pairs(final(names)@) == named_pairs(old(names)@) + scan_names(spec@, 0).0,
        r is Ok <==> scan_names(spec@, 0).1 is None,
        r matches Err(m) ==> scan_names(spec@, 0).1 == Some(m@),
{
    let chars = str_to_chars(spec);
    let ghost s = spec@;
    let ghost start = named_pairs(names@);
    let mut i: usize = 0;
    loop
        invariant
            chars@ == s,
            s == spec@,
            i <= s.len(),
            named_pairs(names@) + scan_names(s, i as int).0 == start + scan_names(s, 0).0,
            scan_names(s, i as int).1 == scan_names(s, 0).1,
            start == named_pairs(old(names)@),
        decreases s.len() - i,
    {
        match next_token(&chars, i) {
            None => {
                assert(scan_names(s, i as int).0 =~= Seq::<(Symbol, Seq<char>)>::empty());
                assert(named_pairs(names@) + Seq::<(Symbol, Seq<char>)>::empty() =~= named_pairs(
                    names@,
                ));
                return Ok(());
            },
            Some((a, e)) => {
                let part = sub_chars(&chars, a, e);
                match name_item_exec(&part) {
                    Err(m) => {
                        return Err(m);
                    },
                    Ok(None) => {},
                    Ok(Some(p)) => {
                        let ghost before = named_pairs(names@);
                        let ghost item = (p.0, p.1@);
                        names.push(p);
                        assert(named_pairs(names@) =~= before.push(item));
                        assert(before.push(item) + scan_names(s, e as int).0 =~= before + (seq![
                            item,
                        ] + scan_names(s, e as int).0));
                    },
                }
                i = e;
            },
        }
    }
}

/// Parse `--symbol-weights` text such as `:W:20 :p:25`, appending each
/// symbol with its weight to `weights`. Tokens that do not start with `:`
/// are ignored; on a malformed token the weights before it stay appended
/// and its message is returned.
pub fn parse_symbol_weights_from_cli(weights: &mut Vec<(Symbol, u32)>, spec: &str) -> (r: Result<
    (),
    String,
>)
    ensures
        final(weights)@ == old(weights)@ + scan_weights(spec@, 0).0,
        r is Ok <==> scan_weights(spec@, 0).1 is None,
        r matches Err(m) ==> scan_weights(spec@, 0).1 == Some(m@),
{
    let chars = str_to_chars(spec);
    let ghost s = spec@;
    let mut i: usize = 0;
    loop
        invariant
            chars@ == s,
            s == spec@,
            i <= s.len(),
            weights@ + scan_weights(s, i as int).0 == old(weights)@ + scan_weights(s, 0).0,
            scan_weights(s, i as int).1 == scan_weights(s, 0).1,
        decreases s.len() - i,
    {
        match next_token(&chars, i) {
            None => {
                assert(scan_weights(s, i as int).0 =~= Seq::<(Symbol, u32)>::empty());
                assert(weights@ + Seq::<(Symbol, u32)>::empty() =~= weights@);
                return Ok(());
            },
            Some((a, e)) => {
                let part = sub_chars(&chars, a, e);
                match weight_item_exec(&part) {
                    Err(m) => {
                        return Err(m);
                    },
                    Ok(None) => {},
                    Ok(Some(p)) => {
                        let ghost before = weights@;
                        weights.push(p);
                        assert(before.push(p) + scan_weights(s, e as int).0 =~= before + (seq![p]
                            + scan_weights(s, e as int).0));
                    },
                }
                i = e;
            },
        }
    }
}

/// What `-X`/`--user-constant` text `weight:name:description:value` says:
/// the weight, name, description and the text of the value, or the message
/// of why it is malformed. The value's text is read as a number by the
/// caller.
pub open spec fn user_constant_of(s: Seq<char>) -> Result<
    (u32, Seq<char>, Seq<char>, Seq<char>),
    Seq<char>,
> {
    let parts = split_at_char(s, ':');
    if parts.len() != 4 {
        Err("Expected 4 colon-separated parts, got "@ + decimal(parts.len()))
    } else {
        match parse_u32_text(parts[0]) {
            None => Err("Invalid weight: "@ + parts[0]),
            Some(w) => if parts[1].len() == 0 {
                Err("Constant name cannot be empty"@)
            } else {
                Ok((w, parts[1], parts[2], parts[3]))
            },
        }
    }
}

/// Split `-X`/`--user-constant` text `weight:name:description:value` into
/// its weight, name, description and value text; the error names the first
/// thing wrong with it.
pub fn parse_user_constant_from_cli(spec: &str) -> (r: Result<(u32, String, String, String), String>)
    ensures
        match user_constant_of(spec@) {
            Ok(v) => r matches Ok(t) && (t.0, t.1@, t.2@, t.3@) == v,
            Err(m) => r matches Err(e) && e@ == m,
        },
{
    let chars = str_to_chars(spec);
    let parts = split_chars(&chars, ':');
    let ghost pv = parts@.map_values(|p: Vec<char>| p@);
    assert(pv.len() == parts@.len());
    if parts.len() != 4 {
        let count = decimal_chars(parts.len() as u64);
        return Err(message("Expected 4 colon-separated parts, got ", &count));
    }
    assert(pv[0] == parts@[0]@ && pv[1] == parts@[1]@ && pv[2] == parts@[2]@ && pv[3]
        == parts@[3]@);
    match parse_u32_chars(&parts[0]) {
        None => Err(message("Invalid weight: ", &parts[0])),
        Some(weight) => {
            if parts[1].len() == 0 {
                let m = message("Constant name cannot be empty", &Vec::new());
                assert(m@ =~= "Constant name cannot be empty"@);
                return Err(m);
            }
            Ok(
                (
                    weight,
                    chars_to_string(&parts[1]),
                    chars_to_string(&parts[2]),
                    chars_to_string(&parts[3]),
                ),
            )
        },
    }
}

/// Whether `c` is an ASCII letter.
pub open spec fn is_ascii_letter(c: char) -> bool {
    ('a' <= c && c <= 'z') || ('A' <= c && c <= 'Z')
}

/// The factor that a size suffix stands for: `K`, `M`, `G` and `T` (in
/// either case) are powers of 1024; other letters stand for nothing.
pub open spec fn size_multiplier(c: char) -> Option<u64> {
    if c == 'K' || c == 'k' {
        Some(1024)
    } else if c == 'M' || c == 'm' {
        Some(1048576)
    } else if c == 'G' || c == 'g' {
        Some(1073741824)
    } else if c == 'T' || c == 't' {
        Some(1099511627776)
    } else {
        None
    }
}

/// A memory size such as `512M` split into the text of its number and the
/// factor of its suffix (1 without one); `None` when it is blank or ends in
/// a letter that is no size suffix.
pub open spec fn memory_size_parts_of(s: Seq<char>) -> Option<(Seq<char>, u64)> {
    let t = trimmed(s);
    if t.len() == 0 {
        None
    } else if is_ascii_letter(t.last()) {
        match size_multiplier(t.last()) {
            None => None,
            Some(m) => Some((trimmed(t.drop_last()), m)),
        }
    } else {
        Some((t, 1))
    }
}

/// Split a `--memory-limit` style size into the text of its number and the
/// factor of its suffix. The number is read by the caller, which also
/// refuses a negative or non-finite one; the size is the number times the
/// factor.
pub fn memory_size_parts(spec: &str) -> (r: Option<(String, u64)>)
    ensures
        match memory_size_parts_of(spec@) {
            None => r is None,
            Some(p) => r matches Some(q) && q.0@ == p.0 && q.1 == p.1,
        },
{
    let chars = str_to_chars(spec);
    let t = trim_chars(&chars);
    if t.len() == 0 {
        return None;
    }
    let last = t[t.len() - 1];
    if ('a' <= last && last <= 'z') || ('A' <= last && last <= 'Z') {
        let m: u64 = if last == 'K' || last == 'k' {
            1024
        } else if last == 'M' || last == 'm' {
            1024 * 1024
        } else if last == 'G' || last == 'g' {
            1024 * 1024 * 1024
        } else if last == 'T' || last == 't' {
            1024 * 1024 * 1024 * 1024
        } else {
            return None;
        };
        let head = sub_chars(&t, 0, t.len() - 1);
        assert(head@ =~= t@.drop_last());
        let num = trim_chars(&head);
        Some((chars_to_string(&num), m))
    } else {
        Some((chars_to_string(&t), 1))
    }
}

} // verus!
