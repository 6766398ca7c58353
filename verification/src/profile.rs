//! The line format of `.ries` profile files.
//!
//! Each line of a profile is blank, a comment (`#`), an include
//! (`--include file`), a user constant (`-X "weight:name:description:value"`),
//! a user function (`--define "..."`), symbol names (`--symbol-names :p:π`)
//! or symbol weights (`--symbol-weights :W:20`); other lines are ignored.
//! Reading a line gives what it says with its text split up; the numeric
//! value of a constant and the formula of a function are read by the caller.

use vstd::prelude::*;
use crate::args::{
    first_index_of, lemma_first_index_of, message, next_token, parse_u32_chars, parse_u32_text,
    scan_items, sub_chars, SymbolItem,
};
use crate::symbol::Symbol;
use crate::text::{
    char_low_byte, chars_to_string, decimal, decimal_chars, low_byte, push_all, str_to_chars,
    trim_chars, trimmed,
};

verus! {

/// What one line of a profile says, by the views of its parts.
pub enum ProfileLineView {
    /// An empty line or a comment.
    Blank,
    /// An include of another profile file.
    Include(Seq<char>),
    /// A user constant: weight, name, description and the text of its value.
    Constant(u32, Seq<char>, Seq<char>, Seq<char>),
    /// A user function, by the text of its definition.
    Function(Seq<char>),
    /// Display names of symbols, in order.
    SymbolNames(Seq<(Symbol, Seq<char>)>),
    /// Weights of symbols, in order.
    SymbolWeights(Seq<(Symbol, u32)>),
    /// A directive that profiles do not use; it is ignored.
    Unknown,
}

/// What one line of a profile says.
#[derive(Debug)]
pub enum ProfileLine {
    /// An empty line or a comment.
    Blank,
    /// An include of another profile file, by its path.
    Include(String),
    /// A user constant; its value is still text.
    Constant { weight: u32, name: String, description: String, value: String },
    /// A user function, by the text of its definition.
    Function(String),
    /// Display names of symbols, in order.
    SymbolNames(Vec<(Symbol, String)>),
    /// Weights of symbols, in order.
    SymbolWeights(Vec<(Symbol, u32)>),
    /// A directive that profiles do not use; it is ignored.
    Unknown,
}

impl View for ProfileLine {
    type V = ProfileLineView;

    open spec fn view(&self) -> ProfileLineView {
        match self {
            ProfileLine::Blank => ProfileLineView::Blank,
            ProfileLine::Include(p) => ProfileLineView::Include(p@),
            ProfileLine::Constant { weight, name, description, value } => ProfileLineView::Constant(
                *weight,
                name@,
                description@,
                value@,
            ),
            ProfileLine::Function(d) => ProfileLineView::Function(d@),
            ProfileLine::SymbolNames(v) => ProfileLineView::SymbolNames(
                v@.map_values(|p: (Symbol, String)| (p.0, p.1@)),
            ),
            ProfileLine::SymbolWeights(v) => ProfileLineView::SymbolWeights(v@),
            ProfileLine::Unknown => ProfileLineView::Unknown,
        }
    }
}

/// Whether `s` begins with `p`.
pub open spec fn starts_with(s: Seq<char>, p: Seq<char>) -> bool {
    p.len() <= s.len() && s.take(p.len() as int) == p
}

/// The content of a directive argument: the text up to the closing quote
/// when it opens with `"`, else all of it; `None` when the quote is not
/// closed.
pub open spec fn quoted_content(rest: Seq<char>) -> Option<Seq<char>> {
    if rest.len() > 0 && rest[0] == '"' {
        match first_index_of(rest.skip(1), '"') {
            Some(k) => Some(rest.skip(1).take(k)),
            None => None,
        }
    } else {
        Some(rest)
    }
}

/// The pieces of `s` between occurrences of `c`.
pub open spec fn split_at_char(s: Seq<char>, c: char) -> Seq<Seq<char>>
    decreases s.len(),
{
    match first_index_of(s, c) {
        None => seq![s],
        Some(k) => {
            proof {
                lemma_first_index_of(s, c);
            }
            seq![s.take(k)] + split_at_char(s.skip(k + 1), c)
        },
    }
}

/// The argument text after a directive of `n` characters.
pub open spec fn argument(t: Seq<char>, n: int) -> Seq<char> {
    trimmed(t.skip(n))
}

/// The include line `t` (trimmed, starting with `--include`): the path,
/// without surrounding quotes.
pub open spec fn include_of(t: Seq<char>) -> Result<ProfileLineView, Seq<char>> {
    let rest = argument(t, 9);
    if rest.len() == 0 {
        Err("--include requires a filename"@)
    } else if rest[0] == '"' && rest.last() == '"' {
        Ok(ProfileLineView::Include(rest.subrange(1, rest.len() - 1)))
    } else {
        Ok(ProfileLineView::Include(rest))
    }
}

/// The constant line `t` (trimmed, starting with `-X`).
pub open spec fn constant_of(t: Seq<char>) -> Result<ProfileLineView, Seq<char>> {
    match quoted_content(argument(t, 2)) {
        None => Err("Unclosed quote in -X directive"@),
        Some(content) => {
            let parts = split_at_char(content, ':');
            if parts.len() != 4 {
                Err("Invalid -X format: expected 4 colon-separated parts, got "@ + decimal(
                    parts.len(),
                ))
            } else {
                match parse_u32_text(parts[0]) {
                    None => Err("Invalid weight: "@ + parts[0]),
                    Some(w) => Ok(ProfileLineView::Constant(w, parts[1], parts[2], parts[3])),
                }
            }
        },
    }
}

/// The function line `t` (trimmed, starting with `--define`).
pub open spec fn function_of(t: Seq<char>) -> Result<ProfileLineView, Seq<char>> {
    match quoted_content(argument(t, 8)) {
        None => Err("Unclosed quote in --define directive"@),
        Some(content) => Ok(ProfileLineView::Function(content)),
    }
}

/// The meaning of one token of a profile's `--symbol-names` line: tokens
/// that do not start with `:`, have no second `:` or name no symbol are
/// ignored.
pub open spec fn profile_name_item(part: Seq<char>) -> SymbolItem<Seq<char>> {
    if part.len() == 0 || part[0] != ':' {
        SymbolItem::Skip
    } else {
        let inner = part.skip(1);
        match first_index_of(inner, ':') {
            None => SymbolItem::Skip,
            Some(pos) => if pos == 0 {
                SymbolItem::Bad("Empty symbol in --symbol-names"@)
            } else {
                match Symbol::symbol_of_byte(low_byte(inner[0])) {
                    None => SymbolItem::Skip,
                    Some(sym) => SymbolItem::Item(sym, inner.skip(pos + 1)),
                }
            },
        }
    }
}

/// The meaning of one token of a profile's `--symbol-weights` line: tokens
/// that do not start with `:`, have no second `:` or name no symbol are
/// ignored, but a weight that does not parse is an error.
pub open spec fn profile_weight_item(part: Seq<char>) -> SymbolItem<u32> {
    if part.len() == 0 || part[0] != ':' {
        SymbolItem::Skip
    } else {
        let inner = part.skip(1);
        match first_index_of(inner, ':') {
            None => SymbolItem::Skip,
            Some(pos) => if pos == 0 {
                SymbolItem::Bad("Empty symbol in --symbol-weights"@)
            } else {
                match parse_u32_text(inner.skip(pos + 1)) {
                    None => SymbolItem::Bad("Invalid weight in --symbol-weights: "@ + inner),
                    Some(w) => match Symbol::symbol_of_byte(low_byte(inner[0])) {
                        None => SymbolItem::Skip,
                        Some(sym) => SymbolItem::Item(sym, w),
                    },
                }
            },
        }
    }
}

/// Reading the tokens of a profile's `--symbol-names` argument `s` from `i`.
pub open spec fn scan_profile_names(s: Seq<char>, i: int) -> (
    Seq<(Symbol, Seq<char>)>,
    Option<Seq<char>>,
) {
    scan_items(s, i, |p: Seq<char>| profile_name_item(p))
}

/// Reading the tokens of a profile's `--symbol-weights` argument `s` from `i`.
pub open spec fn scan_profile_weights(s: Seq<char>, i: int) -> (Seq<(Symbol, u32)>, Option<Seq<char>>) {
    scan_items(s, i, |p: Seq<char>| profile_weight_item(p))
}

/// The names line `t` (trimmed, starting with `--symbol-names`).
pub open spec fn names_of(t: Seq<char>) -> Result<ProfileLineView, Seq<char>> {
    let r = scan_profile_names(argument(t, 14), 0);
    match r.1 {
        Some(m) => Err(m),
        None => Ok(ProfileLineView::SymbolNames(r.0)),
    }
}

/// The weights line `t` (trimmed, starting with `--symbol-weights`).
pub open spec fn weights_of(t: Seq<char>) -> Result<ProfileLineView, Seq<char>> {
    let r = scan_profile_weights(argument(t, 16), 0);
    match r.1 {
        Some(m) => Err(m),
        None => Ok(ProfileLineView::SymbolWeights(r.0)),
    }
}

/// What the profile line `line` says, or why it is malformed.
pub open spec fn profile_line_of(line: Seq<char>) -> Result<ProfileLineView, Seq<char>> {
    let t = trimmed(line);
    if t.len() == 0 || t[0] == '#' {
        Ok(ProfileLineView::Blank)
    } else if starts_with(t, "--include"@) {
        include_of(t)
    } else if starts_with(t, "-X"@) {
        constant_of(t)
    } else if starts_with(t, "--define"@) {
        function_of(t)
    } else if starts_with(t, "--symbol-names"@) {
        names_of(t)
    } else if starts_with(t, "--symbol-weights"@) {
        weights_of(t)
    } else {
        Ok(ProfileLineView::Unknown)
    }
}

/// Whether `line` is an include whose argument is a lone `"`, on which the
/// path cannot be cut out of its quotes.
pub open spec fn lone_quote_include(line: Seq<char>) -> bool {
    let t = trimmed(line);
    &&& !(t.len() == 0 || t[0] == '#')
    &&& starts_with(t, "--include"@)
    &&& argument(t, 9) == seq!['"']
}

/// Position of the first `c` in `v`, if any.
fn find_char(v: &Vec<char>, c: char) -> (r: Option<usize>)
    ensures
        first_index_of(v@, c) == match r {
            Some(k) => Some(k as int),
            None => None::<int>,
        },
{
    proof {
        lemma_first_index_of(v@, c);
    }
    let mut j: usize = 0;
    while j < v.len()
        invariant
            j <= v@.len(),
            forall|t: int| 0 <= t < j ==> v@[t] != c,
            match first_index_of(v@, c) {
                Some(k) => 0 <= k < v@.len() && v@[k] == c && forall|t: int| 0 <= t < k ==> v@[t]
                    != c,
                None => forall|t: int| 0 <= t < v@.len() ==> v@[t] != c,
            },
        decreases v.len() - j,
    {
        if v[j] == c {
            return Some(j);
        }
        j = j + 1;
    }
    None
}

/// Whether `v` begins with the characters of `lit`.
fn starts_with_lit(v: &Vec<char>, lit: &str) -> (r: bool)
    ensures
        r == starts_with(v@, lit@),
{
    let p = str_to_chars(lit);
    if p.len() > v.len() {
        return false;
    }
    let head = sub_chars(v, 0, p.len());
    assert(head@ =~= v@.take(p@.len() as int));
    crate::text::chars_same(&head, &p)
}

/// The content of a directive argument (see `quoted_content`).
fn quoted(rest: &Vec<char>) -> (r: Option<Vec<char>>)
    ensures
        match quoted_content(rest@) {
            Some(c) => r matches Some(v) && v@ == c,
            None => r is None,
        },
{
    if rest.len() > 0 && rest[0] == '"' {
        let st = sub_chars(rest, 1, rest.len());
        assert(st@ =~= rest@.skip(1));
        proof {
            lemma_first_index_of(st@, '"');
        }
        match find_char(&st, '"') {
            Some(k) => {
                let content = sub_chars(&st, 0, k);
                assert(content@ =~= st@.take(k as int));
                Some(content)
            },
            None => None,
        }
    } else {
        let mut copy: Vec<char> = Vec::new();
        push_all(&mut copy, rest);
        assert(copy@ =~= rest@);
        Some(copy)
    }
}

/// The pieces of `v` between occurrences of `c`.
pub(crate) fn split_chars(v: &Vec<char>, c: char) -> (r: Vec<Vec<char>>)
    ensures
        r@.map_values(|p: Vec<char>| p@) == split_at_char(v@, c),
{
    let mut pieces: Vec<Vec<char>> = Vec::new();
    let mut start: usize = 0;
    assert(v@.skip(0) =~= v@);
    assert(pieces@.map_values(|p: Vec<char>| p@) + split_at_char(v@, c) =~= split_at_char(v@, c));
    loop
        invariant
            start <= v@.len(),
            pieces@.map_values(|p: Vec<char>| p@) + split_at_char(v@.skip(start as int), c)
                == split_at_char(v@, c),
        decreases v@.len() - start,
    {
        let rest = sub_chars(v, start, v.len());
        assert(rest@ =~= v@.skip(start as int));
        let ghost before = pieces@.map_values(|p: Vec<char>| p@);
        match find_char(&rest, c) {
            None => {
                let ghost rv = rest@;
                pieces.push(rest);
                assert(pieces@.map_values(|p: Vec<char>| p@) =~= before.push(rv));
                assert(split_at_char(rv, c) == seq![rv]);
                assert(before.push(rv) =~= before + seq![rv]);
                return pieces;
            },
            Some(k) => {
                proof {
                    lemma_first_index_of(rest@, c);
                }
                let piece = sub_chars(&rest, 0, k);
                let ghost pv = piece@;
                assert(pv =~= rest@.take(k as int));
                pieces.push(piece);
                assert(pieces@.map_values(|p: Vec<char>| p@) =~= before.push(pv));
                assert(rest@.skip(k + 1) =~= v@.skip(start + k + 1));
                assert(split_at_char(rest@, c) == seq![pv] + split_at_char(rest@.skip(k + 1), c));
                assert(before.push(pv) + split_at_char(v@.skip(start + k + 1), c) =~= before + (
                seq![pv] + split_at_char(rest@.skip(k + 1), c)));
                start = start + k + 1;
            },
        }
    }
}

/// Meaning of one token of a profile's `--symbol-names` line.
fn profile_name_item_exec(part: &Vec<char>) -> (r: Result<Option<(Symbol, String)>, String>)
    ensures
        r matches Ok(None) <==> profile_name_item(part@) is Skip,
        r matches Err(m) ==> profile_name_item(part@) == SymbolItem::<Seq<char>>::Bad(m@),
        r matches Ok(Some(p)) ==> profile_name_item(part@) == SymbolItem::Item(p.0, p.1@),
{
    if part.len() == 0 || part[0] != ':' {
        return Ok(None);
    }
    let ghost inner = part@.skip(1);
    match crate::args::inner_colon(part) {
        None => Ok(None),
        Some(pos) => {
            if pos == 0 {
                return Err(message("Empty symbol in --symbol-names", &Vec::new()));
            }
            let c = part[1];
            assert(c == inner[0]);
            match Symbol::from_byte(char_low_byte(c)) {
                None => Ok(None),
                Some(sym) => {
                    let name = sub_chars(part, pos + 2, part.len());
                    assert(name@ =~= inner.skip(pos + 1));
                    Ok(Some((sym, chars_to_string(&name))))
                },
            }
        },
    }
}

/// Meaning of one token of a profile's `--symbol-weights` line.
fn profile_weight_item_exec(part: &Vec<char>) -> (r: Result<Option<(Symbol, u32)>, String>)
    ensures
        r matches Ok(None) <==> profile_weight_item(part@) is Skip,
        r matches Err(m) ==> profile_weight_item(part@) == SymbolItem::<u32>::Bad(m@),
        r matches Ok(Some(p)) ==> profile_weight_item(part@) == SymbolItem::Item(p.0, p.1),
{
    if part.len() == 0 || part[0] != ':' {
        return Ok(None);
    }
    let ghost inner = part@.skip(1);
    match crate::args::inner_colon(part) {
        None => Ok(None),
        Some(pos) => {
            if pos == 0 {
                return Err(message("Empty symbol in --symbol-weights", &Vec::new()));
            }
            let text = sub_chars(part, pos + 2, part.len());
            assert(text@ =~= inner.skip(pos + 1));
            match parse_u32_chars(&text) {
                None => {
                    let inner_chars = sub_chars(part, 1, part.len());
                    assert(inner_chars@ =~= inner);
                    Err(message("Invalid weight in --symbol-weights: ", &inner_chars))
                },
                Some(w) => {
                    let c = part[1];
                    assert(c == inner[0]);
                    match Symbol::from_byte(char_low_byte(c)) {
                        None => Ok(None),
                        Some(sym) => Ok(Some((sym, w))),
                    }
                },
            }
        },
    }
}

/// Read the symbol names of a profile's `--symbol-names` argument.
fn read_profile_names(s: &Vec<char>) -> (r: Result<Vec<(Symbol, String)>, String>)
    ensures
        match scan_profile_names(s@, 0).1 {
            Some(m) => r matches Err(e) && e@ == m,
            None => r matches Ok(v) && v@.map_values(|p: (Symbol, String)| (p.0, p.1@))
                == scan_profile_names(s@, 0).0,
        },
{
    let mut names: Vec<(Symbol, String)> = Vec::new();
    let mut i: usize = 0;
    loop
        invariant
            i <= s@.len(),
            names@.map_values(|p: (Symbol, String)| (p.0, p.1@)) + scan_profile_names(s@, i as int).0
                == scan_profile_names(s@, 0).0,
            scan_profile_names(s@, i as int).1 == scan_profile_names(s@, 0).1,
        decreases s@.len() - i,
    {
        match next_token(s, i) {
            None => {
                assert(scan_profile_names(s@, i as int).0 =~= Seq::<(Symbol, Seq<char>)>::empty());
                assert(names@.map_values(|p: (Symbol, String)| (p.0, p.1@)) + Seq::<
                    (Symbol, Seq<char>),
                >::empty() =~= names@.map_values(|p: (Symbol, String)| (p.0, p.1@)));
                return Ok(names);
            },
            Some((a, e)) => {
                let part = sub_chars(s, a, e);
                match profile_name_item_exec(&part) {
                    Err(m) => {
                        return Err(m);
                    },
                    Ok(None) => {},
                    Ok(Some(p)) => {
                        let ghost before = names@.map_values(|p: (Symbol, String)| (p.0, p.1@));
                        let ghost item = (p.0, p.1@);
                        names.push(p);
                        assert(names@.map_values(|p: (Symbol, String)| (p.0, p.1@)) =~= before.push(
                            item,
                        ));
                        assert(before.push(item) + scan_profile_names(s@, e as int).0 =~= before + (
                        seq![item] + scan_profile_names(s@, e as int).0));
                    },
                }
                i = e;
            },
        }
    }
}

/// Read the symbol weights of a profile's `--symbol-weights` argument.
fn read_profile_weights(s: &Vec<char>) -> (r: Result<Vec<(Symbol, u32)>, String>)
    ensures
        match scan_profile_weights(s@, 0).1 {
            Some(m) => r matches Err(e) && e@ == m,
            None => r matches Ok(v) && v@ == scan_profile_weights(s@, 0).0,
        },
{
    let mut weights: Vec<(Symbol, u32)> = Vec::new();
    let mut i: usize = 0;
    loop
        invariant
            i <= s@.len(),
            weights@ + scan_profile_weights(s@, i as int).0 == scan_profile_weights(s@, 0).0,
            scan_profile_weights(s@, i as int).1 == scan_profile_weights(s@, 0).1,
        decreases s@.len() - i,
    {
        match next_token(s, i) {
            None => {
                assert(scan_profile_weights(s@, i as int).0 =~= Seq::<(Symbol, u32)>::empty());
                assert(weights@ + Seq::<(Symbol, u32)>::empty() =~= weights@);
                return Ok(weights);
            },
            Some((a, e)) => {
                let part = sub_chars(s, a, e);
                match profile_weight_item_exec(&part) {
                    Err(m) => {
                        return Err(m);
                    },
                    Ok(None) => {},
                    Ok(Some(p)) => {
                        let ghost before = weights@;
                        weights.push(p);
                        assert(before.push(p) + scan_profile_weights(s@, e as int).0 =~= before + (
                        seq![p] + scan_profile_weights(s@, e as int).0));
                    },
                }
                i = e;
            },
        }
    }
}

/// Read one line of a profile file: what it says, or the message of why it
/// is malformed.
pub fn read_profile_line(line: &str) -> (r: Result<ProfileLine, String>)
    requires
        !lone_quote_include(line@),
    ensures
        match profile_line_of(line@) {
            Ok(v) => r matches Ok(l) && l@ == v,
            Err(m) => r matches Err(e) && e@ == m,
        },
{
    let chars = str_to_chars(line);
    let t = trim_chars(&chars);
    if t.len() == 0 || t[0] == '#' {
        return Ok(ProfileLine::Blank);
    }
    if starts_with_lit(&t, "--include") {
        proof {
            reveal_strlit("--include");
        }
        let after = sub_chars(&t, 9, t.len());
        assert(after@ =~= t@.skip(9));
        let rest = trim_chars(&after);
        if rest.len() == 0 {
            let m = message("--include requires a filename", &Vec::new());
            assert(m@ =~= "--include requires a filename"@);
            return Err(m);
        }
        if rest[0] == '"' && rest[rest.len() - 1] == '"' {
            assert(rest@ != seq!['"']);
            if rest.len() == 1 {
                assert(rest@ =~= seq!['"']);
            }
            let path = sub_chars(&rest, 1, rest.len() - 1);
            return Ok(ProfileLine::Include(chars_to_string(&path)));
        }
        return Ok(ProfileLine::Include(chars_to_string(&rest)));
    }
    if starts_with_lit(&t, "-X") {
        proof {
            reveal_strlit("-X");
        }
        let after = sub_chars(&t, 2, t.len());
        assert(after@ =~= t@.skip(2));
        let rest = trim_chars(&after);
        match quoted(&rest) {
            None => {
                let m = message("Unclosed quote in -X directive", &Vec::new());
                assert(m@ =~= "Unclosed quote in -X directive"@);
                return Err(m);
            },
            Some(content) => {
                let parts = split_chars(&content, ':');
                let ghost pv = parts@.map_values(|p: Vec<char>| p@);
                assert(pv.len() == parts@.len());
                if parts.len() != 4 {
                    let count = decimal_chars(parts.len() as u64);
                    return Err(
                        message("Invalid -X format: expected 4 colon-separated parts, got ", &count),
                    );
                }
                assert(pv[0] == parts@[0]@ && pv[1] == parts@[1]@ && pv[2] == parts@[2]@ && pv[3]
                    == parts@[3]@);
                match parse_u32_chars(&parts[0]) {
                    None => {
                        return Err(message("Invalid weight: ", &parts[0]));
                    },
                    Some(weight) => {
                        return Ok(
                            ProfileLine::Constant {
                                weight,
                                name: chars_to_string(&parts[1]),
                                description: chars_to_string(&parts[2]),
                                value: chars_to_string(&parts[3]),
                            },
                        );
                    },
                }
            },
        }
    }
    if starts_with_lit(&t, "--define") {
        proof {
            reveal_strlit("--define");
        }
        let after = sub_chars(&t, 8, t.len());
        assert(after@ =~= t@.skip(8));
        let rest = trim_chars(&after);
        match quoted(&rest) {
            None => {
                let m = message("Unclosed quote in --define directive", &Vec::new());
                assert(m@ =~= "Unclosed quote in --define directive"@);
                return Err(m);
            },
            Some(content) => {
                return Ok(ProfileLine::Function(chars_to_string(&content)));
            },
        }
    }
    if starts_with_lit(&t, "--symbol-names") {
        proof {
            reveal_strlit("--symbol-names");
        }
        let after = sub_chars(&t, 14, t.len());
        assert(after@ =~= t@.skip(14));
        let rest = trim_chars(&after);
        match read_profile_names(&rest) {
            Ok(v) => {
                return Ok(ProfileLine::SymbolNames(v));
            },
            Err(m) => {
                return Err(m);
            },
        }
    }
    if starts_with_lit(&t, "--symbol-weights") {
        proof {
            reveal_strlit("--symbol-weights");
        }
        let after = sub_chars(&t, 16, t.len());
        assert(after@ =~= t@.skip(16));
        let rest = trim_chars(&after);
        match read_profile_weights(&rest) {
            Ok(v) => {
                return Ok(ProfileLine::SymbolWeights(v));
            },
            Err(m) => {
                return Err(m);
            },
        }
    }
    Ok(ProfileLine::Unknown)
}

/// Why a profile could not be loaded.
#[derive(Debug)]
pub enum ProfileError {
    /// A file could not be read: its path and the system's message.
    IoError(String, String),
    /// A line could not be read: the file's path, the line number (0 for
    /// the file as a whole) and the message.
    ParseError(String, usize, String),
    /// A value is not acceptable: the message.
    ValidationError(String),
}

/// The text that reports a profile error.
pub open spec fn profile_error_text(e: ProfileError) -> Seq<char> {
    match e {
        ProfileError::IoError(path, msg) => "Error reading "@ + path@ + ": "@ + msg@,
        ProfileError::ParseError(path, line, msg) => "Parse error in "@ + path@ + " at line "@
            + decimal(line as nat) + ": "@ + msg@,
        ProfileError::ValidationError(msg) => "Validation error: "@ + msg@,
    }
}

impl ProfileError {
    /// The text that reports this error.
    pub fn message(&self) -> (r: String)
        ensures
            r@ == profile_error_text(*self),
    {
        match self {
            ProfileError::IoError(path, msg) => {
                let mut v = str_to_chars("Error reading ");
                push_all(&mut v, &str_to_chars(path.as_str()));
                push_all(&mut v, &str_to_chars(": "));
                push_all(&mut v, &str_to_chars(msg.as_str()));
                chars_to_string(&v)
            },
            ProfileError::ParseError(path, line, msg) => {
                let mut v = str_to_chars("Parse error in ");
                push_all(&mut v, &str_to_chars(path.as_str()));
                push_all(&mut v, &str_to_chars(" at line "));
                push_all(&mut v, &decimal_chars(*line as u64));
                push_all(&mut v, &str_to_chars(": "));
                push_all(&mut v, &str_to_chars(msg.as_str()));
                chars_to_string(&v)
            },
            ProfileError::ValidationError(msg) => {
                let mut v = str_to_chars("Validation error: ");
                push_all(&mut v, &str_to_chars(msg.as_str()));
                chars_to_string(&v)
            },
        }
    }
}

/// Where an item of a merged profile comes from: `(false, i)` is item `i`
/// of the base profile, `(true, j)` item `j` of the profile merged into it.
pub open spec fn entry_name(base: Seq<Seq<char>>, other: Seq<Seq<char>>, e: (bool, usize)) -> Seq<
    char,
> {
    if e.0 {
        other[e.1 as int]
    } else {
        base[e.1 as int]
    }
}

/// The items after merging the first `n` items of `other` into `base`:
/// each merged item drops the earlier items of the same name and comes
/// last, so the profile merged in takes precedence.
pub open spec fn merge_plan(base: Seq<Seq<char>>, other: Seq<Seq<char>>, n: nat) -> Seq<(bool, usize)>
    decreases n,
{
    if n == 0 {
        Seq::new(base.len(), |i: int| (false, i as usize))
    } else {
        let name = other[n - 1];
        merge_plan(base, other, (n - 1) as nat).filter(
            |e: (bool, usize)| entry_name(base, other, e) != name,
        ).push((true, (n - 1) as usize))
    }
}

/// The texts of the names.
pub open spec fn name_texts(names: Seq<String>) -> Seq<Seq<char>> {
    names.map_values(|s: String| s@)
}

/// Where each item of a merged profile comes from, given the names of the
/// base profile's items and of the items merged into it (see
/// `merge_plan`): items of the merged profile replace base items of the
/// same name, and come after the base items that stay, in their order.
pub fn merge_by_name(base: &Vec<String>, other: &Vec<String>) -> (r: Vec<(bool, usize)>)
    ensures
        r@ == merge_plan(name_texts(base@), name_texts(other@), other@.len()),
{
    let ghost b = name_texts(base@);
    let ghost o = name_texts(other@);
    let mut plan: Vec<(bool, usize)> = Vec::new();
    let mut i: usize = 0;
    while i < base.len()
        invariant
            i <= base@.len(),
            plan@ == Seq::new(i as nat, |k: int| (false, k as usize)),
        decreases base.len() - i,
    {
        plan.push((false, i));
        assert(plan@ =~= Seq::new((i + 1) as nat, |k: int| (false, k as usize)));
        i = i + 1;
    }
    assert(plan@ =~= merge_plan(b, o, 0));
    let mut j: usize = 0;
    while j < other.len()
        invariant
            j <= other@.len(),
            b == name_texts(base@),
            o == name_texts(other@),
            plan@ == merge_plan(b, o, j as nat),
            forall|k: int|
                0 <= k < plan@.len() ==> (if (#[trigger] plan@[k]).0 {
                    plan@[k].1 < j
                } else {
                    plan@[k].1 < base@.len()
                }),
        decreases other.len() - j,
    {
        let name = other[j].as_str();
        let ghost pred = |e: (bool, usize)| entry_name(b, o, e) != o[j as int];
        let mut kept: Vec<(bool, usize)> = Vec::new();
        let mut k: usize = 0;
        while k < plan.len()
            invariant
                k <= plan@.len(),
                j < other@.len(),
                b == name_texts(base@),
                o == name_texts(other@),
                name@ == o[j as int],
                pred == (|e: (bool, usize)| entry_name(b, o, e) != o[j as int]),
                kept@ == plan@.take(k as int).filter(pred),
                forall|m: int|
                    0 <= m < plan@.len() ==> (if (#[trigger] plan@[m]).0 {
                        plan@[m].1 < j
                    } else {
                        plan@[m].1 < base@.len()
                    }),
            decreases plan.len() - k,
        {
            let e = plan[k];
            let same = if e.0 {
                crate::text::str_equals(other[e.1].as_str(), name)
            } else {
                crate::text::str_equals(base[e.1].as_str(), name)
            };
            assert(same == !pred(e));
            assert(plan@.take(k + 1).drop_last() =~= plan@.take(k as int));
            assert(plan@.take(k + 1).last() == e);
            proof {
                reveal(Seq::filter);
            }
            if !same {
                kept.push(e);
            }
            k = k + 1;
        }
        assert(plan@.take(plan@.len() as int) =~= plan@);
        kept.push((true, j));
        proof {
            assert(merge_plan(b, o, (j + 1) as nat) == merge_plan(b, o, j as nat).filter(pred).push(
                (true, j),
            ));
            let f = plan@.filter(pred);
            assert forall|m: int| 0 <= m < f.len() implies f.contains(#[trigger] f[m]) by {}
            assert forall|m: int| 0 <= m < kept@.len() implies (if (#[trigger] kept@[m]).0 {
                kept@[m].1 < j + 1
            } else {
                kept@[m].1 < base@.len()
            }) by {
                if m < f.len() {
                    plan@.lemma_filter_contains_rev(pred, f[m]);
                    assert(f.contains(f[m]));
                    let w = choose|w: int| 0 <= w < plan@.len() && plan@[w] == f[m];
                    assert(plan@[w] == kept@[m]);
                }
            }
        }
        plan = kept;
        j = j + 1;
    }
    plan
}

} // verus!
