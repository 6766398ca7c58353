//! The `-D` diagnostics channels.
//!
//! Each character of the `-D` argument names a diagnostic channel. Some
//! channels switch on an output of the search, some are accepted for
//! compatibility and do nothing, and the rest are reported as unsupported.

use vstd::prelude::*;
use crate::text::str_to_chars;

verus! {

/// Diagnostic output options parsed from the `-D` flag.
#[derive(Debug, Clone)]
pub struct DiagnosticOptions {
    /// Show work details (channels `s`, `N`).
    pub show_work: bool,
    /// Show statistics (channels `y`, `M`).
    pub show_stats: bool,
    /// Show match checks (channel `o`).
    pub show_match_checks: bool,
    /// Show pruned arithmetic (channels `A`, `a`).
    pub show_pruned_arith: bool,
    /// Show pruned range (channels `B`, `b`).
    pub show_pruned_range: bool,
    /// Show database adds (channels `G`, `g`).
    pub show_db_adds: bool,
    /// Show Newton-Raphson iterations (channel `n`).
    pub show_newton: bool,
    /// Requested channels that are not recognized, in the order given.
    pub unsupported_channels: Vec<char>,
}

impl Default for DiagnosticOptions {
    fn default() -> (r: Self)
        ensures
            !r.show_work && !r.show_stats && !r.show_match_checks && !r.show_pruned_arith
                && !r.show_pruned_range && !r.show_db_adds && !r.show_newton,
            r.unsupported_channels@ == Seq::<char>::empty(),
    {
        DiagnosticOptions {
            show_work: false,
            show_stats: false,
            show_match_checks: false,
            show_pruned_arith: false,
            show_pruned_range: false,
            show_db_adds: false,
            show_newton: false,
            unsupported_channels: Vec::new(),
        }
    }
}

/// Channels accepted for compatibility that have no effect.
pub open spec fn is_noop_channel(c: char) -> bool {
    c == 'C' || c == 'c' || c == 'D' || c == 'd' || c == 'E' || c == 'e' || c == 'F' || c == 'f'
        || c == 'H' || c == 'h' || c == 'I' || c == 'i' || c == 'J' || c == 'j' || c == 'K' || c
        == 'k' || c == 'L' || c == 'l' || c == 'P' || c == 'p' || c == 'Q' || c == 'q' || c == 'R'
        || c == 'r' || c == 'T' || c == 't' || c == 'U' || c == 'u' || c == 'V' || c == 'v' || c
        == 'W' || c == 'w' || c == 'X' || c == 'x' || c == 'Z' || c == 'z'
}

/// Channels that switch on an output.
pub open spec fn is_active_channel(c: char) -> bool {
    c == 's' || c == 'N' || c == 'y' || c == 'M' || c == 'o' || c == 'A' || c == 'a' || c == 'B'
        || c == 'b' || c == 'G' || c == 'g' || c == 'n'
}

/// Channels that are recognized, active or not.
pub open spec fn is_known_channel(c: char) -> bool {
    is_active_channel(c) || is_noop_channel(c)
}

/// Whether `d` is present and holds one of the characters `a` or `b`.
pub open spec fn requests(d: Option<Seq<char>>, a: char, b: char) -> bool {
    d matches Some(s) && (s.contains(a) || s.contains(b))
}

/// The unrecognized channels of `d`, in order.
pub open spec fn unknown_channels(d: Option<Seq<char>>) -> Seq<char> {
    match d {
        Some(s) => s.filter(|c: char| !is_known_channel(c)),
        None => Seq::empty(),
    }
}

fn is_noop_char(c: char) -> (r: bool)
    ensures
        r == is_noop_channel(c),
{
    c == 'C' || c == 'c' || c == 'D' || c == 'd' || c == 'E' || c == 'e' || c == 'F' || c == 'f'
        || c == 'H' || c == 'h' || c == 'I' || c == 'i' || c == 'J' || c == 'j' || c == 'K' || c
        == 'k' || c == 'L' || c == 'l' || c == 'P' || c == 'p' || c == 'Q' || c == 'q' || c == 'R'
        || c == 'r' || c == 'T' || c == 't' || c == 'U' || c == 'u' || c == 'V' || c == 'v' || c
        == 'W' || c == 'w' || c == 'X' || c == 'x' || c == 'Z' || c == 'z'
}

/// Parse diagnostic options from the `-D` flag argument; `--show-work`
/// and `--stats` switch on their outputs too.
pub fn parse_diagnostics(
    diagnostics: Option<&str>,
    show_work_flag: bool,
    show_stats_flag: bool,
) -> (opts: DiagnosticOptions)
    ensures
        ({
            let d = match diagnostics {
                Some(s) => Some(s@),
                None => None::<Seq<char>>,
            };
            &&& opts.show_work == (show_work_flag || requests(d, 's', 'N'))
            &&& opts.show_stats == (show_stats_flag || requests(d, 'y', 'M'))
            &&& opts.show_match_checks == requests(d, 'o', 'o')
            &&& opts.show_pruned_arith == requests(d, 'A', 'a')
            &&& opts.show_pruned_range == requests(d, 'B', 'b')
            &&& opts.show_db_adds == requests(d, 'G', 'g')
            &&& opts.show_newton == requests(d, 'n', 'n')
            &&& opts.unsupported_channels@ == unknown_channels(d)
        }),
{
    let mut opts = DiagnosticOptions {
        show_work: show_work_flag,
        show_stats: show_stats_flag,
        show_match_checks: false,
        show_pruned_arith: false,
        show_pruned_range: false,
        show_db_adds: false,
        show_newton: false,
        unsupported_channels: Vec::new(),
    };
    match diagnostics {
        None => {},
        Some(spec) => {
            let chars = str_to_chars(spec);
            let ghost s = spec@;
            let mut i: usize = 0;
            while i < chars.len()
                invariant
                    i <= chars@.len(),
                    chars@ == s,
                    opts.show_work == (show_work_flag || s.take(i as int).contains('s') || s.take(
                        i as int,
                    ).contains('N')),
                    opts.show_stats == (show_stats_flag || s.take(i as int).contains('y') || s.take(
                        i as int,
                    ).contains('M')),
                    opts.show_match_checks == s.take(i as int).contains('o'),
                    opts.show_pruned_arith == (s.take(i as int).contains('A') || s.take(
                        i as int,
                    ).contains('a')),
                    opts.show_pruned_range == (s.take(i as int).contains('B') || s.take(
                        i as int,
                    ).contains('b')),
                    opts.show_db_adds == (s.take(i as int).contains('G') || s.take(
                        i as int,
                    ).contains('g')),
                    opts.show_newton == s.take(i as int).contains('n'),
                    opts.unsupported_channels@ == s.take(i as int).filter(
                        |c: char| !is_known_channel(c),
                    ),
                decreases chars.len() - i,
            {
                let ch = chars[i];
                let ghost p = s.take(i as int);
                assert(s.take(i + 1) =~= p.push(ch));
                proof {
                    lemma_contains_push(p, ch);
                    reveal_with_fuel(Seq::filter, 1);
                    assert(p.push(ch).drop_last() =~= p);
                }
                if ch == 's' || ch == 'N' {
                    opts.show_work = true;
                } else if ch == 'y' || ch == 'M' {
                    opts.show_stats = true;
                } else if ch == 'o' {
                    opts.show_match_checks = true;
                } else if ch == 'A' || ch == 'a' {
                    opts.show_pruned_arith = true;
                } else if ch == 'B' || ch == 'b' {
                    opts.show_pruned_range = true;
                } else if ch == 'G' || ch == 'g' {
                    opts.show_db_adds = true;
                } else if ch == 'n' {
                    opts.show_newton = true;
                } else if is_noop_char(ch) {
                } else {
                    opts.unsupported_channels.push(ch);
                }
                i = i + 1;
            }
            assert(s.take(s.len() as int) =~= s);
        },
    }
    opts
}

/// A sequence with one more element holds what it held and that element.
proof fn lemma_contains_push(p: Seq<char>, c: char)
    ensures
        forall|d: char| #[trigger] p.push(c).contains(d) <==> (p.contains(d) || d == c),
{
    assert forall|d: char| #[trigger] p.push(c).contains(d) <==> (p.contains(d) || d == c) by {
        if p.contains(d) {
            let k = choose|k: int| 0 <= k < p.len() && p[k] == d;
            assert(p.push(c)[k] == d);
        }
        if d == c {
            assert(p.push(c)[p.len() as int] == d);
        }
        if p.push(c).contains(d) {
            let k = choose|k: int| 0 <= k < p.len() + 1 && p.push(c)[k] == d;
            if k < p.len() {
                assert(p[k] == d);
            }
        }
    }
}

} // verus!
