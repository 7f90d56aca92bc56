//! The topology listing grammar.
//!
//! The multiplexer's topology query prints one token per line, shaped
//! `$<session>@<window>%<pane>` with optional trailing whitespace.  A line
//! of any other shape is not an entry: the scan skips it.  An identifier
//! whose value does not fit the identifier type matches no entry either.

use vstd::prelude::*;

use crate::text::digit_run_end;
use crate::text::digits_val;
use crate::text::read_digits;
use crate::text::scan_ws;
use crate::text::ws_run_end;

verus! {

/// One topology entry: session, window and pane identifier.
pub type TopoEntry = (u32, u32, u32);

/// The entry a single listing line denotes, if it is well formed:
/// `'$'` digits `'@'` digits `'%'` digits, then only whitespace.
pub open spec fn topo_parse(s: Seq<char>) -> Option<TopoEntry> {
    if s.len() == 0 || s[0] != '$' {
        None
    } else {
        let e1 = digit_run_end(s, 1);
        if e1 == 1 || e1 >= s.len() || s[e1] != '@' {
            None
        } else {
            let e2 = digit_run_end(s, e1 + 1);
            if e2 == e1 + 1 || e2 >= s.len() || s[e2] != '%' {
                None
            } else {
                let e3 = digit_run_end(s, e2 + 1);
                if e3 == e2 + 1 || ws_run_end(s, e3) != s.len() {
                    None
                } else {
                    let sv = digits_val(s.subrange(1, e1));
                    let wv = digits_val(s.subrange(e1 + 1, e2));
                    let pv = digits_val(s.subrange(e2 + 1, e3));
                    if sv <= u32::MAX && wv <= u32::MAX && pv <= u32::MAX {
                        Some((sv as u32, wv as u32, pv as u32))
                    } else {
                        None
                    }
                }
            }
        }
    }
}

/// Parses one listing line.
pub fn parse_topology_line(s: &str) -> (r: Option<TopoEntry>)
    ensures
        r == topo_parse(s@),
{
    let len = s.unicode_len();
    if len == 0 {
        return None;
    }
    if s.get_char(0) != '$' {
        return None;
    }
    let (e1, v1) = read_digits(s, 1);
    if e1 == 1 || e1 >= len {
        return None;
    }
    if s.get_char(e1) != '@' {
        return None;
    }
    let (e2, v2) = read_digits(s, e1 + 1);
    if e2 == e1 + 1 || e2 >= len {
        return None;
    }
    if s.get_char(e2) != '%' {
        return None;
    }
    let (e3, v3) = read_digits(s, e2 + 1);
    if e3 == e2 + 1 {
        return None;
    }
    if scan_ws(s, e3) != len {
        return None;
    }
    match (v1, v2, v3) {
        (Some(sv), Some(wv), Some(pv)) => Some((sv, wv, pv)),
        _ => None,
    }
}

/// The first newline of `s` at or after `i`, or the length of `s`.
pub open spec fn line_break(s: Seq<char>, i: int) -> int
    decreases s.len() - i,
{
    if 0 <= i < s.len() {
        if s[i] == '\n' {
            i
        } else {
            line_break(s, i + 1)
        }
    } else {
        i
    }
}

pub proof fn lemma_line_break(s: Seq<char>, i: int)
    requires
        0 <= i <= s.len(),
    ensures
        i <= line_break(s, i) <= s.len(),
        line_break(s, i) < s.len() ==> s[line_break(s, i)] == '\n',
        forall|k: int| i <= k < line_break(s, i) ==> s[k] != '\n',
    decreases s.len() - i,
{
    if i < s.len() && s[i] != '\n' {
        lemma_line_break(s, i + 1);
    }
}

/// Pins the break that a forward scan found.
pub proof fn lemma_line_break_at(s: Seq<char>, i: int, m: int)
    requires
        0 <= i <= m <= s.len(),
        forall|k: int| i <= k < m ==> s[k] != '\n',
        m < s.len() ==> s[m] == '\n',
    ensures
        line_break(s, i) == m,
    decreases m - i,
{
    if i < m {
        lemma_line_break_at(s, i + 1, m);
    }
}

/// `s` cut at each newline, as `str::split` cuts: `n` newlines give
/// `n + 1` pieces, empty pieces kept.
pub open spec fn split_lines(s: Seq<char>) -> Seq<Seq<char>>
    decreases s.len(),
    via split_lines_decreases
{
    let e = line_break(s, 0);
    if e == s.len() {
        seq![s]
    } else {
        seq![s.subrange(0, e)] + split_lines(s.subrange(e + 1, s.len() as int))
    }
}

#[via_fn]
proof fn split_lines_decreases(s: Seq<char>) {
    lemma_line_break(s, 0);
}

/// The well-formed entries of a sequence of lines, in order.
pub open spec fn parse_entries(lines: Seq<Seq<char>>) -> Seq<TopoEntry>
    decreases lines.len(),
{
    if lines.len() == 0 {
        Seq::empty()
    } else {
        (match topo_parse(lines[0]) {
            Some(e) => seq![e],
            None => Seq::empty(),
        }) + parse_entries(lines.drop_first())
    }
}

/// The entries of a whole topology listing.
pub open spec fn scan_entries(s: Seq<char>) -> Seq<TopoEntry> {
    parse_entries(split_lines(s))
}

/// Parses a topology listing: every line of the shape the grammar gives
/// becomes one entry, in listing order; every other line is skipped.
pub fn scan_topology(s: &str) -> (r: Vec<TopoEntry>)
    ensures
        r@ == scan_entries(s@),
{
    let len = s.unicode_len();
    let mut out: Vec<TopoEntry> = Vec::new();
    let mut start: usize = 0;
    let mut j: usize = 0;
    proof {
        assert(s@.subrange(0, len as int) =~= s@);
        assert(out@ + parse_entries(split_lines(s@)) =~= parse_entries(split_lines(s@)));
    }
    while j < len
        invariant
            start <= j <= len,
            len == s@.len(),
            forall|k: int| start <= k < j ==> s@[k] != '\n',
            scan_entries(s@) == out@ + parse_entries(split_lines(s@.subrange(start as int, len as int))),
        decreases len - j,
    {
        if s.get_char(j) == '\n' {
            let line = s.substring_char(start, j);
            proof {
                let sub = s@.subrange(start as int, len as int);
                let m = j - start;
                assert forall|k: int| 0 <= k < m implies sub[k] != '\n' by {
                    assert(sub[k] == s@[start + k]);
                }
                assert(sub[m as int] == '\n');
                lemma_line_break_at(sub, 0, m as int);
                assert(sub.subrange(0, m as int) =~= line@);
                assert(sub.subrange(m + 1, sub.len() as int) =~= s@.subrange(j + 1, len as int));
                assert(split_lines(sub) == seq![line@] + split_lines(s@.subrange(j + 1, len as int)));
                let tail = split_lines(s@.subrange(j + 1, len as int));
                assert((seq![line@] + tail)[0] == line@);
                assert((seq![line@] + tail).drop_first() =~= tail);
            }
            let ghost pre = out@;
            let ghost tail = split_lines(s@.subrange(j + 1, len as int));
            match parse_topology_line(line) {
                Some(e) => {
                    out.push(e);
                }
                None => {
                }
            }
            proof {
                assert(scan_entries(s@) =~= out@ + parse_entries(tail)) by {
                    assert(parse_entries(seq![line@] + tail) =~= (match topo_parse(line@) {
                        Some(e) => seq![e],
                        None => Seq::<TopoEntry>::empty(),
                    }) + parse_entries(tail));
                    assert(scan_entries(s@) =~= pre + parse_entries(seq![line@] + tail));
                }
            }
            start = j + 1;
        }
        j = j + 1;
    }
    let line = s.substring_char(start, len);
    proof {
        let sub = s@.subrange(start as int, len as int);
        assert forall|k: int| 0 <= k < sub.len() implies sub[k] != '\n' by {
            assert(sub[k] == s@[start + k]);
        }
        lemma_line_break_at(sub, 0, sub.len() as int);
        assert(sub =~= line@);
        assert(split_lines(sub) == seq![line@]);
        assert(seq![line@].drop_first() =~= Seq::<Seq<char>>::empty());
    }
    let ghost pre = out@;
    match parse_topology_line(line) {
        Some(e) => {
            out.push(e);
        }
        None => {
        }
    }
    proof {
        assert(parse_entries(Seq::<Seq<char>>::empty()) == Seq::<TopoEntry>::empty());
        assert(seq![line@][0] == line@);
        assert(parse_entries(seq![line@]) =~= (match topo_parse(line@) {
            Some(e) => seq![e],
            None => Seq::<TopoEntry>::empty(),
        }));
        assert(scan_entries(s@) =~= out@);
    }
    out
}

} // verus!
