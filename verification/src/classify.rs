//! Line classification.
//!
//! A prompt pattern recognizes a remote-login prompt echoed into a pane:
//! `%output` whitespace `%<pane>` whitespace `<user>@<name>:~$` and
//! nothing but whitespace after, where `<name>` is the pattern's own
//! name.  Group one of every pattern is the pane identifier.  Patterns
//! are tried in declaration order and the first match wins; a pattern
//! flagged as parameterized titles the pane `<user>@<name>`, any other
//! titles it with its name alone.

use vstd::prelude::*;

use crate::text::digit_run_end;
use crate::text::digits_val;
use crate::text::match_at;
use crate::text::matches_at;
use crate::text::read_digits;
use crate::text::scan_word;
use crate::text::scan_ws;
use crate::text::word_run_end;
use crate::text::ws_run_end;

verus! {

/// One named prompt pattern.
pub struct Prompt {
    /// The host name the pattern recognizes, and the pattern's name.
    pub name: String,
    /// Whether the synthesized title carries the captured user name.
    pub parameterized: bool,
}

/// The mathematical image of a [`Prompt`].
pub ghost struct PromptV {
    pub name: Seq<char>,
    pub parameterized: bool,
}

impl View for Prompt {
    type V = PromptV;

    open spec fn view(&self) -> PromptV {
        PromptV { name: self.name@, parameterized: self.parameterized }
    }
}

impl DeepView for Prompt {
    type V = PromptV;

    open spec fn deep_view(&self) -> PromptV {
        self@
    }
}

/// The pane identifier and user name a prompt line denotes for the
/// pattern named `name`, if the line has the prompt shape.
pub open spec fn prompt_parse(s: Seq<char>, name: Seq<char>) -> Option<(u32, Seq<char>)> {
    let o = "%output"@.len() as int;
    if !matches_at(s, 0, "%output"@) {
        None
    } else {
        let w1 = ws_run_end(s, o);
        if w1 == o || w1 >= s.len() || s[w1] != '%' {
            None
        } else {
            let d1 = digit_run_end(s, w1 + 1);
            if d1 == w1 + 1 {
                None
            } else {
                let w2 = ws_run_end(s, d1);
                if w2 == d1 {
                    None
                } else {
                    let u = word_run_end(s, w2);
                    if u == w2 || u >= s.len() || s[u] != '@' {
                        None
                    } else if !matches_at(s, u + 1, name) {
                        None
                    } else {
                        let tail = u + 1 + name.len() as int;
                        if !matches_at(s, tail, ":~$"@) {
                            None
                        } else if ws_run_end(s, tail + ":~$"@.len() as int) != s.len() {
                            None
                        } else {
                            let pv = digits_val(s.subrange(w1 + 1, d1));
                            if pv <= u32::MAX {
                                Some((pv as u32, s.subrange(w2, u)))
                            } else {
                                None
                            }
                        }
                    }
                }
            }
        }
    }
}

/// Relates an executable match result to its specification image.
pub open spec fn prompt_result_matches(r: Option<(u32, String)>, sp: Option<(u32, Seq<char>)>) -> bool {
    match (r, sp) {
        (Some(a), Some(b)) => a.0 == b.0 && a.1@ == b.1,
        (None, None) => true,
        _ => false,
    }
}

/// Matches one prompt line against the pattern named `name`, yielding
/// the pane identifier and the captured user name.
pub fn match_prompt(s: &str, name: &str) -> (r: Option<(u32, String)>)
    ensures
        prompt_result_matches(r, prompt_parse(s@, name@)),
{
    let o = "%output".unicode_len();
    if !match_at(s, 0, "%output") {
        return None;
    }
    let w1 = scan_ws(s, o);
    let len = s.unicode_len();
    if w1 == o || w1 >= len {
        return None;
    }
    if s.get_char(w1) != '%' {
        return None;
    }
    let (d1, pv) = read_digits(s, w1 + 1);
    if d1 == w1 + 1 {
        return None;
    }
    let w2 = scan_ws(s, d1);
    if w2 == d1 {
        return None;
    }
    let u = scan_word(s, w2);
    if u == w2 || u >= len {
        return None;
    }
    if s.get_char(u) != '@' {
        return None;
    }
    if !match_at(s, u + 1, name) {
        return None;
    }
    let nlen = name.unicode_len();
    let tail = u + 1 + nlen;
    if !match_at(s, tail, ":~$") {
        return None;
    }
    let tlen = ":~$".unicode_len();
    if scan_ws(s, tail + tlen) != len {
        return None;
    }
    match pv {
        Some(p) => {
            let user = s.substring_char(w2, u);
            Some((p, String::from_str(user)))
        }
        None => None,
    }
}

/// The title a matched pattern synthesizes.
pub open spec fn title_for(p: PromptV, user: Seq<char>) -> Seq<char> {
    if p.parameterized {
        user + "@"@ + p.name
    } else {
        p.name
    }
}

/// The pane identifier and title the first matching pattern gives a
/// line, with patterns tried in declaration order.
pub open spec fn classify_spec(prompts: Seq<PromptV>, line: Seq<char>) -> Option<(u32, Seq<char>)>
    decreases prompts.len(),
{
    if prompts.len() == 0 {
        None
    } else {
        match prompt_parse(line, prompts[0].name) {
            Some(m) => Some((m.0, title_for(prompts[0], m.1))),
            None => classify_spec(prompts.drop_first(), line),
        }
    }
}

/// Classifies an output line: the first pattern that matches names the
/// pane and its new title; a line no pattern matches classifies as
/// nothing.
pub fn classify(prompts: &Vec<Prompt>, line: &str) -> (r: Option<(u32, String)>)
    ensures
        prompt_result_matches(r, classify_spec(prompts.deep_view(), line@)),
{
    let ghost dv = prompts.deep_view();
    let n = prompts.len();
    let mut i: usize = 0;
    proof {
        assert(dv.subrange(0, n as int) =~= dv);
    }
    while i < n
        invariant
            0 <= i <= n,
            n == prompts@.len(),
            dv == prompts.deep_view(),
            dv.len() == n,
            classify_spec(dv, line@) == classify_spec(dv.subrange(i as int, n as int), line@),
        decreases n - i,
    {
        let p = &prompts[i];
        proof {
            assert(dv[i as int] == prompts@[i as int].deep_view());
            assert(dv.subrange(i as int, n as int)[0] == dv[i as int]);
            assert(dv.subrange(i as int, n as int).drop_first() =~= dv.subrange(
                i + 1,
                n as int,
            ));
        }
        match match_prompt(line, p.name.as_str()) {
            Some(m) => {
                let title = if p.parameterized {
                    m.1.concat("@").concat(p.name.as_str())
                } else {
                    p.name.clone()
                };
                return Some((m.0, title));
            }
            None => {
            }
        }
        i = i + 1;
    }
    proof {
        assert(dv.subrange(n as int, n as int) =~= Seq::<PromptV>::empty());
    }
    None
}

} // verus!
