//! The hook-notification protocol.
//!
//! Each connection on the notification endpoint delivers one text line,
//! matched against three patterns in this order: `layout changed...`
//! asks for a refresh, `session created $<id>` asks for a new attached
//! reader, `remove pane %<id>` (the `%` optional) asks for a pane's
//! removal.  Any other line is ignored, as the hook mechanism may emit
//! event kinds this engine does not care about; so is an identifier
//! whose value does not fit the identifier type.

use vstd::prelude::*;

use crate::text::digit_run_end;
use crate::text::digits_val;
use crate::text::match_at;
use crate::text::matches_at;
use crate::text::read_digits;
use crate::text::scan_ws;
use crate::text::ws_run_end;

verus! {

/// The instruction one notification line carries.
#[derive(Debug, Clone, Copy, PartialEq, Eq, Structural)]
pub enum Notification {
    /// The layout changed: rebuild the topology model.
    Refresh,
    /// A session was created: ensure a reader is attached to it.
    AttachTo(u32),
    /// A pane went away: drop it from the model.
    RemovePane(u32),
    /// An event kind this engine does not track.
    Ignore,
}

/// The line announces a layout change: optional whitespace, `layout`,
/// whitespace, `changed`, then anything.
pub open spec fn is_layout_changed(s: Seq<char>) -> bool {
    let w0 = ws_run_end(s, 0);
    matches_at(s, w0, "layout"@) && {
        let a = w0 + "layout"@.len() as int;
        let w1 = ws_run_end(s, a);
        w1 != a && matches_at(s, w1, "changed"@)
    }
}

/// The session a creation announcement names: optional whitespace,
/// `session`, whitespace, `created`, whitespace, `$<digits>`, then only
/// whitespace.
pub open spec fn session_created_parse(s: Seq<char>) -> Option<u32> {
    let w0 = ws_run_end(s, 0);
    if !matches_at(s, w0, "session"@) {
        None
    } else {
        let a = w0 + "session"@.len() as int;
        let w1 = ws_run_end(s, a);
        if w1 == a || !matches_at(s, w1, "created"@) {
            None
        } else {
            let b = w1 + "created"@.len() as int;
            let w2 = ws_run_end(s, b);
            if w2 == b || w2 >= s.len() || s[w2] != '$' {
                None
            } else {
                let d = digit_run_end(s, w2 + 1);
                if d == w2 + 1 || ws_run_end(s, d) != s.len() {
                    None
                } else {
                    let v = digits_val(s.subrange(w2 + 1, d));
                    if v <= u32::MAX {
                        Some(v as u32)
                    } else {
                        None
                    }
                }
            }
        }
    }
}

/// The pane a removal announcement names: optional whitespace, `remove`,
/// whitespace, `pane`, whitespace, an optional `%`, digits, then
/// anything.
pub open spec fn remove_pane_parse(s: Seq<char>) -> Option<u32> {
    let w0 = ws_run_end(s, 0);
    if !matches_at(s, w0, "remove"@) {
        None
    } else {
        let a = w0 + "remove"@.len() as int;
        let w1 = ws_run_end(s, a);
        if w1 == a || !matches_at(s, w1, "pane"@) {
            None
        } else {
            let b = w1 + "pane"@.len() as int;
            let w2 = ws_run_end(s, b);
            if w2 == b {
                None
            } else {
                let c = if w2 < s.len() && s[w2] == '%' {
                    w2 + 1
                } else {
                    w2
                };
                let d = digit_run_end(s, c);
                if d == c {
                    None
                } else {
                    let v = digits_val(s.subrange(c, d));
                    if v <= u32::MAX {
                        Some(v as u32)
                    } else {
                        None
                    }
                }
            }
        }
    }
}

/// The instruction a notification line carries, the three patterns tried
/// in priority order.
pub open spec fn notification_spec(s: Seq<char>) -> Notification {
    if is_layout_changed(s) {
        Notification::Refresh
    } else {
        match session_created_parse(s) {
            Some(id) => Notification::AttachTo(id),
            None => match remove_pane_parse(s) {
                Some(id) => Notification::RemovePane(id),
                None => Notification::Ignore,
            },
        }
    }
}

fn layout_changed(s: &str) -> (b: bool)
    ensures
        b == is_layout_changed(s@),
{
    let len = s.unicode_len();
    let w0 = scan_ws(s, 0);
    if !match_at(s, w0, "layout") {
        return false;
    }
    let a = w0 + "layout".unicode_len();
    let w1 = scan_ws(s, a);
    w1 != a && match_at(s, w1, "changed")
}

fn session_created(s: &str) -> (r: Option<u32>)
    ensures
        r == session_created_parse(s@),
{
    let len = s.unicode_len();
    let w0 = scan_ws(s, 0);
    if !match_at(s, w0, "session") {
        return None;
    }
    let a = w0 + "session".unicode_len();
    let w1 = scan_ws(s, a);
    if w1 == a || !match_at(s, w1, "created") {
        return None;
    }
    let b = w1 + "created".unicode_len();
    let w2 = scan_ws(s, b);
    if w2 == b || w2 >= len {
        return None;
    }
    if s.get_char(w2) != '$' {
        return None;
    }
    let (d, v) = read_digits(s, w2 + 1);
    if d == w2 + 1 || scan_ws(s, d) != len {
        return None;
    }
    v
}

fn remove_pane_note(s: &str) -> (r: Option<u32>)
    ensures
        r == remove_pane_parse(s@),
{
    let len = s.unicode_len();
    let w0 = scan_ws(s, 0);
    if !match_at(s, w0, "remove") {
        return None;
    }
    let a = w0 + "remove".unicode_len();
    let w1 = scan_ws(s, a);
    if w1 == a || !match_at(s, w1, "pane") {
        return None;
    }
    let b = w1 + "pane".unicode_len();
    let w2 = scan_ws(s, b);
    if w2 == b {
        return None;
    }
    let c = if w2 < len && s.get_char(w2) == '%' {
        w2 + 1
    } else {
        w2
    };
    let (d, v) = read_digits(s, c);
    if d == c {
        return None;
    }
    v
}

/// Parses one line from the notification endpoint.
pub fn parse_notification(s: &str) -> (r: Notification)
    ensures
        r == notification_spec(s@),
{
    if layout_changed(s) {
        return Notification::Refresh;
    }
    match session_created(s) {
        Some(id) => {
            return Notification::AttachTo(id);
        }
        None => {
        }
    }
    match remove_pane_note(s) {
        Some(id) => {
            return Notification::RemovePane(id);
        }
        None => {
        }
    }
    Notification::Ignore
}

} // verus!
