//! Apache error log lines:
//! `[ts] [module:level] [pid N(:tid M)] ([client addr:port]) message`.
use vstd::prelude::*;
use crate::log::event::{level_of_name, EventView, Level, LogEvent};
use crate::log::fields::{put, FieldMap};
use crate::log::parser::{opt_event_view, LogParser};
use crate::text::{
    char_at_is, char_is, chars_of, find_char, find_char_from, has_lit_at, has_no_newline,
    lemma_find_char, lit_at, no_newline, span, span_of, str_to_string, string_of, string_of_all,
    sub_chars, trim, trim_range, Class,
};
use crate::time::{chrono_naive_parse, parse_naive_utc, Timestamp};

verus! {

/// Bounds in the head of a line: timestamp `[1, .0)`, module `[.1, .2)`,
/// level `[.2 + 1, .3)`, process id `[.4, .5)`, and `.6` just after the
/// closing bracket of the process part.
pub open spec fn apache_error_head(s: Seq<char>) -> Option<(int, int, int, int, int, int, int)> {
    let t = span(s, 1, Class::Not(']'));
    let a = span(s, t + 1, Class::Space);
    let m = span(s, a + 1, Class::WordDash);
    let l = span(s, m + 1, Class::Word);
    let b = span(s, l + 1, Class::Space);
    let c = span(s, b + 4, Class::Space);
    let d = span(s, c, Class::Digit);
    if char_is(s, 0, '[') && t > 1 && char_is(s, t, ']') && a > t + 1 && char_is(s, a, '[') && m
        > a + 1 && char_is(s, m, ':') && l > m + 1 && char_is(s, l, ']') && b > l + 1 && lit_at(
        s,
        b,
        "[pid"@,
    ) && c > b + 4 && d > c {
        if char_is(s, d, ']') {
            Some((t, a + 1, m, l, c, d, d + 1))
        } else if lit_at(s, d, ":tid"@) {
            let f = span(s, d + 4, Class::Space);
            let g = span(s, f, Class::Digit);
            if f > d + 4 && g > f && char_is(s, g, ']') {
                Some((t, a + 1, m, l, c, d, g + 1))
            } else {
                None
            }
        } else {
            None
        }
    } else {
        None
    }
}

/// The `[client ...]` part at `e`, with the message after it: the client
/// text `[.0, .1)` and where the message starts. Among the ways to split the
/// white space after `client`, the longest run that still leaves a non-empty
/// client text is taken.
pub open spec fn apache_client(s: Seq<char>, e: int) -> Option<(int, int, int)> {
    let w = span(s, e, Class::Space);
    let x0 = w + 7;
    let r = span(s, x0, Class::Space);
    if w > e && lit_at(s, w, "[client"@) && r > x0 {
        match find_char(s, x0, ']') {
            Some(y) => {
                let z = span(s, y + 1, Class::Space);
                if (y > r || r - x0 >= 2) && z > y + 1 && no_newline(s, z, s.len() as int) {
                    Some((if y > r { r } else { r - 1 }, y, z))
                } else {
                    None
                }
            },
            None => None,
        }
    } else {
        None
    }
}

/// Where the message starts, and the client text if there is one.
pub open spec fn apache_tail(s: Seq<char>, e: int) -> Option<(int, Option<(int, int)>)> {
    match apache_client(s, e) {
        Some((c0, c1, z)) => Some((z, Some((c0, c1)))),
        None => {
            let w = span(s, e, Class::Space);
            if w > e && no_newline(s, w, s.len() as int) {
                Some((w, None))
            } else {
                None
            }
        },
    }
}

/// The address part of `host:port`.
pub open spec fn host_part(c: Seq<char>) -> Seq<char> {
    match find_char(c, 0, ':') {
        Some(k) => c.subrange(0, k),
        None => c,
    }
}

pub open spec fn apache_ts(ts: Seq<char>) -> Option<Timestamp> {
    match chrono_naive_parse(ts, "%a %b %d %H:%M:%S%.f %Y"@) {
        Some(t) => Some(t),
        None => chrono_naive_parse(ts, "%a %b %d %H:%M:%S %Y"@),
    }
}

pub open spec fn apache_error_event(line_no: u32, offset: u64, len: u32, s: Seq<char>) -> Option<
    EventView,
> {
    match apache_error_head(s) {
        None => None,
        Some((t, m0, m, l, p0, p1, e)) => match apache_tail(s, e) {
            None => None,
            Some((z, client)) => {
                let base = put(
                    put(Seq::empty(), "module"@, s.subrange(m0, m)),
                    "process"@,
                    s.subrange(p0, p1),
                );
                Some(
                    EventView {
                        line_no,
                        offset,
                        len,
                        timestamp: apache_ts(s.subrange(1, t)),
                        level: level_of_name(s.subrange(m + 1, l)),
                        source: Some("apache"@),
                        message: trim(s.subrange(z, s.len() as int)),
                        fields: match client {
                            Some((c0, c1)) => put(base, "ip"@, host_part(s.subrange(c0, c1))),
                            None => base,
                        },
                    },
                )
            },
        },
    }
}

fn match_head(cs: &Vec<char>) -> (r: Option<(usize, usize, usize, usize, usize, usize, usize)>)
    ensures
        match r {
            Some((t, m0, m, l, p0, p1, e)) => apache_error_head(cs@) == Some(
                (t as int, m0 as int, m as int, l as int, p0 as int, p1 as int, e as int),
            ) && 1 <= t && m0 <= m < l <= cs@.len() && p0 <= p1 <= cs@.len() && e <= cs@.len() && t
                <= cs@.len(),
            None => apache_error_head(cs@) is None,
        },
{
    let n = cs.len();
    proof {
        reveal_strlit("[pid");
        reveal_strlit(":tid");
    }
    if !char_at_is(cs, 0, '[') {
        return None;
    }
    let t = span_of(cs, 1, Class::Not(']'));
    if !(t > 1 && char_at_is(cs, t, ']')) {
        return None;
    }
    let a = span_of(cs, t + 1, Class::Space);
    if !(a > t + 1 && char_at_is(cs, a, '[')) {
        return None;
    }
    let m = span_of(cs, a + 1, Class::WordDash);
    if !(m > a + 1 && char_at_is(cs, m, ':')) {
        return None;
    }
    let l = span_of(cs, m + 1, Class::Word);
    if !(l > m + 1 && char_at_is(cs, l, ']')) {
        return None;
    }
    let b = span_of(cs, l + 1, Class::Space);
    if !(b > l + 1 && has_lit_at(cs, b, "[pid")) {
        return None;
    }
    let c = span_of(cs, b + 4, Class::Space);
    if !(c > b + 4) {
        return None;
    }
    let d = span_of(cs, c, Class::Digit);
    if !(d > c) {
        return None;
    }
    if char_at_is(cs, d, ']') {
        return Some((t, a + 1, m, l, c, d, d + 1));
    }
    if !has_lit_at(cs, d, ":tid") {
        return None;
    }
    let f = span_of(cs, d + 4, Class::Space);
    let g = span_of(cs, f, Class::Digit);
    if f > d + 4 && g > f && char_at_is(cs, g, ']') {
        Some((t, a + 1, m, l, c, d, g + 1))
    } else {
        None
    }
}

fn match_tail(cs: &Vec<char>, e: usize) -> (r: Option<(usize, Option<(usize, usize)>)>)
    requires
        e <= cs@.len(),
    ensures
        match r {
            Some((z, Some((c0, c1)))) => apache_tail(cs@, e as int) == Some(
                (z as int, Some((c0 as int, c1 as int))),
            ) && z <= cs@.len() && c0 <= c1 <= cs@.len(),
            Some((z, None)) => apache_tail(cs@, e as int) == Some((z as int, None::<(int, int)>))
                && z <= cs@.len(),
            None => apache_tail(cs@, e as int) is None,
        },
{
    let n = cs.len();
    proof {
        reveal_strlit("[client");
    }
    let w = span_of(cs, e, Class::Space);
    if w > e && has_lit_at(cs, w, "[client") {
        let x0 = w + 7;
        let r = span_of(cs, x0, Class::Space);
        if r > x0 {
            proof {
                lemma_find_char(cs@, x0 as int, ']');
                crate::text::lemma_span(cs@, x0 as int, Class::Space);
            }
            if let Some(y) = find_char_from(cs, x0, ']') {
                let z = span_of(cs, y + 1, Class::Space);
                if (y > r || r - x0 >= 2) && z > y + 1 && has_no_newline(cs, z, n) {
                    let c0 = if y > r {
                        r
                    } else {
                        r - 1
                    };
                    return Some((z, Some((c0, y))));
                }
            }
        }
    }
    if w > e && has_no_newline(cs, w, n) {
        Some((w, None))
    } else {
        None
    }
}

pub struct ApacheErrorParser;

impl LogParser for ApacheErrorParser {
    open spec fn spec_parse(&self, line_no: u32, offset: u64, len: u32, text: Seq<char>) -> Option<
        EventView,
    > {
        apache_error_event(line_no, offset, len, text)
    }

    fn parse(&self, line_no: u32, offset: u64, len: u32, line: &str) -> (r: Option<LogEvent>) {
        let cs = chars_of(line);
        let (t, m0, m, l, p0, p1, e) = match match_head(&cs) {
            Some(h) => h,
            None => return None,
        };
        let (z, client) = match match_tail(&cs, e) {
            Some(x) => x,
            None => return None,
        };
        let ts = string_of(&cs, 1, t);
        let timestamp = match parse_naive_utc(ts.as_str(), "%a %b %d %H:%M:%S%.f %Y") {
            Some(x) => Some(x),
            None => parse_naive_utc(ts.as_str(), "%a %b %d %H:%M:%S %Y"),
        };
        let level_text = string_of(&cs, m + 1, l);
        let level = Level::from_str_ci(level_text.as_str());
        let (a, b) = trim_range(&cs, z, cs.len());
        let message = string_of(&cs, a, b);
        let mut fields = FieldMap::new();
        fields.insert(str_to_string("module"), string_of(&cs, m0, m));
        fields.insert(str_to_string("process"), string_of(&cs, p0, p1));
        if let Some((c0, c1)) = client {
            let cl = sub_chars(&cs, c0, c1);
            proof {
                lemma_find_char(cl@, 0, ':');
            }
            let host = match find_char_from(&cl, 0, ':') {
                Some(k) => string_of(&cl, 0, k),
                None => string_of_all(&cl),
            };
            fields.insert(str_to_string("ip"), host);
        }
        let ev = LogEvent {
            line_no,
            offset,
            len,
            timestamp,
            level,
            source: Some(str_to_string("apache")),
            message,
            fields,
        };
        assert(opt_event_view(Some(ev)) == apache_error_event(line_no, offset, len, line@));
        Some(ev)
    }
}

} // verus!
