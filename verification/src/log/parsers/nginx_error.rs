//! nginx error log lines:
//! `YYYY/MM/DD HH:MM:SS [level] pid#tid: message`, with the client address
//! taken from a `client: <addr>` in the message.
use vstd::prelude::*;
use crate::log::event::{level_of_name, EventView, Level, LogEvent};
use crate::log::fields::{put, FieldMap, Pairs};
use crate::log::parser::{opt_event_view, LogParser};
use crate::text::{
    char_at_is, char_is, chars_of, digits_at, has_digits_at, has_lit_at, has_no_newline, lit_at, no_newline,
    span, span_of, str_to_string, string_of, string_of_all, sub_chars, trim, trim_range, Class,
};
use crate::time::{chrono_naive_parse, parse_naive_utc};

verus! {

/// Where the parts of a line start and end: the timestamp ends at `.0`, the
/// level is `[.1, .2)`, the process id `[.3, .4)`, the message starts at `.5`.
pub open spec fn nginx_error_match(s: Seq<char>) -> Option<(int, int, int, int, int, int)> {
    if !(digits_at(s, 0, 4) && char_is(s, 4, '/') && digits_at(s, 5, 2) && char_is(s, 7, '/')
        && digits_at(s, 8, 2)) {
        None
    } else {
        let w = span(s, 10, Class::Space);
        if !(w > 10 && digits_at(s, w, 2) && char_is(s, w + 2, ':') && digits_at(s, w + 3, 2)
            && char_is(s, w + 5, ':') && digits_at(s, w + 6, 2)) {
            None
        } else {
            let te = w + 8;
            let a = span(s, te, Class::Space);
            let b = span(s, a + 1, Class::Word);
            let c = span(s, b + 1, Class::Space);
            let d = span(s, c, Class::Digit);
            let e = span(s, d + 1, Class::Digit);
            let f = span(s, e + 1, Class::Space);
            if a > te && char_is(s, a, '[') && b > a + 1 && char_is(s, b, ']') && c > b + 1 && d
                > c && char_is(s, d, '#') && e > d + 1 && char_is(s, e, ':') && f > e + 1
                && no_newline(s, f, s.len() as int) {
                Some((te, a + 1, b, c, d, f))
            } else {
                None
            }
        }
    }
}

/// `client:` at `i`, optional white space, then an address of hex digits,
/// dots and colons: the address bounds.
pub open spec fn client_at(m: Seq<char>, i: int) -> Option<(int, int)> {
    if lit_at(m, i, "client:"@) {
        let j = span(m, i + 7, Class::Space);
        let k = span(m, j, Class::HexDotColon);
        if k > j {
            Some((j, k))
        } else {
            None
        }
    } else {
        None
    }
}

/// The leftmost client address in `m` at or after `i`.
pub open spec fn client_search(m: Seq<char>, i: int) -> Option<(int, int)>
    decreases m.len() + 1 - i,
{
    if i < 0 || i > m.len() {
        None
    } else {
        match client_at(m, i) {
            Some(r) => Some(r),
            None => client_search(m, i + 1),
        }
    }
}

/// The event a line gives, if it has the nginx error shape.
pub open spec fn nginx_error_event(line_no: u32, offset: u64, len: u32, s: Seq<char>) -> Option<
    EventView,
> {
    match nginx_error_match(s) {
        None => None,
        Some((te, l0, l1, p0, p1, f)) => {
            let msg = trim(s.subrange(f, s.len() as int));
            let base = put(Seq::empty(), "process"@, s.subrange(p0, p1));
            Some(
                EventView {
                    line_no,
                    offset,
                    len,
                    timestamp: chrono_naive_parse(s.subrange(0, te), "%Y/%m/%d %H:%M:%S"@),
                    level: level_of_name(s.subrange(l0, l1)),
                    source: Some("nginx"@),
                    message: msg,
                    fields: match client_search(msg, 0) {
                        Some((i0, i1)) => put(base, "ip"@, msg.subrange(i0, i1)),
                        None => base,
                    },
                },
            )
        },
    }
}

fn match_line(cs: &Vec<char>) -> (r: Option<(usize, usize, usize, usize, usize, usize)>)
    ensures
        match r {
            Some((a, b, c, d, e, f)) => nginx_error_match(cs@) == Some(
                (a as int, b as int, c as int, d as int, e as int, f as int),
            ) && a <= cs@.len() && b <= c <= cs@.len() && d <= e <= cs@.len() && f <= cs@.len(),
            None => nginx_error_match(cs@) is None,
        },
{
    let n = cs.len();
    if !(has_digits_at(cs, 0, 4) && char_at_is(cs, 4, '/') && has_digits_at(cs, 5, 2)
        && char_at_is(cs, 7, '/') && has_digits_at(cs, 8, 2)) {
        return None;
    }
    let w = span_of(cs, 10, Class::Space);
    if !(w > 10 && has_digits_at(cs, w, 2) && char_at_is(cs, w + 2, ':') && has_digits_at(
        cs,
        w + 3,
        2,
    ) && char_at_is(cs, w + 5, ':') && has_digits_at(cs, w + 6, 2)) {
        return None;
    }
    let te = w + 8;
    let a = span_of(cs, te, Class::Space);
    if !(a > te && char_at_is(cs, a, '[')) {
        return None;
    }
    let b = span_of(cs, a + 1, Class::Word);
    if !(b > a + 1 && char_at_is(cs, b, ']')) {
        return None;
    }
    let c = span_of(cs, b + 1, Class::Space);
    if !(c > b + 1) {
        return None;
    }
    let d = span_of(cs, c, Class::Digit);
    if !(d > c && char_at_is(cs, d, '#')) {
        return None;
    }
    let e = span_of(cs, d + 1, Class::Digit);
    if !(e > d + 1 && char_at_is(cs, e, ':')) {
        return None;
    }
    let f = span_of(cs, e + 1, Class::Space);
    if !(f > e + 1 && has_no_newline(cs, f, cs.len())) {
        return None;
    }
    Some((te, a + 1, b, c, d, f))
}

fn client_in(m: &Vec<char>) -> (r: Option<(usize, usize)>)
    ensures
        match r {
            Some((j, k)) => client_search(m@, 0) == Some((j as int, k as int)) && j <= k <= m@.len(),
            None => client_search(m@, 0) is None,
        },
{
    let n = m.len();
    let mut i: usize = 0;
    loop
        invariant
            n == m@.len(),
            i <= m@.len(),
            client_search(m@, 0) == client_search(m@, i as int),
        decreases m@.len() - i,
    {
        proof {
            reveal_strlit("client:");
        }
        if has_lit_at(m, i, "client:") {
            let j = span_of(m, i + 7, Class::Space);
            let k = span_of(m, j, Class::HexDotColon);
            if k > j {
                return Some((j, k));
            }
        }
        if i == n {
            assert(client_search(m@, n + 1) is None);
            return None;
        }
        i = i + 1;
    }
}

pub struct NginxErrorParser;

impl LogParser for NginxErrorParser {
    open spec fn spec_parse(&self, line_no: u32, offset: u64, len: u32, text: Seq<char>) -> Option<
        EventView,
    > {
        nginx_error_event(line_no, offset, len, text)
    }

    fn parse(&self, line_no: u32, offset: u64, len: u32, line: &str) -> (r: Option<LogEvent>) {
        let cs = chars_of(line);
        let (te, l0, l1, p0, p1, f) = match match_line(&cs) {
            Some(m) => m,
            None => return None,
        };
        let ts = string_of(&cs, 0, te);
        let timestamp = parse_naive_utc(ts.as_str(), "%Y/%m/%d %H:%M:%S");
        let level_text = string_of(&cs, l0, l1);
        let level = Level::from_str_ci(level_text.as_str());
        let pid = string_of(&cs, p0, p1);
        let (m0, m1) = trim_range(&cs, f, cs.len());
        let msg_cs = sub_chars(&cs, m0, m1);
        let message = string_of_all(&msg_cs);
        let mut fields = FieldMap::new();
        fields.insert(str_to_string("process"), pid);
        if let Some((i0, i1)) = client_in(&msg_cs) {
            fields.insert(str_to_string("ip"), string_of(&msg_cs, i0, i1));
        }
        let ev = LogEvent {
            line_no,
            offset,
            len,
            timestamp,
            level,
            source: Some(str_to_string("nginx")),
            message,
            fields,
        };
        assert(opt_event_view(Some(ev)) == nginx_error_event(line_no, offset, len, line@));
        Some(ev)
    }
}

} // verus!
