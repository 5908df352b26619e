//! Access log lines in the combined and vhost_combined layouts:
//! `[vhost ]IP ident user [ts] "METHOD path proto" status size ["ref" "ua"]`.
//! The client field must look like an IPv4 or IPv6 address, so that a vhost
//! in front is not taken for it.
use vstd::prelude::*;
use crate::log::event::{EventView, Level, LogEvent};
use crate::log::fields::{law_lookup_after_put, lookup, put, FieldMap, Pairs};
use crate::log::parser::{opt_event_view, LogParser};
use crate::text::{
    char_at_is, char_is, chars_of, decimal, decimal_string, digits_at, find_char, find_char_from,
    has_digits_at, is_digit, is_digit_char, lemma_find_char, lemma_span, push_char, push_str, span, span_of,
    str_to_string, string_of, Class,
};
use crate::time::{chrono_parse_from_str, parse_from_str};

verus! {

/// `s[i..k]` is four groups of one to three digits joined by dots.
pub open spec fn ipv4_form(s: Seq<char>, i: int, k: int) -> bool {
    let p1 = span(s, i, Class::Digit);
    let p2 = span(s, p1 + 1, Class::Digit);
    let p3 = span(s, p2 + 1, Class::Digit);
    let p4 = span(s, p3 + 1, Class::Digit);
    &&& 1 <= p1 - i <= 3
    &&& char_is(s, p1, '.')
    &&& 1 <= p2 - p1 - 1 <= 3
    &&& char_is(s, p2, '.')
    &&& 1 <= p3 - p2 - 1 <= 3
    &&& char_is(s, p3, '.')
    &&& 1 <= p4 - p3 - 1 <= 3
    &&& p4 == k
}

/// `s[i..k]` is a non-empty run of hex digits and colons.
pub open spec fn hex_form(s: Seq<char>, i: int, k: int) -> bool {
    k > i && span(s, i, Class::HexColon) == k
}

/// The parts of a line from the client address at `i` on.
pub struct AccessParts {
    pub ip_end: int,
    pub ts: (int, int),
    pub method: (int, int),
    pub path: (int, int),
    pub status: int,
    pub size: (int, int),
}

pub open spec fn access_from(s: Seq<char>, i: int) -> Option<AccessParts> {
    let k = span(s, i, Class::NonSpace);
    let a = span(s, k, Class::Space);
    let b = span(s, a, Class::NonSpace);
    let c = span(s, b, Class::Space);
    let d = span(s, c, Class::NonSpace);
    let e = span(s, d, Class::Space);
    let f = span(s, e + 1, Class::Not(']'));
    let g = span(s, f + 1, Class::Space);
    let h = span(s, g + 1, Class::Upper);
    let j = span(s, h, Class::Space);
    let p = span(s, j, Class::NonSpace);
    if k > i && (ipv4_form(s, i, k) || hex_form(s, i, k)) && a > k && b > a && c > b && d > c && e
        > d && char_is(s, e, '[') && f > e + 1 && char_is(s, f, ']') && g > f + 1 && char_is(
        s,
        g,
        '"',
    ) && h > g + 1 && j > h && p > j && span(s, p, Class::Space) > p {
        match find_char(s, p + 1, '"') {
            Some(q) => {
                let r = span(s, q + 1, Class::Space);
                let t = span(s, r + 3, Class::Space);
                let u = span(s, t, Class::NonSpace);
                if q >= p + 2 && r > q + 1 && digits_at(s, r, 3) && t > r + 3 && u > t {
                    Some(
                        AccessParts {
                            ip_end: k,
                            ts: (e + 1, f),
                            method: (g + 1, h),
                            path: (j, p),
                            status: r,
                            size: (t, u),
                        },
                    )
                } else {
                    None
                }
            },
            None => None,
        }
    } else {
        None
    }
}

/// The vhost bounds (if the line starts with one) and where the client
/// address starts, with the rest of the parts.
pub open spec fn nginx_access_match(s: Seq<char>) -> Option<(Option<int>, int, AccessParts)> {
    let v = span(s, 0, Class::NonSpace);
    let w = span(s, v, Class::Space);
    if v > 0 && w > v && access_from(s, w) is Some {
        Some((Some(v), w, access_from(s, w)->0))
    } else {
        match access_from(s, 0) {
            Some(m) => Some((None, 0, m)),
            None => None,
        }
    }
}

pub open spec fn digit_value(c: char) -> int {
    c as int - 48
}

/// The number three ASCII digits at `r` spell. (The grammar's `\d` takes
/// any Unicode digit; a status that is not ASCII does not read as a
/// number, and the line is not an access line.)
pub open spec fn status_value(s: Seq<char>, r: int) -> int {
    digit_value(s[r]) * 100 + digit_value(s[r + 1]) * 10 + digit_value(s[r + 2])
}

pub open spec fn status_level(n: int) -> Level {
    if 500 <= n <= 599 {
        Level::Error
    } else if 400 <= n <= 499 {
        Level::Warning
    } else {
        Level::Info
    }
}

/// The fields of an access line, in the order they are stored.
pub open spec fn access_fields(s: Seq<char>, vhost: Option<int>, i: int, m: AccessParts) -> Pairs {
    let st = s.subrange(m.status, m.status + 3);
    let f = put(
        put(
            put(
                put(
                    put(Seq::empty(), "ip"@, s.subrange(i, m.ip_end)),
                    "method"@,
                    s.subrange(m.method.0, m.method.1),
                ),
                "path"@,
                s.subrange(m.path.0, m.path.1),
            ),
            "status"@,
            st,
        ),
        "status_class"@,
        seq![st[0], 'x', 'x'],
    );
    let f2 = match vhost {
        Some(v) => put(f, "vhost"@, s.subrange(0, v)),
        None => f,
    };
    put(f2, "size"@, s.subrange(m.size.0, m.size.1))
}

pub open spec fn nginx_access_event(line_no: u32, offset: u64, len: u32, s: Seq<char>) -> Option<
    EventView,
> {
    match nginx_access_match(s) {
        None => None,
        Some((vhost, i, m)) => if !(is_digit(s[m.status]) && is_digit(s[m.status + 1]) && is_digit(
            s[m.status + 2],
        )) {
            None
        } else {
            let n = status_value(s, m.status);
            Some(
                EventView {
                    line_no,
                    offset,
                    len,
                    timestamp: chrono_parse_from_str(s.subrange(m.ts.0, m.ts.1), "%d/%b/%Y:%H:%M:%S %z"@),
                    level: status_level(n),
                    source: Some("nginx"@),
                    message: s.subrange(m.method.0, m.method.1) + " "@ + s.subrange(m.path.0, m.path.1)
                        + " -> "@ + decimal(n as nat),
                    fields: access_fields(s, vhost, i, m),
                },
            )
        },
    }
}

fn is_ipv4_form(cs: &Vec<char>, i: usize, k: usize) -> (b: bool)
    requires
        i <= k <= cs@.len(),
    ensures
        b == ipv4_form(cs@, i as int, k as int),
{
    let n = cs.len();
    let p1 = span_of(cs, i, Class::Digit);
    if !(p1 - i >= 1 && p1 - i <= 3 && char_at_is(cs, p1, '.')) {
        return false;
    }
    let p2 = span_of(cs, p1 + 1, Class::Digit);
    if !(p2 - p1 - 1 >= 1 && p2 - p1 - 1 <= 3 && char_at_is(cs, p2, '.')) {
        return false;
    }
    let p3 = span_of(cs, p2 + 1, Class::Digit);
    if !(p3 - p2 - 1 >= 1 && p3 - p2 - 1 <= 3 && char_at_is(cs, p3, '.')) {
        return false;
    }
    let p4 = span_of(cs, p3 + 1, Class::Digit);
    p4 - p3 - 1 >= 1 && p4 - p3 - 1 <= 3 && p4 == k
}

/// Executable `access_from`, in `usize` bounds.
fn access_at(cs: &Vec<char>, i: usize) -> (r: Option<(usize, usize, usize, usize, usize, usize, usize, usize, usize, usize)>)
    requires
        i <= cs@.len(),
    ensures
        match r {
            Some((k, t0, t1, m0, m1, p0, p1, st, z0, z1)) => access_from(cs@, i as int) == Some(
                AccessParts {
                    ip_end: k as int,
                    ts: (t0 as int, t1 as int),
                    method: (m0 as int, m1 as int),
                    path: (p0 as int, p1 as int),
                    status: st as int,
                    size: (z0 as int, z1 as int),
                },
            ) && i <= k && t0 <= t1 && m0 <= m1 && p0 <= p1 && z0 <= z1 <= cs@.len() && t1
                <= cs@.len() && m1 <= cs@.len() && p1 <= cs@.len() && st + 3 <= cs@.len() && k
                <= cs@.len(),
            None => access_from(cs@, i as int) is None,
        },
{
    let n = cs.len();
    let k = span_of(cs, i, Class::NonSpace);
    if !(k > i) {
        return None;
    }
    let ipv4 = is_ipv4_form(cs, i, k);
    let hex = span_of(cs, i, Class::HexColon) == k;
    if !(ipv4 || hex) {
        return None;
    }
    let a = span_of(cs, k, Class::Space);
    if !(a > k) {
        return None;
    }
    let b = span_of(cs, a, Class::NonSpace);
    if !(b > a) {
        return None;
    }
    let c = span_of(cs, b, Class::Space);
    if !(c > b) {
        return None;
    }
    let d = span_of(cs, c, Class::NonSpace);
    if !(d > c) {
        return None;
    }
    let e = span_of(cs, d, Class::Space);
    if !(e > d && char_at_is(cs, e, '[')) {
        return None;
    }
    let f = span_of(cs, e + 1, Class::Not(']'));
    if !(f > e + 1 && char_at_is(cs, f, ']')) {
        return None;
    }
    let g = span_of(cs, f + 1, Class::Space);
    if !(g > f + 1 && char_at_is(cs, g, '"')) {
        return None;
    }
    let h = span_of(cs, g + 1, Class::Upper);
    if !(h > g + 1) {
        return None;
    }
    let j = span_of(cs, h, Class::Space);
    if !(j > h) {
        return None;
    }
    let p = span_of(cs, j, Class::NonSpace);
    if !(p > j && span_of(cs, p, Class::Space) > p) {
        return None;
    }
    proof {
        lemma_span(cs@, p as int, Class::Space);
        lemma_find_char(cs@, p + 1, '"');
    }
    let q = match find_char_from(cs, p + 1, '"') {
        Some(q) => q,
        None => return None,
    };
    if !(q >= p + 2) {
        return None;
    }
    let r = span_of(cs, q + 1, Class::Space);
    if !(r > q + 1 && has_digits_at(cs, r, 3)) {
        return None;
    }
    let t = span_of(cs, r + 3, Class::Space);
    if !(t > r + 3) {
        return None;
    }
    let u = span_of(cs, t, Class::NonSpace);
    if !(u > t) {
        return None;
    }
    Some((k, e + 1, f, g + 1, h, j, p, r, t, u))
}

fn digit_of_char(c: char) -> (d: u16)
    requires
        is_digit(c),
    ensures
        d == digit_value(c),
{
    ((c as u32) - 48) as u16
}

/// Reads an access line; `source` names the server the line came from.
pub fn parse_access(line_no: u32, offset: u64, len: u32, line: &str, source: &str) -> (r: Option<
    LogEvent,
>)
    ensures
        opt_event_view(r) == match nginx_access_event(line_no, offset, len, line@) {
            Some(ev) => Some(EventView { source: Some(source@), ..ev }),
            None => None,
        },
        r matches Some(ev) ==> ev.wf(),
{
    let cs = chars_of(line);
    let n = cs.len();
    let v = span_of(&cs, 0, Class::NonSpace);
    let w = span_of(&cs, v, Class::Space);
    let mut vhost: Option<usize> = None;
    let mut found = None;
    if v > 0 && w > v {
        if let Some(m) = access_at(&cs, w) {
            vhost = Some(v);
            found = Some((w, m));
        }
    }
    if found.is_none() {
        match access_at(&cs, 0) {
            Some(m) => {
                found = Some((0, m));
            },
            None => return None,
        }
    }
    let (i, (k, t0, t1, m0, m1, p0, p1, st, z0, z1)) = match found {
        Some(x) => x,
        None => return None,
    };
    let ghost sm = nginx_access_match(cs@);
    assert(sm == Some(
        (
            match vhost {
                Some(x) => Some(x as int),
                None => None,
            },
            i as int,
            AccessParts {
                ip_end: k as int,
                ts: (t0 as int, t1 as int),
                method: (m0 as int, m1 as int),
                path: (p0 as int, p1 as int),
                status: st as int,
                size: (z0 as int, z1 as int),
            },
        ),
    ));
    if !(is_digit_char(cs[st]) && is_digit_char(cs[st + 1]) && is_digit_char(cs[st + 2])) {
        return None;
    }
    let status_n: u16 = digit_of_char(cs[st]) * 100 + digit_of_char(cs[st + 1]) * 10
        + digit_of_char(cs[st + 2]);
    let level = if 500 <= status_n && status_n <= 599 {
        Level::Error
    } else if 400 <= status_n && status_n <= 499 {
        Level::Warning
    } else {
        Level::Info
    };
    let ts = string_of(&cs, t0, t1);
    let timestamp = parse_from_str(ts.as_str(), "%d/%b/%Y:%H:%M:%S %z");
    let method = string_of(&cs, m0, m1);
    let path = string_of(&cs, p0, p1);
    let mut message = string_of(&cs, m0, m1);
    push_str(&mut message, " ");
    push_str(&mut message, path.as_str());
    push_str(&mut message, " -> ");
    let num = decimal_string(status_n as u64);
    push_str(&mut message, num.as_str());
    let status = string_of(&cs, st, st + 3);
    let mut class = String::new();
    push_char(&mut class, cs[st]);
    push_char(&mut class, 'x');
    push_char(&mut class, 'x');
    assert(class@ =~= seq![cs@[st as int], 'x', 'x']);
    assert(status@ == cs@.subrange(st as int, st + 3));
    assert(cs@.subrange(st as int, st + 3)[0] == cs@[st as int]);
    let mut fields = FieldMap::new();
    fields.insert(str_to_string("ip"), string_of(&cs, i, k));
    fields.insert(str_to_string("method"), method);
    fields.insert(str_to_string("path"), path);
    fields.insert(str_to_string("status"), status);
    fields.insert(str_to_string("status_class"), class);
    if let Some(vv) = vhost {
        fields.insert(str_to_string("vhost"), string_of(&cs, 0, vv));
    }
    fields.insert(str_to_string("size"), string_of(&cs, z0, z1));
    let ev = LogEvent {
        line_no,
        offset,
        len,
        timestamp,
        level,
        source: Some(str_to_string(source)),
        message,
        fields,
    };
    assert(ev@.message =~= cs@.subrange(m0 as int, m1 as int) + " "@ + cs@.subrange(
        p0 as int,
        p1 as int,
    ) + " -> "@ + decimal(status_n as nat));
    assert(ev@.fields =~= access_fields(cs@, (sm->0).0, i as int, (sm->0).2));
    Some(ev)
}

pub struct NginxAccessParser;

impl LogParser for NginxAccessParser {
    open spec fn spec_parse(&self, line_no: u32, offset: u64, len: u32, text: Seq<char>) -> Option<
        EventView,
    > {
        nginx_access_event(line_no, offset, len, text)
    }

    fn parse(&self, line_no: u32, offset: u64, len: u32, line: &str) -> (r: Option<LogEvent>) {
        let r = parse_access(line_no, offset, len, line, "nginx");
        proof {
            reveal_strlit("nginx");
        }
        r
    }
}

/// The level of an access line follows its status: the event's `status`
/// field is the three ASCII digits of the line's status code, and a code
/// from 500 to 599 makes an error, one from 400 to 499 a warning, any
/// other code an info event; `status_class` is the code's first digit and
/// `xx`.
pub proof fn law_access_level_follows_status(line_no: u32, offset: u64, len: u32, s: Seq<char>)
    requires
        nginx_access_event(line_no, offset, len, s) is Some,
    ensures
        ({
            let ev = nginx_access_event(line_no, offset, len, s)->0;
            exists|st: Seq<char>|
                {
                    &&& lookup(ev.fields, "status"@) == Some(st)
                    &&& st.len() == 3
                    &&& '0' <= st[0] <= '9' && '0' <= st[1] <= '9' && '0' <= st[2] <= '9'
                    &&& lookup(ev.fields, "status_class"@) == Some(seq![st[0], 'x', 'x'])
                    &&& ({
                        let n = (st[0] as int - 48) * 100 + (st[1] as int - 48) * 10 + (st[2] as int
                            - 48);
                        ev.level == if 500 <= n && n <= 599 {
                            Level::Error
                        } else if 400 <= n && n <= 499 {
                            Level::Warning
                        } else {
                            Level::Info
                        }
                    })
                }
        }),
{
    let (vhost, i, m) = nginx_access_match(s)->0;
    let ev = nginx_access_event(line_no, offset, len, s)->0;
    let st = s.subrange(m.status, m.status + 3);
    reveal_strlit("ip");
    reveal_strlit("method");
    reveal_strlit("path");
    reveal_strlit("status");
    reveal_strlit("status_class");
    reveal_strlit("vhost");
    reveal_strlit("size");
    let f0 = put(Seq::empty(), "ip"@, s.subrange(i, m.ip_end));
    let f1 = put(f0, "method"@, s.subrange(m.method.0, m.method.1));
    let f2 = put(f1, "path"@, s.subrange(m.path.0, m.path.1));
    let f3 = put(f2, "status"@, st);
    let f4 = put(f3, "status_class"@, seq![st[0], 'x', 'x']);
    law_lookup_after_put(f2, "status"@, st, "status"@);
    law_lookup_after_put(f3, "status_class"@, seq![st[0], 'x', 'x'], "status"@);
    law_lookup_after_put(f3, "status_class"@, seq![st[0], 'x', 'x'], "status_class"@);
    assert("status_class"@.len() != "status"@.len());
    assert("vhost"@.len() != "status"@.len());
    assert("size"@.len() != "status"@.len());
    assert("vhost"@.len() != "status_class"@.len());
    assert("size"@.len() != "status_class"@.len());
    let f5 = match vhost {
        Some(v) => put(f4, "vhost"@, s.subrange(0, v)),
        None => f4,
    };
    if let Some(v) = vhost {
        law_lookup_after_put(f4, "vhost"@, s.subrange(0, v), "status"@);
        law_lookup_after_put(f4, "vhost"@, s.subrange(0, v), "status_class"@);
    }
    law_lookup_after_put(f5, "size"@, s.subrange(m.size.0, m.size.1), "status"@);
    law_lookup_after_put(f5, "size"@, s.subrange(m.size.0, m.size.1), "status_class"@);
    assert(ev.fields == access_fields(s, vhost, i, m));
    assert(st[0] == s[m.status] && st[1] == s[m.status + 1] && st[2] == s[m.status + 2]);
    assert(lookup(ev.fields, "status"@) == Some(st));
}

} // verus!
