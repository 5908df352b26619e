//! Any text line: an ISO-8601 timestamp at the start is read if present, and
//! the first level word in the message sets the level.
use vstd::prelude::*;
use crate::log::event::{level_of_name, EventView, Level, LogEvent};
use crate::log::fields::FieldMap;
use crate::log::parser::{opt_event_view, LogParser};
use crate::text::{
    boundary, char_at_is, char_is, chars_of, ci_lit_at, digits_at, has_ci_lit_at, has_digits_at,
    has_no_newline, is_boundary, no_newline, span, span_of, string_of, string_of_all, sub_chars,
    trim, trim_range, Class,
};
use crate::time::{chrono_naive_parse, chrono_parse_rfc3339, parse_naive_utc, parse_rfc3339, Timestamp};

verus! {

/// Where a leading `YYYY-MM-DD[T ]HH:MM:SS[.frac][Z|±HH[:]MM]` ends.
pub open spec fn iso_ts_end(s: Seq<char>) -> Option<int> {
    if digits_at(s, 0, 4) && char_is(s, 4, '-') && digits_at(s, 5, 2) && char_is(s, 7, '-')
        && digits_at(s, 8, 2) && (char_is(s, 10, 'T') || char_is(s, 10, ' ')) && digits_at(s, 11, 2)
        && char_is(s, 13, ':') && digits_at(s, 14, 2) && char_is(s, 16, ':') && digits_at(s, 17, 2) {
        let f = span(s, 20, Class::Digit);
        let p = if char_is(s, 19, '.') && f > 20 {
            f
        } else {
            19
        };
        let signed = char_is(s, p, '+') || char_is(s, p, '-');
        Some(
            if char_is(s, p, 'Z') {
                p + 1
            } else if signed && digits_at(s, p + 1, 2) && char_is(s, p + 3, ':') && digits_at(
                s,
                p + 4,
                2,
            ) {
                p + 6
            } else if signed && digits_at(s, p + 1, 2) && digits_at(s, p + 3, 2) {
                p + 5
            } else {
                p
            },
        )
    } else {
        None
    }
}

/// The timestamp's end and where the rest of the line starts.
pub open spec fn iso_match(s: Seq<char>) -> Option<(int, int)> {
    match iso_ts_end(s) {
        Some(q) => {
            let w = span(s, q, Class::Space);
            if w > q && no_newline(s, w, s.len() as int) {
                Some((q, w))
            } else {
                None
            }
        },
        None => None,
    }
}

/// The level word `lit` at `i`, between word boundaries.
pub open spec fn word_alt(m: Seq<char>, i: int, lit: Seq<char>) -> bool {
    ci_lit_at(m, i, lit) && boundary(m, i + lit.len())
}

/// The end of a level word starting at `i`, the longer spelling first.
pub open spec fn level_word_at(m: Seq<char>, i: int) -> Option<int> {
    if !boundary(m, i) {
        None
    } else if word_alt(m, i, "DEBUG"@) {
        Some(i + "DEBUG"@.len())
    } else if word_alt(m, i, "INFO"@) {
        Some(i + "INFO"@.len())
    } else if word_alt(m, i, "NOTICE"@) {
        Some(i + "NOTICE"@.len())
    } else if word_alt(m, i, "WARNING"@) {
        Some(i + "WARNING"@.len())
    } else if word_alt(m, i, "WARN"@) {
        Some(i + "WARN"@.len())
    } else if word_alt(m, i, "ERROR"@) {
        Some(i + "ERROR"@.len())
    } else if word_alt(m, i, "ERR"@) {
        Some(i + "ERR"@.len())
    } else if word_alt(m, i, "CRITICAL"@) {
        Some(i + "CRITICAL"@.len())
    } else if word_alt(m, i, "CRIT"@) {
        Some(i + "CRIT"@.len())
    } else if word_alt(m, i, "FATAL"@) {
        Some(i + "FATAL"@.len())
    } else if word_alt(m, i, "ALERT"@) {
        Some(i + "ALERT"@.len())
    } else if word_alt(m, i, "EMERGENCY"@) {
        Some(i + "EMERGENCY"@.len())
    } else if word_alt(m, i, "EMERG"@) {
        Some(i + "EMERG"@.len())
    } else {
        None
    }
}

/// The leftmost level word in `m` at or after `i`.
pub open spec fn level_search(m: Seq<char>, i: int) -> Option<(int, int)>
    decreases m.len() + 1 - i,
{
    if i < 0 || i > m.len() {
        None
    } else {
        match level_word_at(m, i) {
            Some(e) => Some((i, e)),
            None => level_search(m, i + 1),
        }
    }
}

/// The level a message names, `Unknown` if none.
pub open spec fn message_level(m: Seq<char>) -> Level {
    match level_search(m, 0) {
        Some((a, b)) => level_of_name(m.subrange(a, b)),
        None => Level::Unknown,
    }
}

pub open spec fn parse_any_ts(ts: Seq<char>) -> Option<Timestamp> {
    match chrono_parse_rfc3339(ts) {
        Some(t) => Some(t),
        None => match chrono_naive_parse(ts, "%Y-%m-%d %H:%M:%S%.f"@) {
            Some(t) => Some(t),
            None => match chrono_naive_parse(ts, "%Y-%m-%d %H:%M:%S"@) {
                Some(t) => Some(t),
                None => chrono_naive_parse(ts, "%Y-%m-%dT%H:%M:%S"@),
            },
        },
    }
}

pub open spec fn generic_event(line_no: u32, offset: u64, len: u32, s: Seq<char>) -> Option<
    EventView,
> {
    if trim(s).len() == 0 {
        None
    } else {
        let (timestamp, message) = match iso_match(s) {
            Some((q, w)) => (parse_any_ts(s.subrange(0, q)), s.subrange(w, s.len() as int)),
            None => (None, s),
        };
        Some(
            EventView {
                line_no,
                offset,
                len,
                timestamp,
                level: message_level(message),
                source: None,
                message,
                fields: Seq::empty(),
            },
        )
    }
}

fn ts_end(cs: &Vec<char>) -> (r: Option<usize>)
    ensures
        match r {
            Some(q) => iso_ts_end(cs@) == Some(q as int) && q <= cs@.len(),
            None => iso_ts_end(cs@) is None,
        },
{
    let n = cs.len();
    if !(has_digits_at(cs, 0, 4) && char_at_is(cs, 4, '-') && has_digits_at(cs, 5, 2)
        && char_at_is(cs, 7, '-') && has_digits_at(cs, 8, 2) && (char_at_is(cs, 10, 'T')
        || char_at_is(cs, 10, ' ')) && has_digits_at(cs, 11, 2) && char_at_is(cs, 13, ':')
        && has_digits_at(cs, 14, 2) && char_at_is(cs, 16, ':') && has_digits_at(cs, 17, 2)) {
        return None;
    }
    let mut p: usize = 19;
    if char_at_is(cs, 19, '.') {
        let f = span_of(cs, 20, Class::Digit);
        if f > 20 {
            p = f;
        }
    }
    let signed = char_at_is(cs, p, '+') || char_at_is(cs, p, '-');
    let q = if char_at_is(cs, p, 'Z') {
        p + 1
    } else if signed && has_digits_at(cs, p + 1, 2) && char_at_is(cs, p + 3, ':') && has_digits_at(
        cs,
        p + 4,
        2,
    ) {
        p + 6
    } else if signed && has_digits_at(cs, p + 1, 2) && has_digits_at(cs, p + 3, 2) {
        p + 5
    } else {
        p
    };
    Some(q)
}

fn alt_end(m: &Vec<char>, i: usize, lit: &str) -> (r: Option<usize>)
    ensures
        match r {
            Some(e) => word_alt(m@, i as int, lit@) && e == i + lit@.len(),
            None => !word_alt(m@, i as int, lit@),
        },
{
    let n = m.len();
    if has_ci_lit_at(m, i, lit) {
        let l = chars_of(lit);
        let e = i + l.len();
        if is_boundary(m, e) {
            return Some(e);
        }
    }
    None
}

fn level_word(m: &Vec<char>, i: usize) -> (r: Option<usize>)
    ensures
        match r {
            Some(e) => level_word_at(m@, i as int) == Some(e as int) && i <= e <= m@.len(),
            None => level_word_at(m@, i as int) is None,
        },
{
    if !is_boundary(m, i) {
        return None;
    }
    if let Some(e) = alt_end(m, i, "DEBUG") {
        return Some(e);
    }
    if let Some(e) = alt_end(m, i, "INFO") {
        return Some(e);
    }
    if let Some(e) = alt_end(m, i, "NOTICE") {
        return Some(e);
    }
    if let Some(e) = alt_end(m, i, "WARNING") {
        return Some(e);
    }
    if let Some(e) = alt_end(m, i, "WARN") {
        return Some(e);
    }
    if let Some(e) = alt_end(m, i, "ERROR") {
        return Some(e);
    }
    if let Some(e) = alt_end(m, i, "ERR") {
        return Some(e);
    }
    if let Some(e) = alt_end(m, i, "CRITICAL") {
        return Some(e);
    }
    if let Some(e) = alt_end(m, i, "CRIT") {
        return Some(e);
    }
    if let Some(e) = alt_end(m, i, "FATAL") {
        return Some(e);
    }
    if let Some(e) = alt_end(m, i, "ALERT") {
        return Some(e);
    }
    if let Some(e) = alt_end(m, i, "EMERGENCY") {
        return Some(e);
    }
    if let Some(e) = alt_end(m, i, "EMERG") {
        return Some(e);
    }
    None
}

/// The level a message names (leftmost level word), `Unknown` if none.
pub fn level_in(m: &Vec<char>) -> (l: Level)
    ensures
        l == message_level(m@),
{
    let n = m.len();
    let mut i: usize = 0;
    loop
        invariant
            n == m@.len(),
            i <= n,
            level_search(m@, 0) == level_search(m@, i as int),
        decreases n - i,
    {
        if let Some(e) = level_word(m, i) {
            let w = string_of(m, i, e);
            return Level::from_str_ci(w.as_str());
        }
        if i == n {
            assert(level_search(m@, n + 1) is None);
            return Level::Unknown;
        }
        i = i + 1;
    }
}

fn parse_any(ts: &str) -> (r: Option<Timestamp>)
    ensures
        r == parse_any_ts(ts@),
        r matches Some(t) ==> t.wf(),
{
    if let Some(t) = parse_rfc3339(ts) {
        return Some(t);
    }
    if let Some(t) = parse_naive_utc(ts, "%Y-%m-%d %H:%M:%S%.f") {
        return Some(t);
    }
    if let Some(t) = parse_naive_utc(ts, "%Y-%m-%d %H:%M:%S") {
        return Some(t);
    }
    parse_naive_utc(ts, "%Y-%m-%dT%H:%M:%S")
}

pub struct GenericParser;

impl LogParser for GenericParser {
    open spec fn spec_parse(&self, line_no: u32, offset: u64, len: u32, text: Seq<char>) -> Option<
        EventView,
    > {
        generic_event(line_no, offset, len, text)
    }

    fn parse(&self, line_no: u32, offset: u64, len: u32, line: &str) -> (r: Option<LogEvent>) {
        let cs = chars_of(line);
        let n = cs.len();
        let (a, b) = trim_range(&cs, 0, n);
        assert(cs@.subrange(0, n as int) == cs@);
        if a == b {
            return None;
        }
        let mut timestamp: Option<Timestamp> = None;
        let mut msg_cs = sub_chars(&cs, 0, n);
        if let Some(q) = ts_end(&cs) {
            let w = span_of(&cs, q, Class::Space);
            if w > q && has_no_newline(&cs, w, n) {
                let ts = string_of(&cs, 0, q);
                timestamp = parse_any(ts.as_str());
                msg_cs = sub_chars(&cs, w, n);
            }
        }
        let level = level_in(&msg_cs);
        let ev = LogEvent {
            line_no,
            offset,
            len,
            timestamp,
            level,
            source: None,
            message: string_of_all(&msg_cs),
            fields: FieldMap::new(),
        };
        assert(opt_event_view(Some(ev)) == generic_event(line_no, offset, len, line@));
        Some(ev)
    }
}

} // verus!
