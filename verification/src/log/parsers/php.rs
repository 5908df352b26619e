//! PHP error log lines:
//! `[ts] PHP <Kind>:  message[ in FILE on line N]`.
//!
//! The message is the shortest text after the kind that leaves either an
//! ` in FILE on line N` tail (FILE again the shortest that works) or nothing
//! but white space; the white space before the message and before FILE is
//! split longest first.
use vstd::prelude::*;
use crate::log::event::{EventView, Level, LogEvent};
use crate::log::fields::{law_lookup_after_put, lookup, put, FieldMap, Pairs};
use crate::log::parser::{opt_event_view, LogParser};
use crate::text::{
    blank_from, char_at_is, char_is, chars_of, has_lit_at, is_blank_from, lit_at, rfind_char,
    rfind_char_before, span, span_of, str_to_string, string_of, sub_chars, trim, trim_range, Class,
};
use crate::time::{chrono_naive_parse, parse_naive_utc, Timestamp};

verus! {

/// The error kinds, in the order they are tried.
pub open spec fn kind_at(s: Seq<char>, b: int) -> Option<int> {
    if lit_at(s, b, "Fatal error"@) && char_is(s, b + "Fatal error"@.len(), ':') {
        Some(b + "Fatal error"@.len())
    } else if lit_at(s, b, "Parse error"@) && char_is(s, b + "Parse error"@.len(), ':') {
        Some(b + "Parse error"@.len())
    } else if lit_at(s, b, "Warning"@) && char_is(s, b + "Warning"@.len(), ':') {
        Some(b + "Warning"@.len())
    } else if lit_at(s, b, "Notice"@) && char_is(s, b + "Notice"@.len(), ':') {
        Some(b + "Notice"@.len())
    } else if lit_at(s, b, "Deprecated"@) && char_is(s, b + "Deprecated"@.len(), ':') {
        Some(b + "Deprecated"@.len())
    } else if lit_at(s, b, "Strict Standards"@) && char_is(s, b + "Strict Standards"@.len(), ':') {
        Some(b + "Strict Standards"@.len())
    } else if lit_at(s, b, "Error"@) && char_is(s, b + "Error"@.len(), ':') {
        Some(b + "Error"@.len())
    } else {
        None
    }
}

/// Timestamp end `.0`, kind `[.1, .2)`; the colon after the kind is at `.2`.
pub open spec fn php_head(s: Seq<char>) -> Option<(int, int, int)> {
    let t = span(s, 1, Class::Not(']'));
    let a = span(s, t + 1, Class::Space);
    let b = span(s, a + 3, Class::Space);
    if char_is(s, 0, '[') && t > 1 && char_is(s, t, ']') && a > t + 1 && lit_at(s, a, "PHP"@) && b
        > a + 3 {
        match kind_at(s, b) {
            Some(k) => Some((t, b, k)),
            None => None,
        }
    } else {
        None
    }
}

/// `\s+on\s+line\s+(\d+)\s*$` at `i`: the line number bounds.
pub open spec fn on_line_at(s: Seq<char>, i: int) -> Option<(int, int)> {
    let h1 = span(s, i, Class::Space);
    let h2 = span(s, h1 + 2, Class::Space);
    let h3 = span(s, h2 + 4, Class::Space);
    let h4 = span(s, h3, Class::Digit);
    if h1 > i && lit_at(s, h1, "on"@) && h2 > h1 + 2 && lit_at(s, h2, "line"@) && h3 > h2 + 4 && h4
        > h3 && blank_from(s, h4) {
        Some((h3, h4))
    } else {
        None
    }
}

/// The shortest file name from `fs` (its end tried from `fe` on) that is
/// followed by the line number part; a file name holds no line feed.
pub open spec fn file_from(s: Seq<char>, fs: int, fe: int) -> Option<(int, (int, int))>
    decreases s.len() + 1 - fe,
{
    if fe < fs + 1 || fe > s.len() {
        None
    } else if s[fe - 1] == '\n' {
        None
    } else {
        match on_line_at(s, fe) {
            Some(x) => Some((fe, x)),
            None => file_from(s, fs, fe + 1),
        }
    }
}

/// The file name starting at `x` or earlier (down to `base + 1`), latest
/// start first: file bounds and line number bounds.
pub open spec fn in_try(s: Seq<char>, base: int, x: int) -> Option<(int, int, (int, int))>
    decreases x - base,
{
    if x <= base {
        None
    } else {
        match file_from(s, x, x + 1) {
            Some((fe, ln)) => Some((x, fe, ln)),
            None => in_try(s, base, x - 1),
        }
    }
}

/// The ` in FILE on line N` group at `e`.
pub open spec fn in_group_at(s: Seq<char>, e: int) -> Option<(int, int, (int, int))> {
    let g1 = span(s, e, Class::Space);
    let base = g1 + 2;
    let r2 = span(s, base, Class::Space);
    if g1 > e && lit_at(s, g1, "in"@) && r2 > base {
        in_try(s, base, r2)
    } else {
        None
    }
}

/// What may follow the message at `e`: the file group, or white space only.
pub open spec fn php_tail(s: Seq<char>, e: int) -> Option<Option<(int, int, (int, int))>> {
    match in_group_at(s, e) {
        Some(g) => Some(Some(g)),
        None => if blank_from(s, e) {
            Some(None)
        } else {
            None
        },
    }
}

/// The shortest message from `ms` (its end tried from `me` on); a message
/// holds no line feed.
pub open spec fn msg_from(s: Seq<char>, ms: int, me: int) -> Option<(int, Option<(int, int, (int, int))>)>
    decreases s.len() + 1 - me,
{
    if me < ms + 1 || me > s.len() {
        None
    } else if s[me - 1] == '\n' {
        None
    } else {
        match php_tail(s, me) {
            Some(t) => Some((me, t)),
            None => msg_from(s, ms, me + 1),
        }
    }
}

/// The message starting at `x` or earlier (down to `base + 1`), latest start
/// first: message start, end and the tail.
pub open spec fn msg_try(s: Seq<char>, base: int, x: int) -> Option<(int, int, Option<(int, int, (int, int))>)>
    decreases x - base,
{
    if x <= base {
        None
    } else {
        match msg_from(s, x, x + 1) {
            Some((me, t)) => Some((x, me, t)),
            None => msg_try(s, base, x - 1),
        }
    }
}

pub open spec fn php_match(s: Seq<char>) -> Option<(int, int, int, (int, int, Option<(int, int, (int, int))>))> {
    match php_head(s) {
        Some((t, b, k)) => {
            let r = span(s, k + 1, Class::Space);
            if r > k + 1 {
                match msg_try(s, k + 1, r) {
                    Some(m) => Some((t, b, k, m)),
                    None => None,
                }
            } else {
                None
            }
        },
        None => None,
    }
}

pub open spec fn kind_level(kind: Seq<char>) -> Level {
    if kind == "Fatal error"@ || kind == "Parse error"@ || kind == "Error"@ {
        Level::Critical
    } else if kind == "Warning"@ {
        Level::Warning
    } else if kind == "Notice"@ || kind == "Deprecated"@ || kind == "Strict Standards"@ {
        Level::Notice
    } else {
        Level::Unknown
    }
}

/// PHP timestamps end with a zone name, which is dropped (everything after
/// the last space); failing that the whole text is tried.
pub open spec fn php_ts(ts: Seq<char>) -> Option<Timestamp> {
    let stripped = trim(ts);
    let base = match rfind_char(stripped, stripped.len() as int, ' ') {
        Some(i) => stripped.subrange(0, i),
        None => stripped,
    };
    match chrono_naive_parse(base, "%d-%b-%Y %H:%M:%S"@) {
        Some(t) => Some(t),
        None => chrono_naive_parse(stripped, "%d-%b-%Y %H:%M:%S"@),
    }
}

pub open spec fn php_event(line_no: u32, offset: u64, len: u32, s: Seq<char>) -> Option<EventView> {
    match php_match(s) {
        None => None,
        Some((t, b, k, (ms, me, tail))) => {
            let kind = s.subrange(b, k);
            let base = put(Seq::empty(), "type"@, kind);
            Some(
                EventView {
                    line_no,
                    offset,
                    len,
                    timestamp: php_ts(s.subrange(1, t)),
                    level: kind_level(kind),
                    source: Some("php"@),
                    message: trim(s.subrange(ms, me)),
                    fields: match tail {
                        Some((f0, f1, (l0, l1))) => put(
                            put(base, "file"@, s.subrange(f0, f1)),
                            "line"@,
                            s.subrange(l0, l1),
                        ),
                        None => base,
                    },
                },
            )
        },
    }
}

fn kind_end_of(cs: &Vec<char>, b: usize, lit: &str) -> (r: Option<usize>)
    ensures
        match r {
            Some(k) => lit_at(cs@, b as int, lit@) && char_is(cs@, b + lit@.len(), ':') && k == b
                + lit@.len(),
            None => !(lit_at(cs@, b as int, lit@) && char_is(cs@, b + lit@.len(), ':')),
        },
{
    let n = cs.len();
    if has_lit_at(cs, b, lit) {
        let l = chars_of(lit);
        let k = b + l.len();
        if char_at_is(cs, k, ':') {
            return Some(k);
        }
    }
    None
}

fn kind_of(cs: &Vec<char>, b: usize) -> (r: Option<usize>)
    ensures
        match r {
            Some(k) => kind_at(cs@, b as int) == Some(k as int) && b <= k < cs@.len(),
            None => kind_at(cs@, b as int) is None,
        },
{
    if let Some(k) = kind_end_of(cs, b, "Fatal error") {
        return Some(k);
    }
    if let Some(k) = kind_end_of(cs, b, "Parse error") {
        return Some(k);
    }
    if let Some(k) = kind_end_of(cs, b, "Warning") {
        return Some(k);
    }
    if let Some(k) = kind_end_of(cs, b, "Notice") {
        return Some(k);
    }
    if let Some(k) = kind_end_of(cs, b, "Deprecated") {
        return Some(k);
    }
    if let Some(k) = kind_end_of(cs, b, "Strict Standards") {
        return Some(k);
    }
    if let Some(k) = kind_end_of(cs, b, "Error") {
        return Some(k);
    }
    None
}

fn head_of(cs: &Vec<char>) -> (r: Option<(usize, usize, usize)>)
    ensures
        match r {
            Some((t, b, k)) => php_head(cs@) == Some((t as int, b as int, k as int)) && 1 < t < b
                <= k < cs@.len(),
            None => php_head(cs@) is None,
        },
{
    let n = cs.len();
    proof {
        reveal_strlit("PHP");
    }
    if !char_at_is(cs, 0, '[') {
        return None;
    }
    let t = span_of(cs, 1, Class::Not(']'));
    if !(t > 1 && char_at_is(cs, t, ']')) {
        return None;
    }
    let a = span_of(cs, t + 1, Class::Space);
    if !(a > t + 1 && has_lit_at(cs, a, "PHP")) {
        return None;
    }
    let b = span_of(cs, a + 3, Class::Space);
    if !(b > a + 3) {
        return None;
    }
    match kind_of(cs, b) {
        Some(k) => Some((t, b, k)),
        None => None,
    }
}

fn on_line(cs: &Vec<char>, i: usize) -> (r: Option<(usize, usize)>)
    requires
        i <= cs@.len(),
    ensures
        match r {
            Some((a, b)) => on_line_at(cs@, i as int) == Some((a as int, b as int)) && a <= b
                <= cs@.len(),
            None => on_line_at(cs@, i as int) is None,
        },
{
    let n = cs.len();
    proof {
        reveal_strlit("on");
        reveal_strlit("line");
    }
    let h1 = span_of(cs, i, Class::Space);
    if !(h1 > i && has_lit_at(cs, h1, "on")) {
        return None;
    }
    let h2 = span_of(cs, h1 + 2, Class::Space);
    if !(h2 > h1 + 2 && has_lit_at(cs, h2, "line")) {
        return None;
    }
    let h3 = span_of(cs, h2 + 4, Class::Space);
    if !(h3 > h2 + 4) {
        return None;
    }
    let h4 = span_of(cs, h3, Class::Digit);
    if h4 > h3 && is_blank_from(cs, h4) {
        Some((h3, h4))
    } else {
        None
    }
}

fn file_search(cs: &Vec<char>, fs: usize) -> (r: Option<(usize, (usize, usize))>)
    requires
        fs < cs@.len(),
    ensures
        match r {
            Some((fe, (a, b))) => file_from(cs@, fs as int, fs + 1) == Some(
                (fe as int, (a as int, b as int)),
            ) && fs < fe <= cs@.len() && a <= b <= cs@.len(),
            None => file_from(cs@, fs as int, fs + 1) is None,
        },
{
    let n = cs.len();
    let mut fe = fs + 1;
    loop
        invariant
            n == cs@.len(),
            fs + 1 <= fe <= n,
            file_from(cs@, fs as int, fs + 1) == file_from(cs@, fs as int, fe as int),
        decreases n - fe,
    {
        if cs[fe - 1] == '\n' {
            return None;
        }
        if let Some(x) = on_line(cs, fe) {
            return Some((fe, x));
        }
        if fe == n {
            assert(file_from(cs@, fs as int, n + 1) is None);
            return None;
        }
        fe = fe + 1;
    }
}

fn in_group(cs: &Vec<char>, e: usize) -> (r: Option<(usize, usize, (usize, usize))>)
    requires
        e <= cs@.len(),
    ensures
        match r {
            Some((f0, f1, (a, b))) => in_group_at(cs@, e as int) == Some(
                (f0 as int, f1 as int, (a as int, b as int)),
            ) && f0 <= f1 <= cs@.len() && a <= b <= cs@.len(),
            None => in_group_at(cs@, e as int) is None,
        },
{
    let n = cs.len();
    proof {
        reveal_strlit("in");
    }
    let g1 = span_of(cs, e, Class::Space);
    if !(g1 > e && has_lit_at(cs, g1, "in")) {
        return None;
    }
    let base = g1 + 2;
    let r2 = span_of(cs, base, Class::Space);
    if !(r2 > base) {
        return None;
    }
    let mut x = r2;
    while x > base
        invariant
            n == cs@.len(),
            base <= x <= r2 <= n,
            in_try(cs@, base as int, r2 as int) == in_try(cs@, base as int, x as int),
            in_group_at(cs@, e as int) == in_try(cs@, base as int, r2 as int),
        decreases x - base,
    {
        if x < n {
            if let Some((fe, ln)) = file_search(cs, x) {
                return Some((x, fe, ln));
            }
        } else {
            assert(file_from(cs@, x as int, x + 1) is None);
        }
        x = x - 1;
    }
    None
}

fn tail_at(cs: &Vec<char>, e: usize) -> (r: Option<Option<(usize, usize, (usize, usize))>>)
    requires
        e <= cs@.len(),
    ensures
        match r {
            Some(Some((f0, f1, (a, b)))) => php_tail(cs@, e as int) == Some(
                Some((f0 as int, f1 as int, (a as int, b as int))),
            ) && f0 <= f1 <= cs@.len() && a <= b <= cs@.len(),
            Some(None) => php_tail(cs@, e as int) == Some(None::<(int, int, (int, int))>),
            None => php_tail(cs@, e as int) is None,
        },
{
    match in_group(cs, e) {
        Some(g) => Some(Some(g)),
        None => if is_blank_from(cs, e) {
            Some(None)
        } else {
            None
        },
    }
}

fn msg_search(cs: &Vec<char>, ms: usize) -> (r: Option<(usize, Option<(usize, usize, (usize, usize))>)>)
    requires
        ms < cs@.len(),
    ensures
        match r {
            Some((me, Some((f0, f1, (a, b))))) => msg_from(cs@, ms as int, ms + 1) == Some(
                (me as int, Some((f0 as int, f1 as int, (a as int, b as int)))),
            ) && ms < me <= cs@.len() && f0 <= f1 <= cs@.len() && a <= b <= cs@.len(),
            Some((me, None)) => msg_from(cs@, ms as int, ms + 1) == Some(
                (me as int, None::<(int, int, (int, int))>),
            ) && ms < me <= cs@.len(),
            None => msg_from(cs@, ms as int, ms + 1) is None,
        },
{
    let n = cs.len();
    let mut me = ms + 1;
    loop
        invariant
            n == cs@.len(),
            ms + 1 <= me <= n,
            msg_from(cs@, ms as int, ms + 1) == msg_from(cs@, ms as int, me as int),
        decreases n - me,
    {
        if cs[me - 1] == '\n' {
            return None;
        }
        if let Some(t) = tail_at(cs, me) {
            return Some((me, t));
        }
        if me == n {
            assert(msg_from(cs@, ms as int, n + 1) is None);
            return None;
        }
        me = me + 1;
    }
}

fn msg_try_at(cs: &Vec<char>, base: usize, r: usize) -> (res: Option<(usize, usize, Option<(usize, usize, (usize, usize))>)>)
    requires
        base <= r <= cs@.len(),
    ensures
        match res {
            Some((ms, me, Some((f0, f1, (a, b))))) => msg_try(cs@, base as int, r as int) == Some(
                (ms as int, me as int, Some((f0 as int, f1 as int, (a as int, b as int)))),
            ) && ms < me <= cs@.len() && f0 <= f1 <= cs@.len() && a <= b <= cs@.len(),
            Some((ms, me, None)) => msg_try(cs@, base as int, r as int) == Some(
                (ms as int, me as int, None::<(int, int, (int, int))>),
            ) && ms < me <= cs@.len(),
            None => msg_try(cs@, base as int, r as int) is None,
        },
{
    let n = cs.len();
    let mut x = r;
    while x > base
        invariant
            n == cs@.len(),
            base <= x <= r <= n,
            msg_try(cs@, base as int, r as int) == msg_try(cs@, base as int, x as int),
        decreases x - base,
    {
        if x < n {
            if let Some((me, tail)) = msg_search(cs, x) {
                return Some((x, me, tail));
            }
        } else {
            assert(msg_from(cs@, x as int, x + 1) is None);
        }
        x = x - 1;
    }
    None
}

fn php_ts_of(ts: &Vec<char>) -> (r: Option<Timestamp>)
    ensures
        r == php_ts(ts@),
        r matches Some(t) ==> t.wf(),
{
    let (a, b) = trim_range(ts, 0, ts.len());
    assert(ts@.subrange(0, ts@.len() as int) == ts@);
    let stripped = sub_chars(ts, a, b);
    let full = string_of(ts, a, b);
    let base = match rfind_char_before(&stripped, stripped.len(), ' ') {
        Some(i) => string_of(&stripped, 0, i),
        None => string_of(ts, a, b),
    };
    match parse_naive_utc(base.as_str(), "%d-%b-%Y %H:%M:%S") {
        Some(t) => Some(t),
        None => parse_naive_utc(full.as_str(), "%d-%b-%Y %H:%M:%S"),
    }
}

pub struct PhpErrorParser;

impl LogParser for PhpErrorParser {
    open spec fn spec_parse(&self, line_no: u32, offset: u64, len: u32, text: Seq<char>) -> Option<
        EventView,
    > {
        php_event(line_no, offset, len, text)
    }

    fn parse(&self, line_no: u32, offset: u64, len: u32, line: &str) -> (r: Option<LogEvent>) {
        let cs = chars_of(line);
        let n = cs.len();
        let (t, b, k) = match head_of(&cs) {
            Some(h) => h,
            None => return None,
        };
        let base = k + 1;
        let r = span_of(&cs, base, Class::Space);
        if !(r > base) {
            return None;
        }
        let (ms, me, tail) = match msg_try_at(&cs, base, r) {
            Some(f) => f,
            None => return None,
        };
        let ts_cs = sub_chars(&cs, 1, t);
        let timestamp = php_ts_of(&ts_cs);
        let kind = string_of(&cs, b, k);
        let kind_cs = sub_chars(&cs, b, k);
        let level = if crate::text::chars_eq_str(&kind_cs, "Fatal error") || crate::text::chars_eq_str(
            &kind_cs,
            "Parse error",
        ) || crate::text::chars_eq_str(&kind_cs, "Error") {
            Level::Critical
        } else if crate::text::chars_eq_str(&kind_cs, "Warning") {
            Level::Warning
        } else if crate::text::chars_eq_str(&kind_cs, "Notice") || crate::text::chars_eq_str(
            &kind_cs,
            "Deprecated",
        ) || crate::text::chars_eq_str(&kind_cs, "Strict Standards") {
            Level::Notice
        } else {
            Level::Unknown
        };
        let (m0, m1) = trim_range(&cs, ms, me);
        let message = string_of(&cs, m0, m1);
        let mut fields = FieldMap::new();
        fields.insert(str_to_string("type"), kind);
        if let Some((f0, f1, (l0, l1))) = tail {
            fields.insert(str_to_string("file"), string_of(&cs, f0, f1));
            fields.insert(str_to_string("line"), string_of(&cs, l0, l1));
        }
        let ev = LogEvent {
            line_no,
            offset,
            len,
            timestamp,
            level,
            source: Some(str_to_string("php")),
            message,
            fields,
        };
        assert(opt_event_view(Some(ev)) == php_event(line_no, offset, len, line@));
        Some(ev)
    }
}

/// A PHP error event's `type` field is the error kind the line names, one
/// of the eight PHP writes, and its level follows the kind: fatal, parse
/// and plain errors are critical, warnings are warnings, and notices,
/// deprecations and strict-standards notes are notices.
pub proof fn law_php_level_follows_kind(line_no: u32, offset: u64, len: u32, s: Seq<char>)
    requires
        php_event(line_no, offset, len, s) is Some,
    ensures
        ({
            let ev = php_event(line_no, offset, len, s)->0;
            let kind = lookup(ev.fields, "type"@)->0;
            &&& lookup(ev.fields, "type"@) is Some
            &&& kind == "Fatal error"@ || kind == "Parse error"@ || kind == "Error"@ || kind
                == "Warning"@ || kind == "Notice"@ || kind == "Deprecated"@ || kind
                == "Strict Standards"@
            &&& (kind == "Fatal error"@ || kind == "Parse error"@ || kind == "Error"@) ==> ev.level
                == Level::Critical
            &&& kind == "Warning"@ ==> ev.level == Level::Warning
            &&& (kind == "Notice"@ || kind == "Deprecated"@ || kind == "Strict Standards"@)
                ==> ev.level == Level::Notice
        }),
{
    let (t, b, k, (ms, me, tail)) = php_match(s)->0;
    let ev = php_event(line_no, offset, len, s)->0;
    let kind = s.subrange(b, k);
    assert(kind_at(s, b) == Some(k));
    if lit_at(s, b, "Fatal error"@) && char_is(s, b + "Fatal error"@.len(), ':') {
        assert(kind =~= "Fatal error"@);
    } else if lit_at(s, b, "Parse error"@) && char_is(s, b + "Parse error"@.len(), ':') {
        assert(kind =~= "Parse error"@);
    } else if lit_at(s, b, "Warning"@) && char_is(s, b + "Warning"@.len(), ':') {
        assert(kind =~= "Warning"@);
    } else if lit_at(s, b, "Notice"@) && char_is(s, b + "Notice"@.len(), ':') {
        assert(kind =~= "Notice"@);
    } else if lit_at(s, b, "Deprecated"@) && char_is(s, b + "Deprecated"@.len(), ':') {
        assert(kind =~= "Deprecated"@);
    } else if lit_at(s, b, "Strict Standards"@) && char_is(s, b + "Strict Standards"@.len(), ':') {
        assert(kind =~= "Strict Standards"@);
    } else {
        assert(kind =~= "Error"@);
    }
    reveal_strlit("Fatal error");
    reveal_strlit("Parse error");
    reveal_strlit("Error");
    reveal_strlit("Warning");
    reveal_strlit("Notice");
    reveal_strlit("Deprecated");
    reveal_strlit("Strict Standards");
    assert(ev.level == kind_level(kind));
    reveal_strlit("type");
    reveal_strlit("file");
    reveal_strlit("line");
    let base = put(Seq::empty(), "type"@, kind);
    law_lookup_after_put(Seq::empty(), "type"@, kind, "type"@);
    if let Some((f0, f1, (l0, l1))) = tail {
        let f = put(base, "file"@, s.subrange(f0, f1));
        assert("file"@ != "type"@) by {
            assert("file"@[0] != "type"@[0]);
        }
        assert("line"@ != "type"@) by {
            assert("line"@[0] != "type"@[0]);
        }
        law_lookup_after_put(base, "file"@, s.subrange(f0, f1), "type"@);
        law_lookup_after_put(f, "line"@, s.subrange(l0, l1), "type"@);
    }
    assert(lookup(ev.fields, "type"@) == Some(kind));
}

} // verus!
