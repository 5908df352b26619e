//! Symfony / Monolog lines: `[ts] channel.LEVEL: message [{context}] [[extra]]`.
//!
//! The message is the shortest text after the level that leaves an optional
//! JSON-ish `{...}` context, an optional `[...]` extra and trailing white
//! space; each of context and extra reaches to its last closing bracket that
//! still lets the rest fit.
use vstd::prelude::*;
use crate::log::event::{level_of_name, EventView, Level, LogEvent};
use crate::log::fields::{put, FieldMap, Pairs};
use crate::log::parser::{opt_event_view, LogParser};
use crate::text::{
    blank_from, char_at_is, char_is, chars_of, find_char, find_char_from, has_lit_at,
    is_blank_from, lemma_find_char, lit_at, rfind_char, rfind_char_before, span, span_of,
    str_to_string, string_of, sub_chars, trim, trim_range, Class, in_class, lemma_span_is,
};
use crate::time::{chrono_naive_parse, chrono_parse_rfc3339, parse_naive_utc, parse_rfc3339, Timestamp};

verus! {

/// Timestamp end `.0`, channel `[.1, .2)`, level `[.2 + 1, .3)`, and the
/// colon after the level at `.3`.
pub open spec fn symfony_head(s: Seq<char>) -> Option<(int, int, int, int)> {
    let t = span(s, 1, Class::Not(']'));
    let a = span(s, t + 1, Class::Space);
    let r = span(s, a, Class::WordDashDot);
    if char_is(s, 0, '[') && t > 1 && char_is(s, t, ']') && a > t + 1 && char_is(s, r, ':') {
        match rfind_char(s, r, '.') {
            Some(d) => if d > a && d + 1 < r && span(s, d + 1, Class::Upper) == r {
                Some((t, a, d, r))
            } else {
                None
            },
            None => None,
        }
    } else {
        None
    }
}

/// Where the line feed that ends a `.*` starting at `i` lies (or the end).
pub open spec fn line_end(s: Seq<char>, i: int) -> int {
    match find_char(s, i, '\n') {
        Some(p) => p,
        None => s.len() as int,
    }
}

/// The latest `]` before `j` (and at or after `lo`) followed by white space
/// only: the end of the extra part.
pub open spec fn extra_close(s: Seq<char>, lo: int, j: int) -> Option<int>
    decreases j - lo,
{
    if j <= lo {
        None
    } else if s[j - 1] == ']' && blank_from(s, j) {
        Some(j)
    } else {
        extra_close(s, lo, j - 1)
    }
}

/// What may follow the context at `x`: an extra part `[ .0, .1 )`, or white
/// space only.
pub open spec fn extra_tail(s: Seq<char>, x: int) -> Option<Option<(int, int)>> {
    let w = span(s, x, Class::Space);
    let found = if w > x && char_is(s, w, '[') {
        extra_close(s, w + 1, line_end(s, w + 1))
    } else {
        None
    };
    match found {
        Some(j) => Some(Some((w, j))),
        None => if blank_from(s, x) {
            Some(None)
        } else {
            None
        },
    }
}

/// The latest `}` before `j` (and at or after `lo`) after which an extra
/// part fits: the end of the context and the extra part.
pub open spec fn ctx_close(s: Seq<char>, lo: int, j: int) -> Option<(int, Option<(int, int)>)>
    decreases j - lo,
{
    if j <= lo {
        None
    } else if s[j - 1] == '}' && extra_tail(s, j) is Some {
        Some((j, extra_tail(s, j)->0))
    } else {
        ctx_close(s, lo, j - 1)
    }
}

/// The context part at `e`: its bounds and the extra part after it.
pub open spec fn ctx_at(s: Seq<char>, e: int) -> Option<((int, int), Option<(int, int)>)> {
    let w = span(s, e, Class::Space);
    if w > e && char_is(s, w, '{') {
        match ctx_close(s, w + 1, line_end(s, w + 1)) {
            Some((j, extra)) => Some(((w, j), extra)),
            None => None,
        }
    } else {
        None
    }
}

/// What may follow the message at `e`: context, extra, trailing space.
pub open spec fn sym_tail(s: Seq<char>, e: int) -> Option<(Option<(int, int)>, Option<(int, int)>)> {
    match ctx_at(s, e) {
        Some((c, x)) => Some((Some(c), x)),
        None => match extra_tail(s, e) {
            Some(x) => Some((None, x)),
            None => None,
        },
    }
}

/// The shortest message from `ms` (its end tried from `me` on).
pub open spec fn sym_msg_from(s: Seq<char>, ms: int, me: int) -> Option<(int, (Option<(int, int)>, Option<(int, int)>))>
    decreases s.len() + 1 - me,
{
    if me < ms || me > s.len() {
        None
    } else {
        match sym_tail(s, me) {
            Some(t) => Some((me, t)),
            None => if me < s.len() && s[me] != '\n' {
                sym_msg_from(s, ms, me + 1)
            } else {
                None
            },
        }
    }
}

/// The message starting at `x` or earlier (down to `base + 1`).
pub open spec fn sym_msg_try(s: Seq<char>, base: int, x: int) -> Option<(int, int, (Option<(int, int)>, Option<(int, int)>))>
    decreases x - base,
{
    if x <= base {
        None
    } else {
        match sym_msg_from(s, x, x) {
            Some((me, t)) => Some((x, me, t)),
            None => sym_msg_try(s, base, x - 1),
        }
    }
}

/// `"exception":"[object] (` then a class name at `i`: the name bounds.
pub open spec fn exception_at(c: Seq<char>, i: int) -> Option<(int, int)> {
    let l = "\"exception\":\"[object] ("@.len();
    let k = span(c, i + l, Class::ClassName);
    if lit_at(c, i, "\"exception\":\"[object] ("@) && k > i + l {
        Some((i + l, k))
    } else {
        None
    }
}

pub open spec fn exception_search(c: Seq<char>, i: int) -> Option<(int, int)>
    decreases c.len() + 1 - i,
{
    if i < 0 || i > c.len() {
        None
    } else {
        match exception_at(c, i) {
            Some(r) => Some(r),
            None => exception_search(c, i + 1),
        }
    }
}

/// The exception class named in a context, if any.
pub open spec fn exception_class(c: Seq<char>) -> Option<Seq<char>> {
    match exception_search(c, 0) {
        Some((a, b)) => Some(c.subrange(a, b)),
        None => None,
    }
}

pub open spec fn symfony_ts(ts: Seq<char>) -> Option<Timestamp> {
    match chrono_parse_rfc3339(ts) {
        Some(t) => Some(t),
        None => chrono_naive_parse(ts, "%Y-%m-%d %H:%M:%S"@),
    }
}

pub open spec fn symfony_fields(s: Seq<char>, chan: Seq<char>, ctx: Option<(int, int)>, extra: Option<(int, int)>) -> Pairs {
    let f = put(Seq::empty(), "channel"@, chan);
    let f2 = match ctx {
        Some((c0, c1)) => {
            let c = s.subrange(c0, c1);
            let g = put(f, "context"@, c);
            match exception_class(c) {
                Some(cls) => put(g, "exception"@, cls),
                None => g,
            }
        },
        None => f,
    };
    match extra {
        Some((x0, x1)) => put(f2, "extra"@, s.subrange(x0, x1)),
        None => f2,
    }
}

pub open spec fn symfony_event(line_no: u32, offset: u64, len: u32, s: Seq<char>) -> Option<EventView> {
    match symfony_head(s) {
        None => None,
        Some((t, a, d, r)) => {
            let base = r + 1;
            let w = span(s, base, Class::Space);
            if w > base {
                match sym_msg_try(s, base, w) {
                    Some((ms, me, (ctx, extra))) => {
                        let chan = s.subrange(a, d);
                        Some(
                            EventView {
                                line_no,
                                offset,
                                len,
                                timestamp: symfony_ts(s.subrange(1, t)),
                                level: level_of_name(s.subrange(d + 1, r)),
                                source: Some(chan),
                                message: trim(s.subrange(ms, me)),
                                fields: symfony_fields(s, chan, ctx, extra),
                            },
                        )
                    },
                    None => None,
                }
            } else {
                None
            }
        },
    }
}

fn head_of(cs: &Vec<char>) -> (res: Option<(usize, usize, usize, usize)>)
    ensures
        match res {
            Some((t, a, d, r)) => symfony_head(cs@) == Some((t as int, a as int, d as int, r as int))
                && 1 < t < a < d < r < cs@.len(),
            None => symfony_head(cs@) is None,
        },
{
    let n = cs.len();
    if !char_at_is(cs, 0, '[') {
        return None;
    }
    let t = span_of(cs, 1, Class::Not(']'));
    if !(t > 1 && char_at_is(cs, t, ']')) {
        return None;
    }
    let a = span_of(cs, t + 1, Class::Space);
    if !(a > t + 1) {
        return None;
    }
    let r = span_of(cs, a, Class::WordDashDot);
    if !char_at_is(cs, r, ':') {
        return None;
    }
    match rfind_char_before(cs, r, '.') {
        Some(d) => if d > a && d + 1 < r && span_of(cs, d + 1, Class::Upper) == r {
            Some((t, a, d, r))
        } else {
            None
        },
        None => None,
    }
}

fn line_end_of(cs: &Vec<char>, i: usize) -> (e: usize)
    requires
        i <= cs@.len(),
    ensures
        e == line_end(cs@, i as int),
        i <= e <= cs@.len(),
{
    proof {
        lemma_find_char(cs@, i as int, '\n');
    }
    match find_char_from(cs, i, '\n') {
        Some(p) => p,
        None => cs.len(),
    }
}

fn extra_close_of(cs: &Vec<char>, lo: usize, hi: usize) -> (r: Option<usize>)
    requires
        lo <= hi <= cs@.len(),
    ensures
        match r {
            Some(j) => extra_close(cs@, lo as int, hi as int) == Some(j as int) && lo < j <= hi,
            None => extra_close(cs@, lo as int, hi as int) is None,
        },
{
    let mut j = hi;
    while j > lo
        invariant
            lo <= j <= hi <= cs@.len(),
            extra_close(cs@, lo as int, hi as int) == extra_close(cs@, lo as int, j as int),
        decreases j - lo,
    {
        if cs[j - 1] == ']' && is_blank_from(cs, j) {
            return Some(j);
        }
        j = j - 1;
    }
    None
}

fn extra_tail_of(cs: &Vec<char>, x: usize) -> (r: Option<Option<(usize, usize)>>)
    requires
        x <= cs@.len(),
    ensures
        match r {
            Some(Some((a, b))) => extra_tail(cs@, x as int) == Some(Some((a as int, b as int))) && a
                <= b <= cs@.len(),
            Some(None) => extra_tail(cs@, x as int) == Some(None::<(int, int)>),
            None => extra_tail(cs@, x as int) is None,
        },
{
    let n = cs.len();
    let w = span_of(cs, x, Class::Space);
    if w > x && char_at_is(cs, w, '[') {
        let le = line_end_of(cs, w + 1);
        if let Some(j) = extra_close_of(cs, w + 1, le) {
            return Some(Some((w, j)));
        }
    }
    if is_blank_from(cs, x) {
        Some(None)
    } else {
        None
    }
}

fn ctx_close_of(cs: &Vec<char>, lo: usize, hi: usize) -> (r: Option<(usize, Option<(usize, usize)>)>)
    requires
        lo <= hi <= cs@.len(),
    ensures
        match r {
            Some((j, Some((a, b)))) => ctx_close(cs@, lo as int, hi as int) == Some(
                (j as int, Some((a as int, b as int))),
            ) && lo < j <= hi && a <= b <= cs@.len(),
            Some((j, None)) => ctx_close(cs@, lo as int, hi as int) == Some(
                (j as int, None::<(int, int)>),
            ) && lo < j <= hi,
            None => ctx_close(cs@, lo as int, hi as int) is None,
        },
{
    let mut j = hi;
    while j > lo
        invariant
            lo <= j <= hi <= cs@.len(),
            ctx_close(cs@, lo as int, hi as int) == ctx_close(cs@, lo as int, j as int),
        decreases j - lo,
    {
        if cs[j - 1] == '}' {
            if let Some(x) = extra_tail_of(cs, j) {
                return Some((j, x));
            }
        }
        j = j - 1;
    }
    None
}

fn tail_of(cs: &Vec<char>, e: usize) -> (r: Option<(Option<(usize, usize)>, Option<(usize, usize)>)>)
    requires
        e <= cs@.len(),
    ensures
        match r {
            Some((c, x)) => sym_tail(cs@, e as int) == Some(
                (
                    match c {
                        Some((c0, c1)) => Some((c0 as int, c1 as int)),
                        None => None,
                    },
                    match x {
                        Some((x0, x1)) => Some((x0 as int, x1 as int)),
                        None => None,
                    },
                ),
            ) && (c matches Some((c0, c1)) ==> c0 <= c1 <= cs@.len()) && (x matches Some((x0, x1))
                ==> x0 <= x1 <= cs@.len()),
            None => sym_tail(cs@, e as int) is None,
        },
{
    let n = cs.len();
    let w = span_of(cs, e, Class::Space);
    if w > e && char_at_is(cs, w, '{') {
        let le = line_end_of(cs, w + 1);
        if let Some((j, x)) = ctx_close_of(cs, w + 1, le) {
            return Some((Some((w, j)), x));
        }
    }
    match extra_tail_of(cs, e) {
        Some(x) => Some((None, x)),
        None => None,
    }
}

fn msg_from_of(cs: &Vec<char>, ms: usize) -> (r: Option<(usize, (Option<(usize, usize)>, Option<(usize, usize)>))>)
    requires
        ms <= cs@.len(),
    ensures
        match r {
            Some((me, (c, x))) => sym_msg_from(cs@, ms as int, ms as int) == Some(
                (
                    me as int,
                    (
                        match c {
                            Some((c0, c1)) => Some((c0 as int, c1 as int)),
                            None => None,
                        },
                        match x {
                            Some((x0, x1)) => Some((x0 as int, x1 as int)),
                            None => None,
                        },
                    ),
                ),
            ) && ms <= me <= cs@.len() && (c matches Some((c0, c1)) ==> c0 <= c1 <= cs@.len()) && (x matches Some(
                (x0, x1),
            ) ==> x0 <= x1 <= cs@.len()),
            None => sym_msg_from(cs@, ms as int, ms as int) is None,
        },
{
    let n = cs.len();
    let mut me = ms;
    loop
        invariant
            n == cs@.len(),
            ms <= me <= n,
            sym_msg_from(cs@, ms as int, ms as int) == sym_msg_from(cs@, ms as int, me as int),
        decreases n - me,
    {
        if let Some(t) = tail_of(cs, me) {
            return Some((me, t));
        }
        if me < n && cs[me] != '\n' {
            me = me + 1;
        } else {
            return None;
        }
    }
}

fn msg_try_of(cs: &Vec<char>, base: usize, w: usize) -> (r: Option<(usize, usize, (Option<(usize, usize)>, Option<(usize, usize)>))>)
    requires
        base <= w <= cs@.len(),
    ensures
        match r {
            Some((ms, me, (c, x))) => sym_msg_try(cs@, base as int, w as int) == Some(
                (
                    ms as int,
                    me as int,
                    (
                        match c {
                            Some((c0, c1)) => Some((c0 as int, c1 as int)),
                            None => None,
                        },
                        match x {
                            Some((x0, x1)) => Some((x0 as int, x1 as int)),
                            None => None,
                        },
                    ),
                ),
            ) && ms <= me <= cs@.len() && (c matches Some((c0, c1)) ==> c0 <= c1 <= cs@.len()) && (x matches Some(
                (x0, x1),
            ) ==> x0 <= x1 <= cs@.len()),
            None => sym_msg_try(cs@, base as int, w as int) is None,
        },
{
    let mut x = w;
    while x > base
        invariant
            base <= x <= w <= cs@.len(),
            sym_msg_try(cs@, base as int, w as int) == sym_msg_try(cs@, base as int, x as int),
        decreases x - base,
    {
        if let Some((me, t)) = msg_from_of(cs, x) {
            return Some((x, me, t));
        }
        x = x - 1;
    }
    None
}

/// The exception class named in a Symfony context, if any.
pub fn extract_exception_class(ctx: &str) -> (r: Option<String>)
    ensures
        match r {
            Some(c) => exception_class(ctx@) == Some(c@),
            None => exception_class(ctx@) is None,
        },
{
    let c = chars_of(ctx);
    let n = c.len();
    let lit = "\"exception\":\"[object] (";
    let l = chars_of(lit).len();
    let mut i: usize = 0;
    loop
        invariant
            n == c@.len(),
            c@ == ctx@,
            l == lit@.len(),
            lit@ == "\"exception\":\"[object] ("@,
            i <= n,
            exception_search(c@, 0) == exception_search(c@, i as int),
        decreases n - i,
    {
        if has_lit_at(&c, i, lit) {
            let k = span_of(&c, i + l, Class::ClassName);
            if k > i + l {
                return Some(string_of(&c, i + l, k));
            }
        }
        if i == n {
            assert(exception_search(c@, n + 1) is None);
            return None;
        }
        i = i + 1;
    }
}

fn symfony_ts_of(ts: &str) -> (r: Option<Timestamp>)
    ensures
        r == symfony_ts(ts@),
        r matches Some(t) ==> t.wf(),
{
    match parse_rfc3339(ts) {
        Some(t) => Some(t),
        None => parse_naive_utc(ts, "%Y-%m-%d %H:%M:%S"),
    }
}

pub struct SymfonyParser;

impl LogParser for SymfonyParser {
    open spec fn spec_parse(&self, line_no: u32, offset: u64, len: u32, text: Seq<char>) -> Option<
        EventView,
    > {
        symfony_event(line_no, offset, len, text)
    }

    fn parse(&self, line_no: u32, offset: u64, len: u32, line: &str) -> (res: Option<LogEvent>) {
        let cs = chars_of(line);
        let n = cs.len();
        let (t, a, d, r) = match head_of(&cs) {
            Some(h) => h,
            None => return None,
        };
        let base = r + 1;
        let w = span_of(&cs, base, Class::Space);
        if !(w > base) {
            return None;
        }
        let (ms, me, (ctx, extra)) = match msg_try_of(&cs, base, w) {
            Some(m) => m,
            None => return None,
        };
        let ts = string_of(&cs, 1, t);
        let timestamp = symfony_ts_of(ts.as_str());
        let level_text = string_of(&cs, d + 1, r);
        let level = Level::from_str_ci(level_text.as_str());
        let (m0, m1) = trim_range(&cs, ms, me);
        let message = string_of(&cs, m0, m1);
        let mut fields = FieldMap::new();
        fields.insert(str_to_string("channel"), string_of(&cs, a, d));
        if let Some((c0, c1)) = ctx {
            let c = string_of(&cs, c0, c1);
            let cls = extract_exception_class(c.as_str());
            fields.insert(str_to_string("context"), c);
            if let Some(cl) = cls {
                fields.insert(str_to_string("exception"), cl);
            }
        }
        if let Some((x0, x1)) = extra {
            fields.insert(str_to_string("extra"), string_of(&cs, x0, x1));
        }
        let ev = LogEvent {
            line_no,
            offset,
            len,
            timestamp,
            level,
            source: Some(string_of(&cs, a, d)),
            message,
            fields,
        };
        assert(opt_event_view(Some(ev)) == symfony_event(line_no, offset, len, line@));
        Some(ev)
    }
}

proof fn lemma_exception_search_skips(c: Seq<char>, i: int, n: int)
    requires
        0 <= i <= n <= c.len(),
        forall|j: int| i <= j < n ==> !lit_at(c, j, "\"exception\":\"[object] ("@),
    ensures
        exception_search(c, i) == exception_search(c, n),
    decreases n - i,
{
    if i < n {
        assert(exception_at(c, i) is None);
        lemma_exception_search_skips(c, i + 1, n);
    }
}

/// The exception class is the whole run of ASCII letters, digits, `_` and
/// `\` right after the first `"exception":"[object] (` of the context: the
/// backslashes of a namespaced class such as `A\B\FooException` belong to
/// the name, and the name ends at the first character of any other kind.
pub proof fn law_exception_class_is_whole_name(p: Seq<char>, name: Seq<char>, q: Seq<char>)
    requires
        name.len() > 0,
        forall|j: int|
            0 <= j < name.len() ==> {
                let ch = #[trigger] name[j];
                ('a' <= ch && ch <= 'z') || ('A' <= ch && ch <= 'Z') || ('0' <= ch && ch <= '9')
                    || ch == '_' || ch == '\\'
            },
        q.len() > 0 ==> !(('a' <= q[0] && q[0] <= 'z') || ('A' <= q[0] && q[0] <= 'Z') || ('0'
            <= q[0] && q[0] <= '9') || q[0] == '_' || q[0] == '\\'),
        forall|i: int|
            0 <= i < p.len() ==> !lit_at(
                p + "\"exception\":\"[object] ("@ + name + q,
                i,
                "\"exception\":\"[object] ("@,
            ),
    ensures
        exception_class(p + "\"exception\":\"[object] ("@ + name + q) == Some(name),
{
    let m = "\"exception\":\"[object] ("@;
    let c = p + m + name + q;
    let a: int = (p.len() + m.len()) as int;
    let b: int = a + name.len();
    lemma_exception_search_skips(c, 0, p.len() as int);
    assert(c.subrange(p.len() as int, a) =~= m);
    assert(lit_at(c, p.len() as int, m));
    assert forall|j: int| a <= j < b implies in_class(Class::ClassName, #[trigger] c[j]) by {
        assert(c[j] == name[j - a]);
    }
    if b < c.len() {
        assert(c[b] == q[0]);
    }
    lemma_span_is(c, a, b, Class::ClassName);
    assert(exception_at(c, p.len() as int) == Some((a, b)));
    assert(c.subrange(a, b) =~= name);
}

} // verus!
