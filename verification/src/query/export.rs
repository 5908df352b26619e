//! What an export writes: the full value/count table of one facet group, or
//! the visible log lines, and the name of the file it goes to. Writing the
//! file is the caller's business.
use vstd::prelude::*;
use crate::log::event::LogEvent;
use crate::log::loader::line_text;
use crate::query::facets::visible_ok;
use crate::query::filter::raw_text;
use crate::query::tally::{
    distinct_of, group_values, lemma_ranked, rows_view, sort_rows, tally_rows, top_rows,
};
use crate::text::{chars_of, decimal, decimal_string, is_alnum, push_char, push_str};

verus! {

/// The character a group key keeps in a file name.
pub open spec fn safe_char(c: char) -> char {
    if is_alnum(c) || c == '-' || c == '_' {
        c
    } else {
        '_'
    }
}

/// A group key made safe for a file name: ASCII letters, digits, `-` and `_`
/// stay, anything else becomes `_`; an empty key becomes `group`; at most
/// 64 characters.
pub open spec fn sanitized(k: Seq<char>) -> Seq<char> {
    let m = k.map_values(|c: char| safe_char(c));
    let m2 = if m.len() == 0 {
        "group"@
    } else {
        m
    };
    if m2.len() > 64 {
        m2.take(64)
    } else {
        m2
    }
}

pub fn sanitize_key(key: &str) -> (r: String)
    ensures
        r@ == sanitized(key@),
{
    let cs = chars_of(key);
    let ghost m = key@.map_values(|c: char| safe_char(c));
    let mut out = String::new();
    let mut i: usize = 0;
    let n = cs.len();
    while i < n && i < 64
        invariant
            n == cs@.len(),
            cs@ == key@,
            m.len() == key@.len(),
            forall|j: int| 0 <= j < m.len() ==> #[trigger] m[j] == safe_char(key@[j]),
            i <= n,
            i <= 64,
            out@ == m.take(i as int),
        decreases n - i,
    {
        let c = cs[i];
        let d = if (c >= 'a' && c <= 'z') || (c >= 'A' && c <= 'Z') || (c >= '0' && c <= '9')
            || c == '-' || c == '_' {
            c
        } else {
            '_'
        };
        push_char(&mut out, d);
        assert(m.take(i + 1) =~= m.take(i as int).push(m[i as int]));
        i = i + 1;
    }
    if n == 0 {
        push_str(&mut out, "group");
        proof {
            reveal_strlit("group");
        }
        assert(out@ =~= "group"@);
    } else if n <= 64 {
        assert(m.take(n as int) =~= m);
    }
    out
}

/// The full table of group `group` over the visible events: every value
/// with its count, most frequent first, equal counts by value.
pub fn group_rows(events: &Vec<LogEvent>, visible: &Vec<u32>, group: &str) -> (r: Vec<
    (String, usize),
>)
    requires
        visible_ok(events@, visible@),
    ensures
        top_rows(
            rows_view(r@),
            group_values(events@, visible@, group@),
            distinct_of(group_values(events@, visible@, group@)),
        ),
{
    let rows = tally_rows(events, visible, group);
    let ghost vals = group_values(events@, visible@, group@);
    let ghost t = rows_view(rows@);
    let sorted = sort_rows(rows);
    proof {
        lemma_ranked(t, rows_view(sorted@), vals, distinct_of(vals));
        assert(rows_view(sorted@).take(rows_view(sorted@).len() as int) =~= rows_view(sorted@));
    }
    sorted
}

/// `value<TAB>count` lines, one per row.
pub open spec fn report_text(rows: Seq<(Seq<char>, usize)>) -> Seq<char>
    decreases rows.len(),
{
    if rows.len() == 0 {
        Seq::empty()
    } else {
        let r = rows.last();
        report_text(rows.drop_last()) + r.0 + seq!['\t'] + decimal(r.1 as nat) + seq!['\n']
    }
}

pub fn group_report(rows: &Vec<(String, usize)>) -> (s: String)
    ensures
        s@ == report_text(rows_view(rows@)),
{
    let mut s = String::new();
    let mut i: usize = 0;
    while i < rows.len()
        invariant
            i <= rows@.len(),
            s@ == report_text(rows_view(rows@).take(i as int)),
        decreases rows@.len() - i,
    {
        let ghost before = s@;
        push_str(&mut s, rows[i].0.as_str());
        push_char(&mut s, '\t');
        let d = decimal_string(rows[i].1 as u64);
        push_str(&mut s, d.as_str());
        push_char(&mut s, '\n');
        let ghost t = rows_view(rows@).take(i + 1);
        assert(t.drop_last() =~= rows_view(rows@).take(i as int));
        assert(t.last() == (rows@[i as int].0@, rows@[i as int].1));
        assert(s@ =~= before + rows@[i as int].0@ + seq!['\t'] + decimal(rows@[i as int].1 as nat)
            + seq!['\n']);
        i = i + 1;
    }
    assert(rows_view(rows@).take(rows@.len() as int) =~= rows_view(rows@));
    s
}

/// The visible lines, one per line, oldest first.
pub open spec fn lines_text(evs: Seq<LogEvent>, vis: Seq<u32>, b: Seq<u8>) -> Seq<char>
    decreases vis.len(),
{
    if vis.len() == 0 {
        Seq::empty()
    } else {
        lines_text(evs, vis.drop_last(), b) + raw_text(b, evs[vis.last() as int]@) + seq!['\n']
    }
}

pub fn filtered_report(events: &Vec<LogEvent>, visible: &Vec<u32>, bytes: &[u8]) -> (s: String)
    requires
        visible_ok(events@, visible@),
        forall|i: int| 0 <= i < events@.len() ==> (#[trigger] events@[i]).offset <= bytes@.len(),
    ensures
        s@ == lines_text(events@, visible@, bytes@),
{
    let mut s = String::new();
    let mut i: usize = 0;
    while i < visible.len()
        invariant
            i <= visible@.len(),
            visible_ok(events@, visible@),
            forall|k: int| 0 <= k < events@.len() ==> (#[trigger] events@[k]).offset <= bytes@.len(),
            s@ == lines_text(events@, visible@.take(i as int), bytes@),
        decreases visible@.len() - i,
    {
        let ghost before = s@;
        let ev = &events[visible[i] as usize];
        let t = line_text(bytes, ev.offset, ev.len);
        push_str(&mut s, t);
        push_char(&mut s, '\n');
        let ghost v = visible@.take(i + 1);
        assert(v.drop_last() =~= visible@.take(i as int));
        assert(v.last() == visible@[i as int]);
        i = i + 1;
    }
    assert(visible@.take(visible@.len() as int) =~= visible@);
    s
}

/// The name an export file gets: `lazylog-<stem>-<part>-<stamp>.txt`.
pub open spec fn export_name(stem: Seq<char>, part: Seq<char>, stamp: Seq<char>) -> Seq<char> {
    "lazylog-"@ + stem + "-"@ + part + "-"@ + stamp + ".txt"@
}

pub fn export_file_name(stem: &str, part: &str, stamp: &str) -> (s: String)
    ensures
        s@ == export_name(stem@, part@, stamp@),
{
    let mut s = String::new();
    push_str(&mut s, "lazylog-");
    push_str(&mut s, stem);
    push_str(&mut s, "-");
    push_str(&mut s, part);
    push_str(&mut s, "-");
    push_str(&mut s, stamp);
    push_str(&mut s, ".txt");
    assert(s@ =~= export_name(stem@, part@, stamp@));
    s
}

/// A sanitized key is a safe file-name part: 1 to 64 characters, each an
/// ASCII letter or digit, `-` or `_` (no separator, no `..`, no NUL).
pub proof fn law_sanitized_is_safe(k: Seq<char>)
    ensures
        1 <= sanitized(k).len() <= 64,
        forall|i: int|
            0 <= i < sanitized(k).len() ==> is_alnum(#[trigger] sanitized(k)[i])
                || sanitized(k)[i] == '-' || sanitized(k)[i] == '_',
{
    reveal_strlit("group");
    let m = k.map_values(|c: char| safe_char(c));
    assert forall|i: int| 0 <= i < m.len() implies is_alnum(#[trigger] m[i]) || m[i] == '-' || m[i]
        == '_' by {
        assert(m[i] == safe_char(k[i]));
    }
}

} // verus!
