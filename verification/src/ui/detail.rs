//! The detail panel: the lines that describe the event under the cursor.
use vstd::prelude::*;
use crate::log::event::{EventView, Level, LogEvent};
use crate::log::fields::{entries_view, in_name_order, Pairs};
use crate::text::{chars_of, str_to_string, trim, trim_string};
use crate::time::Timestamp;

verus! {

/// Whether `serde_json::from_str::<Value>` accepts the text `t`.
pub uninterp spec fn serde_json_accepts(t: Seq<char>) -> bool;

/// What `serde_json::to_string_pretty` writes for the document that
/// `serde_json::from_str::<Value>` reads from `t`.
pub uninterp spec fn serde_json_pretty(t: Seq<char>) -> Seq<char>;

/// serde_json's `from_str::<Value>`, its document then written out by
/// `to_string_pretty`. The text comes back exactly when serde_json reads
/// `t`: writing a `Value` out cannot fail, as its object keys are strings
/// and the output goes to memory.
#[verifier::external_body]
fn json_reindent(t: &str) -> (r: Option<String>)
    ensures
        match r {
            Some(p) => serde_json_accepts(t@) && p@ == serde_json_pretty(t@),
            None => !serde_json_accepts(t@),
        },
{
    let doc = serde_json::from_str::<serde_json::Value>(t).ok()?;
    serde_json::to_string_pretty(&doc).ok()
}

/// Text that looks like a JSON object or array: `{...}` or `[...]`.
pub open spec fn bracketed(t: Seq<char>) -> bool {
    t.len() >= 1 && ((t[0] == '{' && t.last() == '}') || (t[0] == '[' && t.last() == ']'))
}

/// A field value as the detail panel shows it: a value that, trimmed, is a
/// JSON object or array that serde_json reads is written out indented by
/// serde_json; any other value is shown as it is.
pub fn pretty(v: &str) -> (r: String)
    ensures
        r@ == if bracketed(trim(v@)) && serde_json_accepts(trim(v@)) {
            serde_json_pretty(trim(v@))
        } else {
            v@
        },
{
    let t = trim_string(v);
    let cs = chars_of(t.as_str());
    let n = cs.len();
    let reindented = if n >= 1 && ((cs[0] == '{' && cs[n - 1] == '}') || (cs[0] == '[' && cs[n - 1]
        == ']')) {
        json_reindent(t.as_str())
    } else {
        None
    };
    shown_value(v, reindented)
}

/// What the detail panel shows for the value `v`, given serde_json's
/// indented text for it (`None` when there is none): that text, else `v`.
pub fn shown_value(v: &str, reindented: Option<String>) -> (r: String)
    ensures
        r@ == match reindented {
            Some(p) => p@,
            None => v@,
        },
{
    match reindented {
        Some(p) => p,
        None => str_to_string(v),
    }
}

pub struct DetailPanel;

/// A line of the detail panel.
#[derive(Debug, Clone)]
pub enum DetailLine {
    /// `level` and the event's level.
    Level(Level),
    /// `time` and the event's timestamp.
    Time(Timestamp),
    /// `source` and the event's source.
    Source(String),
    /// `line` and the event's line number.
    LineNo(u32),
    Blank,
    /// A section title: `message`, `fields` or `raw`.
    Heading(&'static str),
    /// The message.
    Text(String),
    /// A field's name and value.
    Field(String, String),
    /// The line as the file holds it.
    Raw(String),
}

pub enum DetailView {
    Level(Level),
    Time(Timestamp),
    Source(Seq<char>),
    LineNo(u32),
    Blank,
    Heading(Seq<char>),
    Text(Seq<char>),
    Field(Seq<char>, Seq<char>),
    Raw(Seq<char>),
}

pub open spec fn detail_view(l: DetailLine) -> DetailView {
    match l {
        DetailLine::Level(x) => DetailView::Level(x),
        DetailLine::Time(t) => DetailView::Time(t),
        DetailLine::Source(s) => DetailView::Source(s@),
        DetailLine::LineNo(n) => DetailView::LineNo(n),
        DetailLine::Blank => DetailView::Blank,
        DetailLine::Heading(h) => DetailView::Heading(h@),
        DetailLine::Text(s) => DetailView::Text(s@),
        DetailLine::Field(k, v) => DetailView::Field(k@, v@),
        DetailLine::Raw(s) => DetailView::Raw(s@),
    }
}

pub open spec fn details_view(ls: Seq<DetailLine>) -> Seq<DetailView> {
    ls.map_values(|l: DetailLine| detail_view(l))
}

pub open spec fn field_lines(fs: Pairs) -> Seq<DetailView> {
    fs.map_values(|f: (Seq<char>, Seq<char>)| DetailView::Field(f.0, f.1))
}

/// The panel's lines for an event whose fields, in name order, are `fs`:
/// level, time and source when known, line number; the message; the
/// fields, if any; the raw line, when the file is at hand.
pub open spec fn detail_lines(ev: EventView, fs: Pairs, raw: Option<Seq<char>>) -> Seq<DetailView> {
    let head = seq![DetailView::Level(ev.level)] + (match ev.timestamp {
        Some(t) => seq![DetailView::Time(t)],
        None => Seq::empty(),
    }) + (match ev.source {
        Some(s) => seq![DetailView::Source(s)],
        None => Seq::empty(),
    }) + seq![
        DetailView::LineNo(ev.line_no),
        DetailView::Blank,
        DetailView::Heading("message"@),
        DetailView::Text(ev.message),
    ];
    let fields = if fs.len() == 0 {
        Seq::empty()
    } else {
        seq![DetailView::Blank, DetailView::Heading("fields"@)] + field_lines(fs)
    };
    let tail = match raw {
        Some(r) => seq![DetailView::Blank, DetailView::Heading("raw"@), DetailView::Raw(r)],
        None => Seq::empty(),
    };
    head + fields + tail
}

impl DetailPanel {
    /// The lines describing `ev`; `raw` is its line in the file, when the
    /// file is at hand.
    pub fn lines(ev: &LogEvent, raw: Option<&str>) -> (r: Vec<DetailLine>)
        requires
            ev.wf(),
        ensures
            exists|fs: Pairs|
                in_name_order(ev@.fields, fs) && details_view(r@) == detail_lines(
                    ev@,
                    fs,
                    match raw {
                        Some(s) => Some(s@),
                        None => None,
                    },
                ),
    {
        let mut out: Vec<DetailLine> = Vec::new();
        out.push(DetailLine::Level(ev.level));
        let ghost p1 = seq![DetailView::Level(ev.level)];
        assert(details_view(out@) =~= p1);
        let ghost tpart: Seq<DetailView> = match ev.timestamp {
            Some(t) => seq![DetailView::Time(t)],
            None => Seq::empty(),
        };
        if let Some(t) = ev.timestamp {
            out.push(DetailLine::Time(t));
        }
        assert(details_view(out@) =~= p1 + tpart);
        let ghost spart: Seq<DetailView> = match ev@.source {
            Some(s) => seq![DetailView::Source(s)],
            None => Seq::empty(),
        };
        if let Some(s) = &ev.source {
            out.push(DetailLine::Source(s.clone()));
        }
        assert(details_view(out@) =~= p1 + tpart + spart);
        let ghost before_tail = details_view(out@);
        out.push(DetailLine::LineNo(ev.line_no));
        out.push(DetailLine::Blank);
        out.push(DetailLine::Heading("message"));
        out.push(DetailLine::Text(ev.message.clone()));
        assert(details_view(out@) =~= p1 + tpart + spart + seq![
            DetailView::LineNo(ev.line_no),
            DetailView::Blank,
            DetailView::Heading("message"@),
            DetailView::Text(ev@.message),
        ]);
        let ghost head = details_view(out@);
        let sorted = ev.fields.sorted_entries();
        let ghost fs = entries_view(sorted@);
        if sorted.len() > 0 {
            out.push(DetailLine::Blank);
            out.push(DetailLine::Heading("fields"));
            let mut i: usize = 0;
            while i < sorted.len()
                invariant
                    i <= sorted@.len(),
                    fs == entries_view(sorted@),
                    fs.len() > 0,
                    details_view(out@) == head + seq![DetailView::Blank, DetailView::Heading("fields"@)]
                        + field_lines(fs.take(i as int)),
                decreases sorted@.len() - i,
            {
                let ghost before = out@;
                out.push(DetailLine::Field(sorted[i].0.clone(), sorted[i].1.clone()));
                assert(field_lines(fs.take(i + 1)) =~= field_lines(fs.take(i as int)).push(
                    DetailView::Field(fs[i as int].0, fs[i as int].1),
                ));
                assert(details_view(out@) =~= details_view(before).push(
                    DetailView::Field(fs[i as int].0, fs[i as int].1),
                ));
                i = i + 1;
            }
            assert(fs.take(fs.len() as int) =~= fs);
        }
        let ghost fpart: Seq<DetailView> = if fs.len() == 0 {
            Seq::empty()
        } else {
            seq![DetailView::Blank, DetailView::Heading("fields"@)] + field_lines(fs)
        };
        assert(details_view(out@) =~= head + fpart);
        let ghost mid = details_view(out@);
        if let Some(r) = raw {
            out.push(DetailLine::Blank);
            out.push(DetailLine::Heading("raw"));
            out.push(DetailLine::Raw(str_to_string(r)));
        }
        proof {
            let rv = match raw {
                Some(s) => Some(s@),
                None => None,
            };
            assert(details_view(out@) =~= detail_lines(ev@, fs, rv));
            assert(in_name_order(ev@.fields, fs) && details_view(out@) == detail_lines(ev@, fs, rv));
        }
        out
    }
}

} // verus!
