//! From the bytes of a log file to events: the line index, the per-line step
//! of the loader (parse, date filter), enrichment of client addresses, and the
//! probe for the last timestamp of a file.
use vstd::prelude::*;
use vstd::utf8::{decode_utf8, valid_utf8};
use crate::log::event::{unparsed_view, EventView, LogEvent};
use crate::log::fields::{lookup, put, Pairs};
use crate::log::format::LogFormat;
use crate::log::parser::{format_parse, opt_event_view, parser_for, LogParser};
use crate::log::parsers::nginx_access::digit_value;
use crate::text::{
    chars_eq_str, chars_of, char_at_is, char_is, is_digit, is_hex, is_hex_char, lemma_span, lower_seq,
    push_str, span, span_of, str_to_string, string_of, to_lower_chars, Class,
};
use crate::time::{before, Timestamp};

verus! {

/// Lower and upper bounds on event timestamps, both inclusive.
#[derive(Debug, Clone, Copy)]
pub struct DateFilter {
    pub from: Option<Timestamp>,
    pub to: Option<Timestamp>,
}

/// An event with timestamp `ts` passes the bounds `from` / `to`; an event
/// without a timestamp passes only when there is no bound.
pub open spec fn admits_spec(from: Option<Timestamp>, to: Option<Timestamp>, ts: Option<Timestamp>) -> bool {
    match ts {
        Some(t) => !(from matches Some(f) && before(t, f)) && !(to matches Some(b) && before(b, t)),
        None => from is None && to is None,
    }
}

impl DateFilter {
    pub fn is_empty(&self) -> (b: bool)
        ensures
            b == (self.from is None && self.to is None),
    {
        self.from.is_none() && self.to.is_none()
    }

    pub fn admits(&self, ts: Option<Timestamp>) -> (b: bool)
        ensures
            b == admits_spec(self.from, self.to, ts),
    {
        match ts {
            Some(t) => {
                if let Some(f) = self.from {
                    if crate::time::is_before(&t, &f) {
                        return false;
                    }
                }
                if let Some(b) = self.to {
                    if crate::time::is_before(&b, &t) {
                        return false;
                    }
                }
                true
            },
            None => self.is_empty(),
        }
    }
}

/// Where a non-empty line lies in the file: its 1-based number, byte offset
/// and byte length (without the line feed, nor a carriage return before it).
#[derive(Debug, Clone, Copy)]
pub struct LineIdx {
    pub line_no: u32,
    pub offset: u64,
    pub len: u32,
}

/// The positions of the line feeds in `b[..n]`, in order.
pub open spec fn newlines_upto(b: Seq<u8>, n: int) -> Seq<int>
    decreases n,
{
    if n <= 0 || n > b.len() {
        Seq::empty()
    } else {
        let r = newlines_upto(b, n - 1);
        if b[n - 1] == 10 {
            r.push(n - 1)
        } else {
            r
        }
    }
}

pub open spec fn newlines(b: Seq<u8>) -> Seq<int> {
    newlines_upto(b, b.len() as int)
}

pub proof fn lemma_newlines(b: Seq<u8>, n: int)
    requires
        0 <= n <= b.len(),
    ensures
        forall|k: int| 0 <= k < newlines_upto(b, n).len() ==> 0 <= #[trigger] newlines_upto(b, n)[k]
            < n && b[newlines_upto(b, n)[k]] == 10,
        forall|k: int, m: int|
            0 <= k < m < newlines_upto(b, n).len() ==> newlines_upto(b, n)[k] < newlines_upto(
                b,
                n,
            )[m],
    decreases n,
{
    if n > 0 {
        lemma_newlines(b, n - 1);
        let r = newlines_upto(b, n - 1);
        if b[n - 1] == 10 {
            assert(newlines_upto(b, n) == r.push(n - 1));
            assert forall|k: int| 0 <= k < r.push(n - 1).len() implies 0 <= #[trigger] r.push(n - 1)[k]
                < n && b[r.push(n - 1)[k]] == 10 by {
                if k < r.len() {
                    assert(r.push(n - 1)[k] == r[k]);
                }
            }
            assert forall|k: int, m: int| 0 <= k < m < r.push(n - 1).len() implies #[trigger] r.push(n - 1)[k]
                < #[trigger] r.push(n - 1)[m] by {
                assert(r.push(n - 1)[k] == r[k]);
                if m < r.len() {
                    assert(r.push(n - 1)[m] == r[m]);
                }
            }
        } else {
            assert(newlines_upto(b, n) == r);
        }
    }
}

/// The positions of all line feeds (memchr's `memchr_iter(b'\n', ..)`).
/// memchr documents the iterator as yielding every occurrence of the byte,
/// in order; the contract says exactly that.
#[verifier::external_body]
fn newline_positions(bytes: &[u8]) -> (r: Vec<usize>)
    ensures
        r@.len() == newlines(bytes@).len(),
        forall|k: int| 0 <= k < r@.len() ==> r@[k] as int == #[trigger] newlines(bytes@)[k],
{
    memchr::memchr_iter(b'\n', bytes).collect()
}

/// The index of the last line feed in `b[..hi]`.
pub open spec fn last_newline(b: Seq<u8>, hi: int) -> Option<int>
    decreases hi,
{
    if hi <= 0 || hi > b.len() {
        None
    } else if b[hi - 1] == 10 {
        Some(hi - 1)
    } else {
        last_newline(b, hi - 1)
    }
}

/// The last line feed before `end` (memchr's `memrchr(b'\n', &bytes[..end])`,
/// documented as the last occurrence of the byte, if any).
#[verifier::external_body]
fn last_newline_before(bytes: &[u8], end: usize) -> (r: Option<usize>)
    requires
        end <= bytes@.len(),
    ensures
        match r {
            Some(p) => last_newline(bytes@, end as int) == Some(p as int),
            None => last_newline(bytes@, end as int) is None,
        },
{
    memchr::memrchr(b'\n', &bytes[..end])
}

/// The text of `bytes[start..end]` when it is valid UTF-8
/// (std's `str::from_utf8`, documented to succeed exactly on valid UTF-8).
#[verifier::external_body]
fn utf8_text(bytes: &[u8], start: usize, end: usize) -> (r: Option<&str>)
    requires
        start <= end <= bytes@.len(),
    ensures
        r is Some <==> valid_utf8(bytes@.subrange(start as int, end as int)),
        r matches Some(s) ==> s@ == decode_utf8(bytes@.subrange(start as int, end as int)),
{
    std::str::from_utf8(&bytes[start..end]).ok()
}

/// `bytes[start..end]` as text, empty when it is not valid UTF-8.
pub open spec fn text_of(b: Seq<u8>, start: int, end: int) -> Seq<char> {
    if valid_utf8(b.subrange(start, end)) {
        decode_utf8(b.subrange(start, end))
    } else {
        Seq::empty()
    }
}

/// A line counter that stops at the largest `u32`.
pub open spec fn sat_line(k: int) -> u32 {
    if k >= u32::MAX {
        u32::MAX
    } else {
        k as u32
    }
}

/// Where line `k` (0-based) starts, given the line feed positions.
pub open spec fn seg_start(nl: Seq<int>, k: int) -> int {
    if k <= 0 {
        0
    } else {
        nl[k - 1] + 1
    }
}

/// Where line `k` ends, a carriage return before the line feed dropped.
pub open spec fn seg_end(b: Seq<u8>, nl: Seq<int>, k: int) -> int {
    let e = nl[k];
    if e > seg_start(nl, k) && b[e - 1] == 13 {
        e - 1
    } else {
        e
    }
}

/// The index entries of the first `k` line-feed-terminated lines.
pub open spec fn entries_upto(b: Seq<u8>, nl: Seq<int>, k: int) -> Seq<LineIdx>
    decreases k,
{
    if k <= 0 {
        Seq::empty()
    } else {
        let prev = entries_upto(b, nl, k - 1);
        let s = seg_start(nl, k - 1);
        let e = seg_end(b, nl, k - 1);
        if e > s {
            prev.push(LineIdx { line_no: sat_line(k), offset: s as u64, len: (e - s) as u32 })
        } else {
            prev
        }
    }
}

/// The entries of every non-empty line of `b`, first line first. A last line
/// without a line feed counts too (its carriage return, if any, is kept).
pub open spec fn line_index(b: Seq<u8>) -> Seq<LineIdx> {
    let nl = newlines(b);
    let body = entries_upto(b, nl, nl.len() as int);
    let s = seg_start(nl, nl.len() as int);
    if s < b.len() {
        body.push(
            LineIdx { line_no: sat_line(nl.len() + 1int), offset: s as u64, len: (b.len() - s) as u32 },
        )
    } else {
        body
    }
}

/// Every entry of `idx` lies within `b`.
pub open spec fn index_in(b: Seq<u8>, idx: Seq<LineIdx>) -> bool {
    forall|i: int| 0 <= i < idx.len() ==> (#[trigger] idx[i]).offset + idx[i].len <= b.len()
}

/// How many lines an indexing step reads before the caller may stop it.
pub const INDEX_STEP_LINES: usize = 100_000;

/// A line index being built a step at a time, so that the caller can stop
/// between steps.
pub struct LineIndexer {
    nl: Vec<usize>,
    k: usize,
    line_start: usize,
    line_no: u32,
    out: Vec<LineIdx>,
}

proof fn lemma_trunc_u32(x: usize)
    ensures
        (x as u32) as int <= x as int,
{
    assert((x as u32) as usize <= x) by (bit_vector);
}

impl LineIndexer {
    /// The indexer has read the first lines of `b` and holds their entries.
    pub closed spec fn wf(&self, b: Seq<u8>) -> bool {
        let nls = newlines(b);
        &&& self.nl@.len() == nls.len()
        &&& forall|j: int| 0 <= j < self.nl@.len() ==> self.nl@[j] as int == #[trigger] nls[j]
        &&& forall|j: int| 0 <= j < nls.len() ==> 0 <= #[trigger] nls[j] < b.len() && b[nls[j]] == 10
        &&& forall|j: int, m: int| 0 <= j < m < nls.len() ==> nls[j] < nls[m]
        &&& self.k <= self.nl@.len()
        &&& self.line_start as int == seg_start(nls, self.k as int)
        &&& self.line_start <= b.len()
        &&& self.line_no == sat_line(self.k as int)
        &&& self.out@ == entries_upto(b, nls, self.k as int)
        &&& index_in(b, self.out@)
    }

    /// How many line feeds are left to read.
    pub closed spec fn remaining(&self) -> nat {
        (self.nl@.len() - self.k) as nat
    }

    /// An indexer at the start of `bytes`.
    pub fn new(bytes: &[u8]) -> (r: LineIndexer)
        ensures
            r.wf(bytes@),
    {
        let nl = newline_positions(bytes);
        proof {
            lemma_newlines(bytes@, bytes@.len() as int);
        }
        LineIndexer { nl, k: 0, line_start: 0, line_no: 0, out: Vec::new() }
    }

    /// Reads up to `max` more lines; says whether all lines are read.
    pub fn step(&mut self, bytes: &[u8], max: usize) -> (done: bool)
        requires
            old(self).wf(bytes@),
        ensures
            final(self).wf(bytes@),
            final(self).remaining() == if old(self).remaining() <= max {
                0
            } else {
                old(self).remaining() - max
            },
            done == (final(self).remaining() == 0),
    {
        let n = bytes.len();
        let ghost nls = newlines(bytes@);
        let mut taken: usize = 0;
        while self.k < self.nl.len() && taken < max
            invariant
                n == bytes@.len(),
                nls == newlines(bytes@),
                self.wf(bytes@),
                taken <= max,
                self.k == old(self).k + taken,
                self.nl == old(self).nl,
            decreases self.nl@.len() - self.k,
        {
            let k = self.k;
            self.line_no = if self.line_no < u32::MAX {
                self.line_no + 1
            } else {
                self.line_no
            };
            let p = self.nl[k];
            assert(self.nl@[k as int] as int == nls[k as int]);
            assert(0 <= nls[k as int] < n);
            assert(k > 0 ==> nls[k - 1] < nls[k as int]);
            let line_start = self.line_start;
            let mut end = p;
            if end > line_start && bytes[end - 1] == 13u8 {
                end = end - 1;
            }
            if end > line_start {
                let ghost before = self.out@;
                proof {
                    lemma_trunc_u32((end - line_start) as usize);
                }
                self.out.push(
                    LineIdx { line_no: self.line_no, offset: line_start as u64, len: (end - line_start) as u32 },
                );
                assert forall|i: int| 0 <= i < self.out@.len() implies (#[trigger] self.out@[i]).offset
                    + self.out@[i].len <= bytes@.len() by {
                    if i < before.len() {
                        assert(self.out@[i] == before[i]);
                    }
                }
            }
            self.line_start = p + 1;
            self.k = k + 1;
            taken = taken + 1;
        }
        self.k == self.nl.len()
    }

    /// The finished index.
    pub fn finish(self, bytes: &[u8]) -> (out: Vec<LineIdx>)
        requires
            self.wf(bytes@),
            self.remaining() == 0,
        ensures
            out@ == line_index(bytes@),
            index_in(bytes@, out@),
    {
        let n = bytes.len();
        let mut out = self.out;
        let line_start = self.line_start;
        let mut line_no = self.line_no;
        if line_start < n {
            line_no = if line_no < u32::MAX {
                line_no + 1
            } else {
                line_no
            };
            let ghost before = out@;
            proof {
                lemma_trunc_u32((n - line_start) as usize);
            }
            out.push(LineIdx { line_no, offset: line_start as u64, len: (n - line_start) as u32 });
            assert forall|i: int| 0 <= i < out@.len() implies (#[trigger] out@[i]).offset
                + out@[i].len <= bytes@.len() by {
                if i < before.len() {
                    assert(out@[i] == before[i]);
                }
            }
        }
        out
    }
}

/// Collects (line_no, offset, len) for every non-empty line.
pub fn build_line_index(bytes: &[u8]) -> (out: Vec<LineIdx>)
    ensures
        out@ == line_index(bytes@),
        index_in(bytes@, out@),
{
    let mut indexer = LineIndexer::new(bytes);
    loop
        invariant
            indexer.wf(bytes@),
        ensures
            indexer.wf(bytes@),
            indexer.remaining() == 0,
        decreases indexer.remaining(),
    {
        if indexer.step(bytes, INDEX_STEP_LINES) {
            break;
        }
    }
    indexer.finish(bytes)
}

/// The event the loader keeps for an indexed line, if any: the line's text
/// (empty unless valid UTF-8) is skipped when empty, parsed by the format's
/// grammar (kept whole when it does not fit), and dropped when its timestamp
/// is outside the date bounds.
pub open spec fn line_event(
    format: LogFormat,
    b: Seq<u8>,
    entry: LineIdx,
    from: Option<Timestamp>,
    to: Option<Timestamp>,
) -> Option<EventView> {
    let start = entry.offset as int;
    let text = text_of(b, start, start + entry.len);
    if text.len() == 0 {
        None
    } else {
        let ev = match format_parse(format, entry.line_no, entry.offset, entry.len, text) {
            Some(e) => e,
            None => unparsed_view(entry.line_no, entry.offset, entry.len, text),
        };
        if admits_spec(from, to, ev.timestamp) {
            Some(ev)
        } else {
            None
        }
    }
}

/// One step of the loader: the line at `entry` becomes an event at the end of
/// `buf`, unless it is empty or filtered out.
pub fn push_line(
    format: LogFormat,
    bytes: &[u8],
    entry: &LineIdx,
    filter: &DateFilter,
    buf: &mut Vec<LogEvent>,
)
    requires
        entry.offset + entry.len <= bytes@.len(),
    ensures
        match line_event(format, bytes@, *entry, filter.from, filter.to) {
            Some(ev) => final(buf)@.len() == old(buf)@.len() + 1 && final(buf)@.subrange(
                0,
                old(buf)@.len() as int,
            ) == old(buf)@ && final(buf)@.last()@ == ev && final(buf)@.last().wf(),
            None => final(buf)@ == old(buf)@,
        },
{
    let n = bytes.len();
    assert(entry.offset <= n);
    let start = entry.offset as usize;
    assert(start == entry.offset);
    let end = start + entry.len as usize;
    let text = match utf8_text(bytes, start, end) {
        Some(t) => t,
        None => "",
    };
    proof {
        reveal_strlit("");
    }
    if text.is_empty() {
        return;
    }
    let parser = parser_for(format);
    let ev = match parser.parse(entry.line_no, entry.offset, entry.len, text) {
        Some(e) => e,
        None => LogEvent::unparsed(entry.line_no, entry.offset, entry.len, text),
    };
    if !filter.admits(ev.timestamp) {
        return;
    }
    buf.push(ev);
    assert(buf@.subrange(0, old(buf)@.len() as int) =~= old(buf)@);
}

/// How many events the loader hands over at a time.
pub const CHUNK_EVENTS: usize = 10_000;

/// A chunk is handed over once it holds `CHUNK_EVENTS` events.
pub fn chunk_ready(buf: &Vec<LogEvent>) -> (b: bool)
    ensures
        b == (buf@.len() >= CHUNK_EVENTS),
{
    buf.len() >= CHUNK_EVENTS
}

/// How many lines a reading step reads before the caller may stop it.
pub const READ_STEP_LINES: usize = 1_000;

pub open spec fn opt_seq(e: Option<EventView>) -> Seq<EventView> {
    match e {
        Some(v) => seq![v],
        None => Seq::empty(),
    }
}

/// The events of the indexed lines `idx[lo..hi]`, the newest (last) line
/// first.
pub open spec fn events_back(
    format: LogFormat,
    b: Seq<u8>,
    idx: Seq<LineIdx>,
    hi: int,
    lo: int,
    from: Option<Timestamp>,
    to: Option<Timestamp>,
) -> Seq<EventView>
    decreases hi - lo,
{
    if hi <= lo {
        Seq::empty()
    } else {
        events_back(format, b, idx, hi, lo + 1, from, to) + opt_seq(line_event(format, b, idx[lo], from, to))
    }
}

pub open spec fn views(s: Seq<LogEvent>) -> Seq<EventView> {
    s.map_values(|e: LogEvent| e@)
}

/// The loader's walk, newest lines first: reads the indexed lines below
/// `pos` downward into `buf`, and stops when `buf` holds `want` events,
/// when `budget` lines were read, or at the first line. Returns where it
/// stopped; the lines `index[next..pos]` were read.
pub fn read_back(
    format: LogFormat,
    bytes: &[u8],
    index: &Vec<LineIdx>,
    pos: usize,
    filter: &DateFilter,
    buf: &mut Vec<LogEvent>,
    want: usize,
    budget: usize,
) -> (next: usize)
    requires
        pos <= index@.len(),
        index_in(bytes@, index@),
    ensures
        next <= pos,
        pos - next <= budget,
        final(buf)@.len() >= old(buf)@.len(),
        final(buf)@.subrange(0, old(buf)@.len() as int) == old(buf)@,
        views(final(buf)@) == views(old(buf)@) + events_back(
            format,
            bytes@,
            index@,
            pos as int,
            next as int,
            filter.from,
            filter.to,
        ),
        forall|i: int| old(buf)@.len() <= i < final(buf)@.len() ==> (#[trigger] final(buf)@[i]).wf(),
        next == 0 || pos - next == budget || final(buf)@.len() >= want,
        old(buf)@.len() < want ==> final(buf)@.len() <= want,
{
    let mut j = pos;
    while j > 0 && pos - j < budget && buf.len() < want
        invariant
            j <= pos <= index@.len(),
            pos - j <= budget,
            index_in(bytes@, index@),
            buf@.len() >= old(buf)@.len(),
            buf@.subrange(0, old(buf)@.len() as int) == old(buf)@,
            views(buf@) == views(old(buf)@) + events_back(
                format,
                bytes@,
                index@,
                pos as int,
                j as int,
                filter.from,
                filter.to,
            ),
            forall|i: int| old(buf)@.len() <= i < buf@.len() ==> (#[trigger] buf@[i]).wf(),
            old(buf)@.len() < want ==> buf@.len() <= want,
        decreases j,
    {
        let ghost before = buf@;
        let ghost back = events_back(format, bytes@, index@, pos as int, j as int, filter.from, filter.to);
        assert(index@[j - 1].offset + index@[j - 1].len <= bytes@.len());
        push_line(format, bytes, &index[j - 1], filter, buf);
        let ghost e = line_event(format, bytes@, index@[j - 1], filter.from, filter.to);
        assert(events_back(format, bytes@, index@, pos as int, j - 1, filter.from, filter.to) == back
            + opt_seq(e));
        assert(views(buf@) =~= views(before) + opt_seq(e)) by {
            if e is Some {
                assert(buf@ =~= before.push(buf@.last()));
            }
        }
        assert(buf@.subrange(0, old(buf)@.len() as int) =~= old(buf)@) by {
            assert(buf@.subrange(0, before.len() as int) == before);
            assert forall|i: int| 0 <= i < old(buf)@.len() implies buf@[i] == old(buf)@[i] by {
                assert(buf@[i] == buf@.subrange(0, before.len() as int)[i]);
                assert(before[i] == before.subrange(0, old(buf)@.len() as int)[i]);
            }
        }
        assert forall|i: int| old(buf)@.len() <= i < buf@.len() implies (#[trigger] buf@[i]).wf() by {
            if i < before.len() {
                assert(buf@[i] == buf@.subrange(0, before.len() as int)[i]);
            }
        }
        j = j - 1;
    }
    j
}

/// The number of the index's last line, 0 for an empty index.
pub fn total_lines(index: &Vec<LineIdx>) -> (r: u32)
    ensures
        r == if index@.len() == 0 {
            0
        } else {
            index@.last().line_no
        },
{
    if index.len() == 0 {
        0
    } else {
        index[index.len() - 1].line_no
    }
}

/// The number the decimal digits `s[i..k]` spell.
pub open spec fn number_of(s: Seq<char>, i: int, k: int) -> int
    decreases k - i,
{
    if k <= i {
        0
    } else {
        number_of(s, i, k - 1) * 10 + digit_value(s[k - 1])
    }
}

/// Four dot-separated parts of 1 to 3 ASCII digits, and nothing else.
pub open spec fn ascii_ipv4_form(s: Seq<char>) -> bool {
    let p1 = span(s, 0, Class::AsciiDigit);
    let p2 = span(s, p1 + 1, Class::AsciiDigit);
    let p3 = span(s, p2 + 1, Class::AsciiDigit);
    let p4 = span(s, p3 + 1, Class::AsciiDigit);
    &&& 1 <= p1 <= 3
    &&& char_is(s, p1, '.')
    &&& 1 <= p2 - p1 - 1 <= 3
    &&& char_is(s, p2, '.')
    &&& 1 <= p3 - p2 - 1 <= 3
    &&& char_is(s, p3, '.')
    &&& 1 <= p4 - p3 - 1 <= 3
    &&& p4 == s.len()
}

/// For an IPv4 address (four dot-separated parts of 1 to 3 digits, each
/// at most 255), `a.b.c.0/24`; `None` for anything else.
pub open spec fn subnet_spec(ip: Seq<char>) -> Option<Seq<char>> {
    let p1 = span(ip, 0, Class::AsciiDigit);
    let p2 = span(ip, p1 + 1, Class::AsciiDigit);
    let p3 = span(ip, p2 + 1, Class::AsciiDigit);
    if ascii_ipv4_form(ip) && number_of(ip, 0, p1) <= 255 && number_of(ip, p1 + 1, p2)
        <= 255 && number_of(ip, p2 + 1, p3) <= 255 && number_of(ip, p3 + 1, ip.len() as int) <= 255 {
        Some(ip.subrange(0, p3) + ".0/24"@)
    } else {
        None
    }
}

/// The number the 1 to 3 digits `cs[i..k]` spell.
fn octet_value(cs: &Vec<char>, i: usize, k: usize) -> (v: u32)
    requires
        i < k <= cs@.len(),
        k - i <= 3,
        forall|j: int| i <= j < k ==> is_digit(#[trigger] cs@[j]),
    ensures
        v == number_of(cs@, i as int, k as int),
        v < 1000,
{
    let mut v: u32 = 0;
    let mut j = i;
    while j < k
        invariant
            i <= j <= k <= cs@.len(),
            k - i <= 3,
            forall|m: int| i <= m < k ==> is_digit(#[trigger] cs@[m]),
            v == number_of(cs@, i as int, j as int),
            j - i <= 0 ==> v == 0,
            j - i <= 1 ==> v < 10,
            j - i <= 2 ==> v < 100,
            v < 1000,
        decreases k - j,
    {
        let c = cs[j];
        assert(is_digit(cs@[j as int]));
        let d: u32 = (c as u32) - 48;
        v = v * 10 + d;
        j = j + 1;
    }
    v
}

/// The digits `cs[i..k]` spell a number of at most 255.
fn octet_fits(cs: &Vec<char>, i: usize, k: usize) -> (b: bool)
    requires
        i < k <= cs@.len(),
        k - i <= 3,
        forall|j: int| i <= j < k ==> is_digit(#[trigger] cs@[j]),
    ensures
        b == (number_of(cs@, i as int, k as int) <= 255),
{
    let mut v: u32 = 0;
    let mut j = i;
    while j < k
        invariant
            i <= j <= k <= cs@.len(),
            k - i <= 3,
            forall|m: int| i <= m < k ==> is_digit(#[trigger] cs@[m]),
            v == number_of(cs@, i as int, j as int),
            j - i <= 0 ==> v == 0,
            j - i <= 1 ==> v < 10,
            j - i <= 2 ==> v < 100,
            v < 1000,
        decreases k - j,
    {
        let c = cs[j];
        assert(is_digit(cs@[j as int]));
        let d: u32 = (c as u32) - 48;
        v = v * 10 + d;
        j = j + 1;
    }
    v <= 255
}

/// For an IPv4 address, returns `a.b.c.0/24`. For IPv6 or a malformed input
/// (a part that is not 1 to 3 digits, or is above 255),
/// returns `None` (keeps the facet clean — IPv6 "/64" is rarely what the user
/// wants for log triage and would add noise).
pub fn subnet_v4(ip: &str) -> (r: Option<String>)
    ensures
        match r {
            Some(s) => subnet_spec(ip@) == Some(s@),
            None => subnet_spec(ip@) is None,
        },
{
    let cs = chars_of(ip);
    let n = cs.len();
    let p1 = span_of(&cs, 0, Class::AsciiDigit);
    if !(p1 >= 1 && p1 <= 3 && char_at_is(&cs, p1, '.')) {
        return None;
    }
    let p2 = span_of(&cs, p1 + 1, Class::AsciiDigit);
    if !(p2 - p1 - 1 >= 1 && p2 - p1 - 1 <= 3 && char_at_is(&cs, p2, '.')) {
        return None;
    }
    let p3 = span_of(&cs, p2 + 1, Class::AsciiDigit);
    if !(p3 - p2 - 1 >= 1 && p3 - p2 - 1 <= 3 && char_at_is(&cs, p3, '.')) {
        return None;
    }
    let p4 = span_of(&cs, p3 + 1, Class::AsciiDigit);
    if !(p4 - p3 - 1 >= 1 && p4 - p3 - 1 <= 3 && p4 == n) {
        return None;
    }
    proof {
        lemma_span(cs@, 0, Class::AsciiDigit);
        lemma_span(cs@, p1 + 1, Class::AsciiDigit);
        lemma_span(cs@, p2 + 1, Class::AsciiDigit);
        lemma_span(cs@, p3 + 1, Class::AsciiDigit);
    }
    if !(octet_fits(&cs, 0, p1) && octet_fits(&cs, p1 + 1, p2) && octet_fits(&cs, p2 + 1, p3)
        && octet_fits(&cs, p3 + 1, p4)) {
        return None;
    }
    let mut out = string_of(&cs, 0, p3);
    push_str(&mut out, ".0/24");
    Some(out)
}

/// The first two parts of an IPv4 address.
pub open spec fn v4_head(ip: Seq<char>) -> (int, int) {
    let p1 = span(ip, 0, Class::AsciiDigit);
    let p2 = span(ip, p1 + 1, Class::AsciiDigit);
    (number_of(ip, 0, p1), number_of(ip, p1 + 1, p2))
}

/// An IPv6 address, in lower case, that is the loopback `::1`, or whose
/// first group (four hex digits) is in `fc00::/7` (unique local) or
/// `fe80::/10` (link-local).
pub open spec fn private_v6(l: Seq<char>) -> bool {
    ||| l == "::1"@
    ||| {
        &&& l.len() >= 5
        &&& is_hex(l[0]) && is_hex(l[1]) && is_hex(l[2]) && is_hex(l[3])
        &&& l[4] == ':'
        &&& l[0] == 'f'
        &&& (l[1] == 'c' || l[1] == 'd' || (l[1] == 'e' && (l[2] == '8' || l[2] == '9' || l[2]
            == 'a' || l[2] == 'b')))
    }
}

/// An address of a private network, the loopback or a link-local network:
/// IPv4 `10/8`, `127/8`, `172.16/12`, `192.168/16`, `169.254/16`, or a
/// private IPv6 address (ASCII case ignored).
pub open spec fn private_addr(ip: Seq<char>) -> bool {
    let (a, b) = v4_head(ip);
    ||| subnet_spec(ip) is Some && (a == 10 || a == 127 || (a == 172 && 16 <= b <= 31) || (a == 192
        && b == 168) || (a == 169 && b == 254))
    ||| private_v6(lower_seq(ip))
}

/// Whether `ip` is a private, loopback or link-local address.
pub fn is_private_addr(ip: &str) -> (r: bool)
    ensures
        r == private_addr(ip@),
{
    let cs = chars_of(ip);
    let v4 = if subnet_v4(ip).is_some() {
        let p1 = span_of(&cs, 0, Class::AsciiDigit);
        let p2 = span_of(&cs, p1 + 1, Class::AsciiDigit);
        proof {
            lemma_span(cs@, 0, Class::AsciiDigit);
            lemma_span(cs@, p1 + 1, Class::AsciiDigit);
        }
        let a = octet_value(&cs, 0, p1);
        let b = octet_value(&cs, p1 + 1, p2);
        a == 10 || a == 127 || (a == 172 && 16 <= b && b <= 31) || (a == 192 && b == 168) || (a
            == 169 && b == 254)
    } else {
        false
    };
    if v4 {
        return true;
    }
    let l = to_lower_chars(&cs);
    if chars_eq_str(&l, "::1") {
        return true;
    }
    if l.len() < 5 {
        return false;
    }
    is_hex_char(l[0]) && is_hex_char(l[1]) && is_hex_char(l[2]) && is_hex_char(l[3]) && l[4] == ':'
        && l[0] == 'f' && (l[1] == 'c' || l[1] == 'd' || (l[1] == 'e' && (l[2] == '8' || l[2] == '9'
        || l[2] == 'a' || l[2] == 'b')))
}

/// The address to look up in a country database for this event: its `ip`
/// field, when the event has no `country` field yet and the address is not
/// a private, loopback or link-local one.
pub open spec fn country_query_spec(p: Pairs) -> Option<Seq<char>> {
    match lookup(p, "ip"@) {
        Some(ip) => if lookup(p, "country"@) is None && !private_addr(ip) {
            Some(ip)
        } else {
            None
        },
        None => None,
    }
}

pub fn country_query(ev: &LogEvent) -> (r: Option<String>)
    ensures
        match r {
            Some(s) => country_query_spec(ev.fields.pairs()) == Some(s@),
            None => country_query_spec(ev.fields.pairs()) is None,
        },
{
    match ev.fields.get("ip") {
        Some(ip) => if ev.fields.contains_key("country") || is_private_addr(ip.as_str()) {
            None
        } else {
            let cs = chars_of(ip.as_str());
            Some(crate::text::string_of_all(&cs))
        },
        None => None,
    }
}

/// The fields after enrichment: an event with an `ip` gains a `subnet` (for
/// IPv4) and the `country` found for its address, each only if not there.
pub open spec fn enrich_spec(p: Pairs, country: Option<Seq<char>>) -> Pairs {
    match lookup(p, "ip"@) {
        None => p,
        Some(ip) => {
            let p1 = match subnet_spec(ip) {
                Some(s) => if lookup(p, "subnet"@) is None {
                    put(p, "subnet"@, s)
                } else {
                    p
                },
                None => p,
            };
            match country {
                Some(c) => if lookup(p1, "country"@) is None {
                    put(p1, "country"@, c)
                } else {
                    p1
                },
                None => p1,
            }
        },
    }
}

/// Adds the derived fields of one event; `country` is what the country
/// database gives for its address (`None` when there is no database or no
/// entry).
pub fn enrich_event(ev: &mut LogEvent, country: Option<String>)
    requires
        old(ev).wf(),
    ensures
        final(ev)@ == (EventView { fields: enrich_spec(old(ev).fields.pairs(), opt_str_view(country)), ..old(ev)@ }),
        final(ev).wf(),
{
    let ip = match ev.fields.get("ip") {
        Some(v) => str_to_string(v.as_str()),
        None => return,
    };
    if !ev.fields.contains_key("subnet") {
        if let Some(s) = subnet_v4(ip.as_str()) {
            ev.fields.insert(str_to_string("subnet"), s);
        }
    }
    if let Some(c) = country {
        if !ev.fields.contains_key("country") {
            ev.fields.insert(str_to_string("country"), c);
        }
    }
}

pub open spec fn opt_str_view(s: Option<String>) -> Option<Seq<char>> {
    match s {
        Some(x) => Some(x@),
        None => None,
    }
}

/// The label a country database record gives: its English name, or, when
/// it has none, its ISO code.
pub fn country_label(english: Option<String>, iso_code: Option<String>) -> (r: Option<String>)
    ensures
        opt_str_view(r) == (if english is Some {
            opt_str_view(english)
        } else {
            opt_str_view(iso_code)
        }),
{
    match english {
        Some(name) => Some(name),
        None => iso_code,
    }
}

/// The timestamp of the last line (among the last 2000) that the format's
/// grammar reads with a timestamp, searching back from `end`.
pub open spec fn probe_spec(format: LogFormat, b: Seq<u8>, end: int, fuel: nat) -> Option<Timestamp>
    decreases fuel,
{
    if fuel == 0 || end <= 0 {
        None
    } else {
        let start = match last_newline(b, end) {
            Some(p) => p + 1,
            None => 0,
        };
        let line_end = if end > start && b[end - 1] == 13 {
            end - 1
        } else {
            end
        };
        let found = if line_end > start && valid_utf8(b.subrange(start, line_end)) {
            match format_parse(
                format,
                0,
                start as u64,
                (line_end - start) as u32,
                decode_utf8(b.subrange(start, line_end)),
            ) {
                Some(ev) => ev.timestamp,
                None => None,
            }
        } else {
            None
        };
        match found {
            Some(t) => Some(t),
            None => if start == 0 {
                None
            } else {
                probe_spec(format, b, start - 1, (fuel - 1) as nat)
            },
        }
    }
}

pub proof fn lemma_last_newline(b: Seq<u8>, hi: int)
    requires
        0 <= hi <= b.len(),
    ensures
        last_newline(b, hi) matches Some(p) ==> 0 <= p < hi,
    decreases hi,
{
    if hi > 0 && b[hi - 1] != 10 {
        lemma_last_newline(b, hi - 1);
    }
}

/// Parse (cheaply) the last timestamped line to help size default presets.
pub fn probe_last_timestamp(bytes: &[u8], format: LogFormat) -> (r: Option<Timestamp>)
    ensures
        r == probe_spec(format, bytes@, bytes@.len() as int, 2000),
{
    let parser = parser_for(format);
    let mut end = bytes.len();
    let mut fuel: usize = 2000;
    while fuel > 0
        invariant
            end <= bytes@.len(),
            fuel <= 2000,
            parser.format == format,
            probe_spec(format, bytes@, bytes@.len() as int, 2000) == probe_spec(
                format,
                bytes@,
                end as int,
                fuel as nat,
            ),
        decreases fuel,
    {
        if end == 0 {
            return None;
        }
        proof {
            lemma_last_newline(bytes@, end as int);
        }
        let start = match last_newline_before(bytes, end) {
            Some(p) => p + 1,
            None => 0,
        };
        let mut line_end = end;
        if line_end > start && bytes[line_end - 1] == 13u8 {
            line_end = line_end - 1;
        }
        if line_end > start {
            if let Some(text) = utf8_text(bytes, start, line_end) {
                if let Some(ev) = parser.parse(0, start as u64, (line_end - start) as u32, text) {
                    if let Some(ts) = ev.timestamp {
                        return Some(ts);
                    }
                }
            }
        }
        if start == 0 {
            return None;
        }
        end = start - 1;
        fuel = fuel - 1;
    }
    None
}

/// The text of a line as the viewer shows it: the bytes from `offset`,
/// `len` long (cut at the end of the data), empty unless valid UTF-8.
pub fn line_text(bytes: &[u8], offset: u64, len: u32) -> (r: &str)
    requires
        offset <= bytes@.len(),
    ensures
        r@ == text_of(
            bytes@,
            offset as int,
            if offset + len <= bytes@.len() {
                offset + len
            } else {
                bytes@.len() as int
            },
        ),
{
    let start = offset as usize;
    let n = bytes.len();
    let end = if (len as usize) <= n - start {
        start + len as usize
    } else {
        n
    };
    proof {
        reveal_strlit("");
    }
    match utf8_text(bytes, start, end) {
        Some(t) => t,
        None => "",
    }
}

} // verus!
