//! The date-range dialog: preset ranges ending now, or a custom range typed
//! as two bounds.
use vstd::prelude::*;
use crate::log::event::opt_view;
use crate::text::{pop_char, push_char, push_str, trim, trim_string};
use crate::time::{
    before, checked_minus_seconds, chrono_date_parse, chrono_naive_parse, chrono_parse_rfc3339,
    is_before, minus_seconds, now_utc, parse_date_utc, parse_naive_utc, parse_rfc3339, Timestamp,
    MAX_SECS, MIN_SECS,
};

verus! {

#[derive(Debug, Clone, Copy, PartialEq, Eq, Structural)]
pub enum Preset {
    All,
    Last15m,
    Last1h,
    Last24h,
    Last7d,
    Custom,
}

pub open spec fn preset_label(p: Preset) -> Seq<char> {
    match p {
        Preset::All => "All time"@,
        Preset::Last15m => "Last 15 minutes"@,
        Preset::Last1h => "Last 1 hour"@,
        Preset::Last24h => "Last 24 hours"@,
        Preset::Last7d => "Last 7 days"@,
        Preset::Custom => "Custom range…"@,
    }
}

/// The presets, in menu order.
pub open spec fn presets() -> Seq<Preset> {
    seq![Preset::All, Preset::Last15m, Preset::Last1h, Preset::Last24h, Preset::Last7d, Preset::Custom]
}

/// How far back a preset reaches, in seconds.
pub open spec fn preset_span(p: Preset) -> Option<int> {
    match p {
        Preset::Last15m => Some(15 * 60int),
        Preset::Last1h => Some(60 * 60int),
        Preset::Last24h => Some(24 * 60 * 60int),
        Preset::Last7d => Some(7 * 24 * 60 * 60int),
        _ => None,
    }
}

/// A bound of a date range: none, or an instant.
pub type DateBound = Option<Timestamp>;

/// The range a preset stands for, seen from `reference`: from `reference`
/// minus the preset's span, open-ended; `All` and `Custom` bound nothing.
pub open spec fn preset_range(p: Preset, reference: Timestamp) -> (DateBound, DateBound) {
    match preset_span(p) {
        Some(n) => (Some(minus_seconds(reference, n)), None),
        None => (None, None),
    }
}

/// A reference instant every preset can reach back from.
pub open spec fn reference_ok(t: Timestamp) -> bool {
    &&& t.wf()
    &&& t.nanos >= 1_000_000_000 ==> t.secs % 60 == 59
    &&& t.secs >= MIN_SECS + 7 * 24 * 60 * 60
}

/// Whether `t` is an instant every preset can reach back from.
pub fn is_reference_ok(t: &Timestamp) -> (b: bool)
    ensures
        b == reference_ok(*t),
{
    if !(MIN_SECS + 7 * 24 * 60 * 60 <= t.secs && t.secs <= MAX_SECS && t.nanos < 2_000_000_000
        && -86_400 < t.offset && t.offset < 86_400) {
        return false;
    }
    if t.nanos < 1_000_000_000 {
        return true;
    }
    // Seconds past the minute, counted from the minute's start also
    // before the epoch.
    let within: i64 = t.secs - (t.secs / 60) * 60;
    let within: i64 = if within < 0 {
        within + 60
    } else {
        within
    };
    proof {
        assert(within == t.secs % 60) by (nonlinear_arith)
            requires
                within == (if t.secs - (t.secs / 60) * 60 < 0 { t.secs - (t.secs / 60) * 60 + 60 } else { t.secs - (t.secs / 60) * 60 }),
        ;
    }
    within == 59
}

impl Preset {
    pub fn label(&self) -> (r: &'static str)
        ensures
            r@ == preset_label(*self),
    {
        match self {
            Preset::All => "All time",
            Preset::Last15m => "Last 15 minutes",
            Preset::Last1h => "Last 1 hour",
            Preset::Last24h => "Last 24 hours",
            Preset::Last7d => "Last 7 days",
            Preset::Custom => "Custom range…",
        }
    }

    pub fn range(&self, reference: Timestamp) -> (r: (DateBound, DateBound))
        requires
            reference_ok(reference),
        ensures
            r == preset_range(*self, reference),
    {
        let span: i64 = match self {
            Preset::Last15m => 15 * 60,
            Preset::Last1h => 60 * 60,
            Preset::Last24h => 24 * 60 * 60,
            Preset::Last7d => 7 * 24 * 60 * 60,
            _ => {
                return (None, None);
            },
        };
        match checked_minus_seconds(reference, span) {
            Some(t) => (Some(t), None),
            None => (None, None),
        }
    }

    pub fn all() -> (r: [Preset; 6])
        ensures
            r@ == presets(),
    {
        let r = [
            Preset::All,
            Preset::Last15m,
            Preset::Last1h,
            Preset::Last24h,
            Preset::Last7d,
            Preset::Custom,
        ];
        assert(r@ =~= presets());
        r
    }
}

#[derive(Debug, Clone, Copy, PartialEq, Eq, Structural)]
pub enum Mode {
    Presets,
    Custom,
}

#[derive(Debug, Clone, Copy, PartialEq, Eq, Structural)]
pub enum CustomField {
    From,
    To,
}

pub struct DateRangeModal {
    pub cursor: usize,
    pub mode: Mode,
    pub field: CustomField,
    pub from_input: String,
    pub to_input: String,
    pub error: Option<String>,
}

impl Default for DateRangeModal {
    fn default() -> (r: DateRangeModal)
        ensures
            r.cursor == 0,
            r.mode == Mode::Presets,
            r.field == CustomField::From,
            r.from_input@.len() == 0,
            r.to_input@.len() == 0,
            r.error is None,
    {
        DateRangeModal {
            cursor: 0,
            mode: Mode::Presets,
            field: CustomField::From,
            from_input: String::new(),
            to_input: String::new(),
            error: None,
        }
    }
}

pub const ERR_FORMAT: &'static str = "expected YYYY-MM-DD, YYYY-MM-DD HH:MM[:SS] or RFC3339";

pub const ERR_ORDER: &'static str = "'from' must be earlier than 'to'";

/// What a typed bound means: empty (after trimming) is no bound; else the
/// first of RFC 3339, `YYYY-MM-DD HH:MM:SS`, `YYYY-MM-DD HH:MM` (both UTC)
/// and `YYYY-MM-DD` (midnight UTC) that reads it.
pub open spec fn bound_of(input: Seq<char>) -> Result<DateBound, Seq<char>> {
    let s = trim(input);
    if s.len() == 0 {
        Ok(None)
    } else {
        first_reading(
            chrono_parse_rfc3339(s),
            chrono_naive_parse(s, "%Y-%m-%d %H:%M:%S"@),
            chrono_naive_parse(s, "%Y-%m-%d %H:%M"@),
            chrono_date_parse(s, "%Y-%m-%d"@),
        )
    }
}

/// The first reading that succeeded, in the order RFC 3339, date-time with
/// seconds, date-time with minutes, date; the format message when none did.
pub open spec fn first_reading(
    rfc: Option<Timestamp>,
    full: Option<Timestamp>,
    minutes: Option<Timestamp>,
    day: Option<Timestamp>,
) -> Result<DateBound, Seq<char>> {
    if rfc is Some {
        Ok(rfc)
    } else if full is Some {
        Ok(full)
    } else if minutes is Some {
        Ok(minutes)
    } else if day is Some {
        Ok(day)
    } else {
        Err(ERR_FORMAT@)
    }
}

pub fn pick_bound(
    rfc: Option<Timestamp>,
    full: Option<Timestamp>,
    minutes: Option<Timestamp>,
    day: Option<Timestamp>,
) -> (r: Result<DateBound, String>)
    ensures
        match r {
            Ok(b) => first_reading(rfc, full, minutes, day) == Ok::<DateBound, Seq<char>>(b),
            Err(e) => first_reading(rfc, full, minutes, day) == Err::<DateBound, Seq<char>>(e@),
        },
{
    if rfc.is_some() {
        return Ok(rfc);
    }
    if full.is_some() {
        return Ok(full);
    }
    if minutes.is_some() {
        return Ok(minutes);
    }
    if day.is_some() {
        return Ok(day);
    }
    let mut e = String::new();
    push_str(&mut e, ERR_FORMAT);
    assert(e@ =~= ERR_FORMAT@);
    Err(e)
}

pub fn parse_bound(input: &str) -> (r: Result<DateBound, String>)
    ensures
        match r {
            Ok(b) => bound_of(input@) == Ok::<DateBound, Seq<char>>(b),
            Err(e) => bound_of(input@) == Err::<DateBound, Seq<char>>(e@),
        },
        r matches Ok(Some(t)) ==> t.wf(),
{
    let t = trim_string(input);
    let s = t.as_str();
    if s.is_empty() {
        return Ok(None);
    }
    let rfc = parse_rfc3339(s);
    if rfc.is_some() {
        return Ok(rfc);
    }
    let full = parse_naive_utc(s, "%Y-%m-%d %H:%M:%S");
    if full.is_some() {
        return Ok(full);
    }
    let minutes = parse_naive_utc(s, "%Y-%m-%d %H:%M");
    if minutes.is_some() {
        return Ok(minutes);
    }
    let day = parse_date_utc(s, "%Y-%m-%d");
    pick_bound(rfc, full, minutes, day)
}

/// What the custom dialog's two inputs give: both bounds, or the message
/// shown under them.
pub open spec fn custom_range(from: Seq<char>, to: Seq<char>) -> Result<(DateBound, DateBound), Seq<char>> {
    match bound_of(from) {
        Err(e) => Err("from: "@ + e),
        Ok(f) => match bound_of(to) {
            Err(e) => Err("to: "@ + e),
            Ok(t) => if f is Some && t is Some && before(t->0, f->0) {
                Err(ERR_ORDER@)
            } else {
                Ok((f, t))
            },
        },
    }
}

fn prefixed(prefix: &str, e: &String) -> (r: String)
    ensures
        r@ == prefix@ + e@,
{
    let mut r = String::new();
    push_str(&mut r, prefix);
    push_str(&mut r, e.as_str());
    assert(r@ =~= prefix@ + e@);
    r
}

impl DateRangeModal {
    pub open spec fn wf(&self) -> bool {
        self.cursor < 6
    }

    pub fn up(&mut self)
        ensures
            final(self).cursor == if old(self).cursor > 0 {
                (old(self).cursor - 1) as usize
            } else {
                old(self).cursor
            },
            final(self).mode == old(self).mode,
            final(self).field == old(self).field,
            final(self).from_input == old(self).from_input,
            final(self).to_input == old(self).to_input,
            final(self).error == old(self).error,
    {
        if self.cursor > 0 {
            self.cursor = self.cursor - 1;
        }
    }

    pub fn down(&mut self)
        ensures
            final(self).cursor == if old(self).cursor + 1 < 6 {
                (old(self).cursor + 1) as usize
            } else {
                old(self).cursor
            },
            final(self).mode == old(self).mode,
            final(self).field == old(self).field,
            final(self).from_input == old(self).from_input,
            final(self).to_input == old(self).to_input,
            final(self).error == old(self).error,
    {
        if self.cursor < 5 {
            self.cursor = self.cursor + 1;
        }
    }

    /// The preset under the cursor.
    pub fn selected(&self) -> (p: Preset)
        requires
            self.wf(),
        ensures
            p == presets()[self.cursor as int],
    {
        let all = Preset::all();
        all[self.cursor]
    }

    /// The instant presets reach back from: now, as the system clock reads
    /// it; `None` when the clock reads a time before 1970 or past the last
    /// representable second.
    pub fn reference_now() -> (r: Option<Timestamp>)
        ensures
            r matches Some(t) ==> t.wf() && 0 <= t.secs && t.nanos < 1_000_000_000 && t.offset
                == 0,
            r matches Some(t) ==> reference_ok(t),
    {
        now_utc()
    }

    pub fn enter_custom(&mut self)
        ensures
            final(self).mode == Mode::Custom,
            final(self).field == CustomField::From,
            final(self).error is None,
            final(self).cursor == old(self).cursor,
            final(self).from_input == old(self).from_input,
            final(self).to_input == old(self).to_input,
    {
        self.mode = Mode::Custom;
        self.field = CustomField::From;
        self.error = None;
    }

    pub fn exit_custom(&mut self)
        ensures
            final(self).mode == Mode::Presets,
            final(self).error is None,
            final(self).cursor == old(self).cursor,
            final(self).field == old(self).field,
            final(self).from_input == old(self).from_input,
            final(self).to_input == old(self).to_input,
    {
        self.mode = Mode::Presets;
        self.error = None;
    }

    pub fn toggle_field(&mut self)
        ensures
            final(self).field == match old(self).field {
                CustomField::From => CustomField::To,
                CustomField::To => CustomField::From,
            },
            final(self).cursor == old(self).cursor,
            final(self).mode == old(self).mode,
            final(self).from_input == old(self).from_input,
            final(self).to_input == old(self).to_input,
            final(self).error == old(self).error,
    {
        self.field = match self.field {
            CustomField::From => CustomField::To,
            CustomField::To => CustomField::From,
        };
    }

    /// The input being typed in.
    fn active_buffer_mut(&mut self) -> (r: &mut String)
        ensures
            old(self).field == CustomField::From ==> *r == old(self).from_input && *final(self) == (
            DateRangeModal { from_input: *final(r), ..*old(self) }),
            old(self).field == CustomField::To ==> *r == old(self).to_input && *final(self) == (
            DateRangeModal { to_input: *final(r), ..*old(self) }),
    {
        match self.field {
            CustomField::From => &mut self.from_input,
            CustomField::To => &mut self.to_input,
        }
    }

    /// Types a character into the active input.
    pub fn push(&mut self, c: char)
        ensures
            final(self).from_input@ == if old(self).field == CustomField::From {
                old(self).from_input@.push(c)
            } else {
                old(self).from_input@
            },
            final(self).to_input@ == if old(self).field == CustomField::To {
                old(self).to_input@.push(c)
            } else {
                old(self).to_input@
            },
            final(self).error is None,
            final(self).cursor == old(self).cursor,
            final(self).mode == old(self).mode,
            final(self).field == old(self).field,
    {
        push_char(self.active_buffer_mut(), c);
        self.error = None;
    }

    /// Erases the last character of the active input.
    pub fn backspace(&mut self)
        ensures
            final(self).from_input@ == if old(self).field == CustomField::From
                && old(self).from_input@.len() > 0 {
                old(self).from_input@.drop_last()
            } else {
                old(self).from_input@
            },
            final(self).to_input@ == if old(self).field == CustomField::To && old(
                self,
            ).to_input@.len() > 0 {
                old(self).to_input@.drop_last()
            } else {
                old(self).to_input@
            },
            final(self).error is None,
            final(self).cursor == old(self).cursor,
            final(self).mode == old(self).mode,
            final(self).field == old(self).field,
    {
        let _ = pop_char(self.active_buffer_mut());
        self.error = None;
    }

    /// Reads both inputs. On success the range comes back and the message
    /// clears; otherwise the message says what is wrong.
    pub fn parse_custom(&mut self) -> (r: Option<(DateBound, DateBound)>)
        ensures
            match custom_range(old(self).from_input@, old(self).to_input@) {
                Ok(range) => r == Some(range) && final(self).error is None,
                Err(m) => r is None && opt_view(final(self).error) == Some(m),
            },
            r matches Some((f, t)) ==> (f matches Some(x) ==> x.wf()) && (t matches Some(y)
                ==> y.wf()),
            final(self).cursor == old(self).cursor,
            final(self).mode == old(self).mode,
            final(self).field == old(self).field,
            final(self).from_input == old(self).from_input,
            final(self).to_input == old(self).to_input,
    {
        let from = match parse_bound(self.from_input.as_str()) {
            Ok(v) => v,
            Err(e) => {
                self.error = Some(prefixed("from: ", &e));
                return None;
            },
        };
        let to = match parse_bound(self.to_input.as_str()) {
            Ok(v) => v,
            Err(e) => {
                self.error = Some(prefixed("to: ", &e));
                return None;
            },
        };
        if let (Some(f), Some(t)) = (from, to) {
            if is_before(&t, &f) {
                let mut m = String::new();
                push_str(&mut m, ERR_ORDER);
                assert(m@ =~= ERR_ORDER@);
                self.error = Some(m);
                return None;
            }
        }
        self.error = None;
        Some((from, to))
    }
}

} // verus!
