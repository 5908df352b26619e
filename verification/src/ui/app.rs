//! The viewer's state and what each key press does to it. Drawing, the
//! clock, the background loader and file writing are the caller's; this
//! module decides.
use vstd::prelude::*;
use crate::log::correlation::{extract, extract_spec};
use crate::log::event::LogEvent;
use crate::log::loader::{line_text, text_of};
use crate::log::format::LogFormat;
use crate::query::facets::{compute, group_ok, group_specs, shown, visible_ok, FacetIndex};
use crate::query::filter::{apply, apply_upto, Filter};
use crate::log::event::opt_view;
use crate::query::filter::{law_empty_filter_shows_all, lemma_selections_match_by_selected, selected};
use crate::time::Timestamp;
use crate::ui::daterange::{
    custom_range, preset_range, presets, reference_ok, CustomField, DateRangeModal, Mode, Preset,
};
use crate::ui::export_menu::{choices, ExportChoice, ExportMenu};
use crate::ui::facets_panel::{at_value, lemma_at_value_unique, values_total, FacetCursor};
use crate::ui::input_box::InputBox;
use crate::ui::keys::{key_action, Action, KeyCode, KeyEvent, KeyMap};

verus! {

#[derive(Debug, Clone, Copy, PartialEq, Eq, Structural)]
pub enum Focus {
    Facets,
    Events,
}

/// The pane sizes, in percent, and whether the arrows resize them.
#[derive(Debug, Clone, Copy, PartialEq, Eq, Structural)]
pub struct Panes {
    /// The facets pane's share of the width.
    pub facets_pct: u8,
    /// The event list's share of the height when the detail pane shows.
    pub events_pct: u8,
    /// The arrows resize the panes until Esc.
    pub resizing: bool,
}

pub const PANE_MIN_PCT: u8 = 10;

pub const PANE_MAX_PCT: u8 = 80;

pub const PANE_STEP_PCT: u8 = 2;

pub const DEFAULT_FACETS_PCT: u8 = 22;

pub const DEFAULT_EVENTS_PCT: u8 = 60;

/// A pane size moved one step up or down, kept between the bounds.
pub open spec fn adjusted(current: u8, increase: bool) -> u8 {
    let v: int = if increase {
        current + PANE_STEP_PCT
    } else {
        current - PANE_STEP_PCT
    };
    clamp(v, PANE_MIN_PCT as int, PANE_MAX_PCT as int) as u8
}

/// A pane size moved one step up or down, kept between the bounds.
pub fn adjust_pct(current: u8, increase: bool) -> (r: u8)
    ensures
        r == adjusted(current, increase),
{
    let v: i32 = if increase {
        current as i32 + PANE_STEP_PCT as i32
    } else {
        current as i32 - PANE_STEP_PCT as i32
    };
    if v < PANE_MIN_PCT as i32 {
        PANE_MIN_PCT
    } else if v > PANE_MAX_PCT as i32 {
        PANE_MAX_PCT
    } else {
        v as u8
    }
}

/// What a key does in the resize mode: Esc leaves it, Left and Right
/// shrink and widen the facets pane, Up and Down shrink and grow the event
/// list; other keys do nothing.
pub open spec fn resized(p: Panes, code: KeyCode) -> Panes {
    match code {
        KeyCode::Esc => Panes { resizing: false, ..p },
        KeyCode::Left => Panes { facets_pct: adjusted(p.facets_pct, false), ..p },
        KeyCode::Right => Panes { facets_pct: adjusted(p.facets_pct, true), ..p },
        KeyCode::Up => Panes { events_pct: adjusted(p.events_pct, false), ..p },
        KeyCode::Down => Panes { events_pct: adjusted(p.events_pct, true), ..p },
        _ => p,
    }
}

/// The viewer's state.
pub struct App {
    pub format: LogFormat,
    pub events: Vec<LogEvent>,
    pub visible: Vec<u32>,
    pub facets: FacetIndex,
    pub filter: Filter,
    pub focus: Focus,
    pub event_cursor: usize,
    pub facet_cursor: FacetCursor,
    pub show_help: bool,
    pub show_daterange: bool,
    pub date_modal: DateRangeModal,
    pub show_export: bool,
    pub export_menu: ExportMenu,
    pub search: InputBox,
    pub loading: bool,
    pub cancelled: bool,
    pub pending_dirty: bool,
    /// The cursor follows the newest event (the last visible row).
    pub auto_tail: bool,
    pub panes: Panes,
    pub quit: bool,
}

/// The groups are the facet groups of `format` over the visible events.
pub open spec fn facets_of(format: LogFormat, evs: Seq<LogEvent>, vis: Seq<u32>, fi: FacetIndex) -> bool {
    &&& fi.groups@.len() == shown(group_specs(format), evs, vis).len()
    &&& forall|i: int|
        0 <= i < fi.groups@.len() ==> group_ok(
            shown(group_specs(format), evs, vis)[i],
            evs,
            vis,
            #[trigger] fi.groups@[i],
        )
}

/// Few groups, few values each.
pub open spec fn facets_small(fi: FacetIndex) -> bool {
    &&& fi.groups@.len() <= 7
    &&& forall|i: int| 0 <= i < fi.groups@.len() ==> (#[trigger] fi.groups@[i]).values@.len() <= 50
}

/// Where the event cursor goes after the visible list changes to `len`
/// rows: onto the newest row when following it, else kept, pulled back
/// onto the last row when past it.
pub open spec fn tail_cursor(auto_tail: bool, cursor: usize, len: nat) -> usize {
    if auto_tail && len > 0 {
        (len - 1) as usize
    } else if cursor >= len {
        if len > 0 {
            (len - 1) as usize
        } else {
            0
        }
    } else {
        cursor
    }
}

/// The facet cursor pulled back onto the last of `total` values when past it.
pub open spec fn clamp_cursor(cursor: usize, total: nat) -> usize {
    if cursor >= total {
        if total > 0 {
            (total - 1) as usize
        } else {
            0
        }
    } else {
        cursor
    }
}

/// `new` holds what recomputing gives, from the cursors of `old`: with the
/// file at hand, the visible events and facets for `new`'s filter and the
/// cursors moved onto them; without it, nothing changes.
pub open spec fn refreshed(old: App, new: App, b: Option<Seq<u8>>) -> bool {
    match b {
        None => {
            &&& new.visible == old.visible
            &&& new.facets == old.facets
            &&& new.event_cursor == old.event_cursor
            &&& new.facet_cursor == old.facet_cursor
        },
        Some(bytes) => {
            &&& new.visible@ == apply_upto(new.filter, new.events@, bytes, new.events@.len() as int)
            &&& facets_of(new.format, new.events@, new.visible@, new.facets)
            &&& new.event_cursor == tail_cursor(new.auto_tail, old.event_cursor, new.visible@.len())
            &&& new.facet_cursor.flat == clamp_cursor(
                old.facet_cursor.flat,
                values_total(new.facets.groups@),
            )
        },
    }
}

pub proof fn lemma_apply_upto_bounds(f: Filter, evs: Seq<LogEvent>, b: Seq<u8>, k: int)
    requires
        0 <= k <= u32::MAX + 1,
    ensures
        apply_upto(f, evs, b, k).len() <= k,
        forall|i: int| 0 <= i < apply_upto(f, evs, b, k).len() ==> #[trigger] apply_upto(f, evs, b, k)[i] < k,
    decreases k,
{
    if k > 0 {
        lemma_apply_upto_bounds(f, evs, b, k - 1);
        let rest = apply_upto(f, evs, b, k - 1);
        let r = apply_upto(f, evs, b, k);
        assert forall|i: int| 0 <= i < r.len() implies #[trigger] r[i] < k by {
            if r.len() == rest.len() + 1 {
                if i > 0 {
                    assert(r[i] == rest[i - 1]);
                }
            } else {
                assert(r[i] == rest[i]);
            }
        }
    }
}

pub proof fn lemma_shown_small(sps: Seq<(Seq<char>, Seq<char>, nat)>, evs: Seq<LogEvent>, vis: Seq<u32>)
    ensures
        shown(sps, evs, vis).len() <= sps.len(),
        forall|i: int| 0 <= i < shown(sps, evs, vis).len() ==> sps.contains(#[trigger] shown(sps, evs, vis)[i]),
    decreases sps.len(),
{
    if sps.len() > 0 {
        lemma_shown_small(sps.drop_last(), evs, vis);
        let p = shown(sps.drop_last(), evs, vis);
        let s = shown(sps, evs, vis);
        assert forall|i: int| 0 <= i < s.len() implies sps.contains(#[trigger] s[i]) by {
            if i < p.len() {
                assert(s[i] == p[i]);
                assert(sps.drop_last().contains(p[i]));
                let j = choose|j: int| 0 <= j < sps.drop_last().len() && sps.drop_last()[j] == p[i];
                assert(sps[j] == p[i]);
            } else {
                assert(s[i] == sps.last());
                assert(sps[sps.len() - 1] == sps.last());
            }
        }
    }
}

pub proof fn lemma_facets_small(format: LogFormat, evs: Seq<LogEvent>, vis: Seq<u32>, fi: FacetIndex)
    requires
        facets_of(format, evs, vis, fi),
    ensures
        facets_small(fi),
        values_total(fi.groups@) <= 350,
{
    let sps = group_specs(format);
    lemma_shown_small(sps, evs, vis);
    assert(sps.len() <= 7);
    assert forall|i: int| 0 <= i < fi.groups@.len() implies (#[trigger] fi.groups@[i]).values@.len() <= 50 by {
        let sp = shown(sps, evs, vis)[i];
        assert(sps.contains(sp));
        assert(sp.2 <= 50);
        assert(group_ok(sp, evs, vis, fi.groups@[i]));
    }
    lemma_small_total(fi.groups@);
}

pub proof fn lemma_small_total(gs: Seq<crate::query::facets::FacetGroup>)
    requires
        gs.len() <= 7,
        forall|i: int| 0 <= i < gs.len() ==> (#[trigger] gs[i]).values@.len() <= 50,
    ensures
        values_total(gs) <= 50 * gs.len(),
    decreases gs.len(),
{
    if gs.len() > 0 {
        assert forall|i: int| 0 <= i < gs.drop_last().len() implies (#[trigger] gs.drop_last()[i]).values@.len() <= 50 by {
            assert(gs.drop_last()[i] == gs[i]);
        }
        lemma_small_total(gs.drop_last());
        assert(gs.last() == gs[gs.len() - 1]);
    }
}

impl App {
    /// The state a freshly opened file starts in: loading, nothing
    /// visible yet, the cursor following the newest event.
    pub fn new(format: LogFormat, initial_filter: Filter) -> (r: App)
        requires
            initial_filter.wf(),
        ensures
            r.format == format,
            r.filter == initial_filter,
            r.events@.len() == 0,
            r.visible@.len() == 0,
            r.facets.groups@.len() == 0,
            r.focus == Focus::Events,
            r.event_cursor == 0,
            r.facet_cursor.flat == 0,
            !r.show_help && !r.show_daterange && !r.show_export,
            r.date_modal.cursor == 0,
            r.export_menu.cursor == 0,
            r.search.title@ == " search (Enter to apply, Esc to close) "@,
            r.search.buffer@.len() == 0,
            !r.search.active,
            r.loading && !r.cancelled && !r.pending_dirty,
            r.auto_tail,
            r.panes == (Panes {
                facets_pct: DEFAULT_FACETS_PCT,
                events_pct: DEFAULT_EVENTS_PCT,
                resizing: false,
            }),
            !r.quit,
            r.wf(None),
    {
        App {
            format,
            events: Vec::new(),
            visible: Vec::new(),
            facets: FacetIndex::default(),
            filter: initial_filter,
            focus: Focus::Events,
            event_cursor: 0,
            facet_cursor: FacetCursor::default(),
            show_help: false,
            show_daterange: false,
            date_modal: DateRangeModal::default(),
            show_export: false,
            export_menu: ExportMenu::default(),
            search: InputBox::new(" search (Enter to apply, Esc to close) "),
            loading: true,
            cancelled: false,
            pending_dirty: false,
            auto_tail: true,
            panes: Panes {
                facets_pct: DEFAULT_FACETS_PCT,
                events_pct: DEFAULT_EVENTS_PCT,
                resizing: false,
            },
            quit: false,
        }
    }

    /// What every operation keeps: at most `u32::MAX` events, each within
    /// the file's bytes when the file is at hand, visible indices naming
    /// events, a well-formed filter and dialog, small facet groups, cursors
    /// that fit a `u32`.
    pub open spec fn wf(&self, b: Option<Seq<u8>>) -> bool {
        &&& self.events@.len() <= u32::MAX
        &&& (b matches Some(bytes) ==> forall|i: int|
            0 <= i < self.events@.len() ==> (#[trigger] self.events@[i]).offset <= bytes.len())
        &&& visible_ok(self.events@, self.visible@)
        &&& self.visible@.len() <= u32::MAX
        &&& self.filter.wf()
        &&& self.date_modal.wf()
        &&& facets_small(self.facets)
        &&& values_total(self.facets.groups@) <= 350
        &&& self.event_cursor <= u32::MAX
        &&& self.facet_cursor.flat <= u32::MAX
    }

    /// Recomputes the visible events and the facets for the filter, and
    /// moves the cursors onto them; does nothing without the file.
    pub fn recompute(&mut self, source: Option<&[u8]>)
        requires
            old(self).wf(
                match source {
                    Some(s) => Some(s@),
                    None => None,
                },
            ),
        ensures
            final(self).wf(
                match source {
                    Some(s) => Some(s@),
                    None => None,
                },
            ),
            refreshed(
                *old(self),
                *final(self),
                match source {
                    Some(s) => Some(s@),
                    None => None,
                },
            ),
            final(self).format == old(self).format,
            final(self).events == old(self).events,
            final(self).filter == old(self).filter,
            final(self).focus == old(self).focus,
            final(self).show_help == old(self).show_help,
            final(self).show_daterange == old(self).show_daterange,
            final(self).date_modal == old(self).date_modal,
            final(self).show_export == old(self).show_export,
            final(self).export_menu == old(self).export_menu,
            final(self).search == old(self).search,
            final(self).loading == old(self).loading,
            final(self).cancelled == old(self).cancelled,
            final(self).pending_dirty == old(self).pending_dirty,
            final(self).auto_tail == old(self).auto_tail,
            final(self).panes == old(self).panes,
            final(self).quit == old(self).quit,
    {
        let bytes = match source {
            Some(s) => s,
            None => {
                return;
            },
        };
        let visible = apply(&self.filter, &self.events, bytes);
        proof {
            lemma_apply_upto_bounds(self.filter, self.events@, bytes@, self.events@.len() as int);
        }
        let facets = compute(self.format, &self.events, &visible);
        proof {
            lemma_facets_small(self.format, self.events@, visible@, facets);
        }
        self.visible = visible;
        self.facets = facets;
        let len = self.visible.len();
        if self.auto_tail && len > 0 {
            self.event_cursor = len - 1;
        } else if self.event_cursor >= len {
            self.event_cursor = if len > 0 {
                len - 1
            } else {
                0
            };
        }
        let total = FacetCursor::total(&self.facets);
        if self.facet_cursor.flat >= total {
            self.facet_cursor.flat = if total > 0 {
                total - 1
            } else {
                0
            };
        }
    }
}

/// What the caller does after a key press.
#[derive(Debug, Clone, Copy, PartialEq, Eq, Structural)]
pub enum Effect {
    Nothing,
    /// Stop the background load.
    CancelLoad,
    /// Write the export chosen in the menu.
    Export(ExportChoice),
    /// Copy the selected line to the clipboard.
    Yank,
}

/// The date dialog as numbers and text.
pub open spec fn mv(m: DateRangeModal) -> (usize, Mode, CustomField, Seq<char>, Seq<char>, Option<Seq<char>>) {
    (m.cursor, m.mode, m.field, m.from_input@, m.to_input@, opt_view(m.error))
}

pub open spec fn drop_last_if_any(s: Seq<char>) -> Seq<char> {
    if s.len() > 0 {
        s.drop_last()
    } else {
        s
    }
}

pub open spec fn clamp(x: int, lo: int, hi: int) -> int {
    if x < lo {
        lo
    } else if x > hi {
        hi
    } else {
        x
    }
}

/// All but the search box, the filter, the visible data and the dirty flag
/// are as in `a`.
pub open spec fn same_outside(a: App, b: App) -> bool {
    &&& b.format == a.format
    &&& b.events == a.events
    &&& b.focus == a.focus
    &&& b.show_help == a.show_help
    &&& b.show_daterange == a.show_daterange
    &&& b.date_modal == a.date_modal
    &&& b.show_export == a.show_export
    &&& b.export_menu == a.export_menu
    &&& b.loading == a.loading
    &&& b.cancelled == a.cancelled
    &&& b.auto_tail == a.auto_tail
    &&& b.panes == a.panes
    &&& b.quit == a.quit
}

/// The filter, the visible data and the dirty flag are as in `a`.
pub open spec fn same_data(a: App, b: App) -> bool {
    &&& b.filter == a.filter
    &&& b.visible == a.visible
    &&& b.facets == a.facets
    &&& b.event_cursor == a.event_cursor
    &&& b.facet_cursor == a.facet_cursor
    &&& b.pending_dirty == a.pending_dirty
}

/// `b`'s filter has `a`'s selections and text, and the bounds `from`, `to`.
pub open spec fn bounds_set(a: App, b: App, from: Option<Timestamp>, to: Option<Timestamp>) -> bool {
    &&& b.filter.text == a.filter.text
    &&& b.filter.selections == a.filter.selections
    &&& b.filter.from == from
    &&& b.filter.to == to
}

/// A key press while the search box is open: Esc closes it and clears the
/// search; Enter closes it and searches for what was typed; Backspace and
/// characters edit it. Searching recomputes at once.
pub open spec fn search_step(o: App, key: KeyEvent, b: Option<Seq<u8>>, n: App, eff: Effect) -> bool {
    &&& eff == Effect::Nothing
    &&& same_outside(o, n)
    &&& n.search.title == o.search.title
    &&& match key.code {
        KeyCode::Esc => {
            &&& !n.search.active
            &&& n.search.buffer@.len() == 0
            &&& n.filter.text@.len() == 0
            &&& n.filter.from == o.filter.from
            &&& n.filter.to == o.filter.to
            &&& n.filter.selections == o.filter.selections
            &&& !n.pending_dirty
            &&& refreshed(o, n, b)
        },
        KeyCode::Enter => {
            &&& !n.search.active
            &&& n.search.buffer == o.search.buffer
            &&& n.filter.text@ == o.search.buffer@
            &&& n.filter.from == o.filter.from
            &&& n.filter.to == o.filter.to
            &&& n.filter.selections == o.filter.selections
            &&& !n.pending_dirty
            &&& refreshed(o, n, b)
        },
        KeyCode::Backspace => {
            &&& n.search.active == o.search.active
            &&& n.search.buffer@ == drop_last_if_any(o.search.buffer@)
            &&& same_data(o, n)
        },
        KeyCode::Char(c) => {
            &&& n.search.active == o.search.active
            &&& n.search.buffer@ == o.search.buffer@.push(c)
            &&& same_data(o, n)
        },
        _ => n.search == o.search && same_data(o, n),
    }
}

/// A key press while the export menu is open: Esc closes it, Up/`k` and
/// Down/`j` move, Enter closes it and asks for the export under the cursor.
pub open spec fn export_step(o: App, key: KeyEvent, n: App, eff: Effect) -> bool {
    &&& n.format == o.format
    &&& n.events == o.events
    &&& n.focus == o.focus
    &&& n.show_help == o.show_help
    &&& n.show_daterange == o.show_daterange
    &&& n.date_modal == o.date_modal
    &&& n.search == o.search
    &&& n.loading == o.loading
    &&& n.cancelled == o.cancelled
    &&& n.auto_tail == o.auto_tail
    &&& n.panes == o.panes
    &&& n.quit == o.quit
    &&& same_data(o, n)
    &&& match key.code {
        KeyCode::Esc => !n.show_export && n.export_menu == o.export_menu && eff == Effect::Nothing,
        KeyCode::Up | KeyCode::Char('k') => {
            &&& n.show_export == o.show_export
            &&& n.export_menu.cursor == if o.export_menu.cursor > 0 {
                (o.export_menu.cursor - 1) as usize
            } else {
                o.export_menu.cursor
            }
            &&& eff == Effect::Nothing
        },
        KeyCode::Down | KeyCode::Char('j') => {
            &&& n.show_export == o.show_export
            &&& n.export_menu.cursor == if o.export_menu.cursor + 1 < 2 {
                (o.export_menu.cursor + 1) as usize
            } else {
                o.export_menu.cursor
            }
            &&& eff == Effect::Nothing
        },
        KeyCode::Enter => {
            &&& !n.show_export
            &&& n.export_menu == o.export_menu
            &&& eff == Effect::Export(
                choices()[if o.export_menu.cursor < 1 {
                    o.export_menu.cursor as int
                } else {
                    1
                }],
            )
        },
        _ => n.show_export == o.show_export && n.export_menu == o.export_menu && eff
            == Effect::Nothing,
    }
}

/// All but the date dialog, its visibility, the filter, the visible data
/// and the dirty flag are as in `o`.
pub open spec fn same_around_dates(o: App, n: App) -> bool {
    &&& n.format == o.format
    &&& n.events == o.events
    &&& n.focus == o.focus
    &&& n.show_help == o.show_help
    &&& n.show_export == o.show_export
    &&& n.export_menu == o.export_menu
    &&& n.search == o.search
    &&& n.loading == o.loading
    &&& n.cancelled == o.cancelled
    &&& n.auto_tail == o.auto_tail
    &&& n.panes == o.panes
    &&& n.quit == o.quit
}

/// A key press while the date dialog is open. On the presets: Esc closes,
/// Up/`k` and Down/`j` move, Enter opens the custom form on "Custom" and
/// otherwise applies the preset's range seen from `now`. On the custom
/// form: Esc goes back, Tab/BackTab/Up/Down switch input, Enter applies
/// the typed range when it reads (else shows why not), Backspace and
/// characters edit. Applying closes the dialog and recomputes at once.
/// A key press on the date presets: Esc closes, Up/`k` and Down/`j` move,
/// Enter opens the custom form on "Custom" and otherwise applies the
/// preset's range seen from `now`, closing the dialog and recomputing.
/// The bounds a preset sets seen from `now`; without a clock reading only
/// "All time" (which needs none) has bounds.
pub open spec fn preset_bounds(p: Preset, now: Option<Timestamp>) -> Option<(Option<Timestamp>, Option<Timestamp>)> {
    match now {
        Some(t) => Some(preset_range(p, t)),
        None => if p == Preset::All {
            Some((None, None))
        } else {
            None
        },
    }
}

/// Enter on the presets: "Custom" opens the custom form; another preset
/// applies its range seen from `now`, closing the dialog and recomputing,
/// unless it needs a clock reading and there is none, when nothing changes.
pub open spec fn preset_enter_step(o: App, now: Option<Timestamp>, b: Option<Seq<u8>>, n: App) -> bool {
    let m = mv(o.date_modal);
    let p = presets()[m.0 as int];
    if p == Preset::Custom {
        &&& n.show_daterange == o.show_daterange
        &&& same_data(o, n)
        &&& mv(n.date_modal) == (m.0, Mode::Custom, CustomField::From, m.3, m.4, None::<Seq<char>>)
    } else {
        match preset_bounds(p, now) {
            Some(bounds) => {
                &&& !n.show_daterange
                &&& n.date_modal == o.date_modal
                &&& bounds_set(o, n, bounds.0, bounds.1)
                &&& !n.pending_dirty
                &&& refreshed(o, n, b)
            },
            None => {
                &&& n.show_daterange == o.show_daterange
                &&& n.date_modal == o.date_modal
                &&& same_data(o, n)
            },
        }
    }
}

pub open spec fn presets_step(o: App, key: KeyEvent, now: Option<Timestamp>, b: Option<Seq<u8>>, n: App) -> bool {
    let m = mv(o.date_modal);
    match key.code {
        KeyCode::Esc => !n.show_daterange && n.date_modal == o.date_modal && same_data(o, n),
        KeyCode::Up | KeyCode::Char('k') => {
            &&& n.show_daterange == o.show_daterange
            &&& same_data(o, n)
            &&& mv(n.date_modal) == (
                if m.0 > 0 {
                    (m.0 - 1) as usize
                } else {
                    m.0
                },
                m.1,
                m.2,
                m.3,
                m.4,
                m.5,
            )
        },
        KeyCode::Down | KeyCode::Char('j') => {
            &&& n.show_daterange == o.show_daterange
            &&& same_data(o, n)
            &&& mv(n.date_modal) == (
                if m.0 + 1 < 6 {
                    (m.0 + 1) as usize
                } else {
                    m.0
                },
                m.1,
                m.2,
                m.3,
                m.4,
                m.5,
            )
        },
        KeyCode::Enter => preset_enter_step(o, now, b, n),
        _ => n.show_daterange == o.show_daterange && n.date_modal == o.date_modal && same_data(o, n),
    }
}

/// A key press on the custom date form: Esc goes back to the presets,
/// Tab/BackTab/Up/Down switch input, Enter applies the typed range when it
/// reads (closing the dialog and recomputing) and else shows why not,
/// Backspace and characters edit the active input.
pub open spec fn custom_step(o: App, key: KeyEvent, b: Option<Seq<u8>>, n: App) -> bool {
    let m = mv(o.date_modal);
    match key.code {
        KeyCode::Esc => {
            &&& n.show_daterange == o.show_daterange
            &&& same_data(o, n)
            &&& mv(n.date_modal) == (m.0, Mode::Presets, m.2, m.3, m.4, None::<Seq<char>>)
        },
        KeyCode::Tab | KeyCode::BackTab | KeyCode::Up | KeyCode::Down => {
            &&& n.show_daterange == o.show_daterange
            &&& same_data(o, n)
            &&& mv(n.date_modal) == (
                m.0,
                m.1,
                match m.2 {
                    CustomField::From => CustomField::To,
                    CustomField::To => CustomField::From,
                },
                m.3,
                m.4,
                m.5,
            )
        },
        KeyCode::Enter => match custom_range(m.3, m.4) {
            Ok(range) => {
                &&& !n.show_daterange
                &&& mv(n.date_modal) == (m.0, m.1, m.2, m.3, m.4, None::<Seq<char>>)
                &&& bounds_set(o, n, range.0, range.1)
                &&& !n.pending_dirty
                &&& refreshed(o, n, b)
            },
            Err(msg) => {
                &&& n.show_daterange == o.show_daterange
                &&& mv(n.date_modal) == (m.0, m.1, m.2, m.3, m.4, Some(msg))
                &&& same_data(o, n)
            },
        },
        KeyCode::Backspace => {
            &&& n.show_daterange == o.show_daterange
            &&& same_data(o, n)
            &&& mv(n.date_modal) == (
                m.0,
                m.1,
                m.2,
                if m.2 == CustomField::From {
                    drop_last_if_any(m.3)
                } else {
                    m.3
                },
                if m.2 == CustomField::To {
                    drop_last_if_any(m.4)
                } else {
                    m.4
                },
                None::<Seq<char>>,
            )
        },
        KeyCode::Char(c) => {
            &&& n.show_daterange == o.show_daterange
            &&& same_data(o, n)
            &&& mv(n.date_modal) == (
                m.0,
                m.1,
                m.2,
                if m.2 == CustomField::From {
                    m.3.push(c)
                } else {
                    m.3
                },
                if m.2 == CustomField::To {
                    m.4.push(c)
                } else {
                    m.4
                },
                None::<Seq<char>>,
            )
        },
        _ => n.show_daterange == o.show_daterange && n.date_modal == o.date_modal && same_data(o, n),
    }
}

/// A key press while the date dialog is open.
pub open spec fn date_step(o: App, key: KeyEvent, now: Option<Timestamp>, b: Option<Seq<u8>>, n: App) -> bool {
    &&& same_around_dates(o, n)
    &&& match o.date_modal.mode {
        Mode::Presets => presets_step(o, key, now, b, n),
        Mode::Custom => custom_step(o, key, b, n),
    }
}

impl App {
    fn force_recompute(&mut self, source: Option<&[u8]>)
        requires
            old(self).wf(
                match source {
                    Some(s) => Some(s@),
                    None => None,
                },
            ),
        ensures
            final(self).wf(
                match source {
                    Some(s) => Some(s@),
                    None => None,
                },
            ),
            refreshed(
                *old(self),
                *final(self),
                match source {
                    Some(s) => Some(s@),
                    None => None,
                },
            ),
            !final(self).pending_dirty,
            same_outside(*old(self), *final(self)),
            final(self).filter == old(self).filter,
            final(self).search == old(self).search,
    {
        self.pending_dirty = false;
        self.recompute(source);
    }

    #[verifier::spinoff_prover]
    #[verifier::rlimit(60)]
    fn key_search(&mut self, key: KeyEvent, source: Option<&[u8]>) -> (eff: Effect)
        requires
            old(self).wf(
                match source {
                    Some(s) => Some(s@),
                    None => None,
                },
            ),
        ensures
            final(self).wf(
                match source {
                    Some(s) => Some(s@),
                    None => None,
                },
            ),
            search_step(
                *old(self),
                key,
                match source {
                    Some(s) => Some(s@),
                    None => None,
                },
                *final(self),
                eff,
            ),
    {
        match key.code {
            KeyCode::Esc => {
                self.search.active = false;
                self.search.clear();
                self.filter.text = String::new();
                self.force_recompute(source);
            },
            KeyCode::Enter => {
                self.filter.text = self.search.buffer.clone();
                self.search.active = false;
                self.force_recompute(source);
            },
            KeyCode::Backspace => {
                self.search.backspace();
            },
            KeyCode::Char(c) => {
                self.search.push(c);
            },
            _ => {},
        }
        Effect::Nothing
    }

    fn key_export(&mut self, key: KeyEvent) -> (eff: Effect)
        ensures
            export_step(*old(self), key, *final(self), eff),
    {
        match key.code {
            KeyCode::Esc => {
                self.show_export = false;
                Effect::Nothing
            },
            KeyCode::Up | KeyCode::Char('k') => {
                self.export_menu.up();
                Effect::Nothing
            },
            KeyCode::Down | KeyCode::Char('j') => {
                self.export_menu.down();
                Effect::Nothing
            },
            KeyCode::Enter => {
                let choice = self.export_menu.selected();
                self.show_export = false;
                Effect::Export(choice)
            },
            _ => Effect::Nothing,
        }
    }

    fn apply_range(&mut self, from: Option<Timestamp>, to: Option<Timestamp>, source: Option<&[u8]>)
        requires
            old(self).wf(
                match source {
                    Some(s) => Some(s@),
                    None => None,
                },
            ),
            from matches Some(x) ==> x.wf(),
            to matches Some(y) ==> y.wf(),
        ensures
            final(self).wf(
                match source {
                    Some(s) => Some(s@),
                    None => None,
                },
            ),
            same_around_dates(*old(self), *final(self)),
            !final(self).show_daterange,
            final(self).date_modal == old(self).date_modal,
            bounds_set(*old(self), *final(self), from, to),
            !final(self).pending_dirty,
            refreshed(
                *old(self),
                *final(self),
                match source {
                    Some(s) => Some(s@),
                    None => None,
                },
            ),
    {
        self.filter.from = from;
        self.filter.to = to;
        self.show_daterange = false;
        self.force_recompute(source);
    }

    #[verifier::spinoff_prover]
    #[verifier::spinoff_prover]
    fn preset_enter(&mut self, now: Option<Timestamp>, source: Option<&[u8]>)
        requires
            old(self).wf(
                match source {
                    Some(s) => Some(s@),
                    None => None,
                },
            ),
            now matches Some(t) ==> reference_ok(t),
        ensures
            final(self).wf(
                match source {
                    Some(s) => Some(s@),
                    None => None,
                },
            ),
            same_around_dates(*old(self), *final(self)),
            preset_enter_step(
                *old(self),
                now,
                match source {
                    Some(s) => Some(s@),
                    None => None,
                },
                *final(self),
            ),
    {
        let p = self.date_modal.selected();
        if p == Preset::Custom {
            self.date_modal.enter_custom();
        } else {
            match now {
                Some(t) => {
                    let (from, to) = p.range(t);
                    self.apply_range(from, to, source);
                },
                None => {
                    if p == Preset::All {
                        self.apply_range(None, None, source);
                    }
                },
            }
        }
    }

    fn key_presets(&mut self, key: KeyEvent, now: Option<Timestamp>, source: Option<&[u8]>)
        requires
            old(self).wf(
                match source {
                    Some(s) => Some(s@),
                    None => None,
                },
            ),
            now matches Some(t) ==> reference_ok(t),
        ensures
            final(self).wf(
                match source {
                    Some(s) => Some(s@),
                    None => None,
                },
            ),
            same_around_dates(*old(self), *final(self)),
            presets_step(
                *old(self),
                key,
                now,
                match source {
                    Some(s) => Some(s@),
                    None => None,
                },
                *final(self),
            ),
    {
        match key.code {
            KeyCode::Esc => {
                self.show_daterange = false;
            },
            KeyCode::Up | KeyCode::Char('k') => {
                self.date_modal.up();
            },
            KeyCode::Down | KeyCode::Char('j') => {
                self.date_modal.down();
            },
            KeyCode::Enter => self.preset_enter(now, source),
            _ => {},
        }
    }

    #[verifier::spinoff_prover]
    fn key_custom(&mut self, key: KeyEvent, source: Option<&[u8]>)
        requires
            old(self).wf(
                match source {
                    Some(s) => Some(s@),
                    None => None,
                },
            ),
        ensures
            final(self).wf(
                match source {
                    Some(s) => Some(s@),
                    None => None,
                },
            ),
            same_around_dates(*old(self), *final(self)),
            custom_step(
                *old(self),
                key,
                match source {
                    Some(s) => Some(s@),
                    None => None,
                },
                *final(self),
            ),
    {
        match key.code {
            KeyCode::Esc => {
                self.date_modal.exit_custom();
            },
            KeyCode::Tab | KeyCode::BackTab | KeyCode::Up | KeyCode::Down => {
                self.date_modal.toggle_field();
            },
            KeyCode::Enter => {
                if let Some((from, to)) = self.date_modal.parse_custom() {
                    self.apply_range(from, to, source);
                }
            },
            KeyCode::Backspace => {
                self.date_modal.backspace();
            },
            KeyCode::Char(c) => {
                self.date_modal.push(c);
            },
            _ => {},
        }
    }
}

/// How many rows the focused list has.
pub open spec fn cursor_len(o: App) -> nat {
    match o.focus {
        Focus::Events => o.visible@.len(),
        Focus::Facets => values_total(o.facets.groups@),
    }
}

/// Where the focused list's cursor is.
pub open spec fn cursor_of(o: App) -> int {
    match o.focus {
        Focus::Events => o.event_cursor as int,
        Focus::Facets => o.facet_cursor.flat as int,
    }
}

/// `n` is `o` with the focused list's cursor put at `target`, kept within
/// the list; an empty list keeps its cursor.
pub open spec fn placed(o: App, n: App, target: int) -> bool {
    let len = cursor_len(o);
    match o.focus {
        Focus::Events => n == App {
            event_cursor: if len == 0 {
                o.event_cursor
            } else {
                clamp(target, 0, len - 1) as usize
            },
            ..o
        },
        Focus::Facets => n == App {
            facet_cursor: FacetCursor {
                flat: if len == 0 {
                    o.facet_cursor.flat
                } else {
                    clamp(target, 0, len - 1) as usize
                },
            },
            ..o
        },
    }
}

/// `n` is `o` after a recompute that keeps everything but the visible
/// data, with filter `f`, search box `sb`, following flag `tail`.
pub open spec fn recomputed_with(o: App, n: App, f: Filter, sb: InputBox, tail: bool, b: Option<Seq<u8>>) -> bool {
    &&& n == App {
        filter: f,
        search: sb,
        auto_tail: tail,
        pending_dirty: false,
        visible: n.visible,
        facets: n.facets,
        event_cursor: n.event_cursor,
        facet_cursor: n.facet_cursor,
        ..o
    }
    &&& refreshed(o, n, b)
}

/// What an action does outside any overlay.
pub open spec fn action_step(o: App, a: Action, b: Option<Seq<u8>>, n: App) -> bool {
    match a {
        Action::Quit => n == App { quit: true, ..o },
        Action::Help => n == App { show_help: !o.show_help, ..o },
        Action::FocusFacets => n == App { focus: Focus::Facets, ..o },
        Action::FocusEvents => n == App { focus: Focus::Events, ..o },
        Action::OpenSearch => {
            &&& n == App { search: n.search, ..o }
            &&& n.search.active
            &&& n.search.buffer@ == o.filter.text@
            &&& n.search.title == o.search.title
        },
        Action::OpenDateRange => n == App { show_daterange: true, ..o },
        Action::OpenDetail => n == o,
        Action::CloseOverlay => n == App {
            show_help: false,
            show_daterange: false,
            show_export: false,
            ..o
        },
        Action::ResetFilters => {
            &&& recomputed_with(o, n, n.filter, n.search, true, b)
            &&& n.filter.wf()
            &&& n.filter.spec_is_empty()
            &&& n.filter.text@.len() == 0
            &&& n.filter.from is None && n.filter.to is None
            &&& n.filter.selections.view_sel().len() == 0
            &&& n.search.buffer@.len() == 0
            &&& n.search.title == o.search.title
            &&& n.search.active == o.search.active
        },
        Action::Up | Action::Down | Action::PageUp | Action::PageDown | Action::Top => {
            let delta: int = match a {
                Action::Up => -1,
                Action::Down => 1,
                Action::PageUp => -10,
                Action::PageDown => 10,
                _ => 0,
            };
            let target = if a == Action::Top {
                0
            } else {
                cursor_of(o) + delta
            };
            let m = App {
                auto_tail: if o.focus == Focus::Events {
                    false
                } else {
                    o.auto_tail
                },
                ..o
            };
            placed(m, n, target)
        },
        Action::Bottom => {
            let m = App {
                auto_tail: if o.focus == Focus::Events {
                    true
                } else {
                    o.auto_tail
                },
                ..o
            };
            placed(m, n, isize::MAX as int)
        },
        Action::ToggleSelection => {
            let gs = o.facets.groups@;
            if exists|g: int, v: int| at_value(gs, o.facet_cursor.flat as int, g, v) {
                let (g, v) = choose|g: int, v: int| at_value(gs, o.facet_cursor.flat as int, g, v);
                &&& recomputed_with(o, n, n.filter, o.search, o.auto_tail, b)
                &&& toggled(o.filter, n.filter, gs[g].key@, gs[g].values@[v].0@)
            } else {
                n == o
            }
        },
        Action::ExportFacet => n == App { export_menu: ExportMenu { cursor: 0 }, show_export: true, ..o },
        Action::SwitchFocus => n == App {
            focus: if o.focus == Focus::Events {
                Focus::Facets
            } else {
                Focus::Events
            },
            ..o
        },
        Action::ToggleFollow => n == App {
            auto_tail: !o.auto_tail,
            event_cursor: if !o.auto_tail && o.visible@.len() > 0 {
                (o.visible@.len() - 1) as usize
            } else {
                o.event_cursor
            },
            ..o
        },
        Action::Yank => n == o,
        Action::Resize => n == App { panes: Panes { resizing: true, ..o.panes }, ..o },
        Action::Correlate => match correlate_id(o, b) {
            Some(id) => {
                &&& recomputed_with(o, n, n.filter, n.search, o.auto_tail, b)
                &&& n.filter.text@ == id
                &&& n.filter.from == o.filter.from
                &&& n.filter.to == o.filter.to
                &&& n.filter.selections == o.filter.selections
                &&& n.search.buffer@ == id
                &&& n.search.title == o.search.title
                &&& n.search.active == o.search.active
            },
            None => n == o,
        },
    }
}

/// The event under the event cursor, as an index into the events.
pub open spec fn cursor_event(o: App) -> Option<int> {
    if o.event_cursor < o.visible@.len() {
        Some(o.visible@[o.event_cursor as int] as int)
    } else {
        None
    }
}

/// The text of event `ev`'s line as the viewer shows it.
pub open spec fn line_chars(b: Seq<u8>, ev: LogEvent) -> Seq<char> {
    text_of(
        b,
        ev.offset as int,
        if ev.offset + ev.len <= b.len() {
            ev.offset + ev.len
        } else {
            b.len() as int
        },
    )
}

/// The correlation id of the event under the cursor, read from its fields
/// and its line, when the file is at hand.
pub open spec fn correlate_id(o: App, b: Option<Seq<u8>>) -> Option<Seq<char>> {
    match b {
        Some(bytes) => match cursor_event(o) {
            Some(i) => extract_spec(o.events@[i].fields.pairs(), line_chars(bytes, o.events@[i])),
            None => None,
        },
        None => None,
    }
}

/// `f2` is `f` with value `v` of group `g` selected if it was not, and
/// unselected if it was.
pub open spec fn toggled(f: Filter, f2: Filter, g: Seq<char>, v: Seq<char>) -> bool {
    &&& f2.wf()
    &&& f2.text == f.text
    &&& f2.from == f.from
    &&& f2.to == f.to
    &&& forall|g2: Seq<char>, v2: Seq<char>|
        #[trigger] selected(f2.selections.view_sel(), g2, v2) == if g2 == g && v2 == v {
            !selected(f.selections.view_sel(), g2, v2)
        } else {
            selected(f.selections.view_sel(), g2, v2)
        }
}

/// What a key press does: the open search box, export menu, date dialog or
/// resize mode takes it first; otherwise it is read as an action, Esc while
/// loading asks to stop the load, and `y` asks to copy the selected line.
pub open spec fn key_step(o: App, key: KeyEvent, now: Option<Timestamp>, b: Option<Seq<u8>>, n: App, eff: Effect) -> bool {
    if o.search.active {
        search_step(o, key, b, n, eff)
    } else if o.show_export {
        export_step(o, key, n, eff)
    } else if o.show_daterange {
        date_step(o, key, now, b, n) && eff == Effect::Nothing
    } else if o.panes.resizing {
        n == App { panes: resized(o.panes, key.code), ..o } && eff == Effect::Nothing
    } else {
        match key_action(key) {
            None => n == o && eff == Effect::Nothing,
            Some(a) => if o.loading && a == Action::CloseOverlay {
                n == o && eff == Effect::CancelLoad
            } else {
                action_step(o, a, b, n) && eff == if a == Action::Yank {
                    Effect::Yank
                } else {
                    Effect::Nothing
                }
            },
        }
    }
}

/// The event lies within a file of `file_len` bytes (any event, without
/// the file).
pub open spec fn within_file(ev: LogEvent, file_len: Option<usize>) -> bool {
    match file_len {
        Some(n) => ev.offset <= n,
        None => true,
    }
}

/// The events of `s` that lie within the file, in order.
pub open spec fn kept_events(s: Seq<LogEvent>, file_len: Option<usize>) -> Seq<LogEvent>
    decreases s.len(),
{
    if s.len() == 0 {
        Seq::empty()
    } else {
        let k = kept_events(s.drop_last(), file_len);
        if within_file(s.last(), file_len) {
            k.push(s.last())
        } else {
            k
        }
    }
}

impl App {
    fn disable_tail_on_events(&mut self)
        ensures
            *final(self) == (App {
                auto_tail: if old(self).focus == Focus::Events {
                    false
                } else {
                    old(self).auto_tail
                },
                ..*old(self)
            }),
    {
        if self.focus == Focus::Events {
            self.auto_tail = false;
        }
    }

    /// Moves the focused list's cursor by `delta`, within the list.
    pub fn move_cursor(&mut self, delta: isize)
        requires
            values_total(old(self).facets.groups@) <= usize::MAX,
        ensures
            placed(*old(self), *final(self), cursor_of(*old(self)) + delta),
    {
        match self.focus {
            Focus::Events => {
                let len = self.visible.len();
                if len == 0 {
                    return;
                }
                let hi = (len - 1) as i128;
                let x = self.event_cursor as i128 + delta as i128;
                let c = if x < 0 {
                    0
                } else if x > hi {
                    hi
                } else {
                    x
                };
                self.event_cursor = c as usize;
            },
            Focus::Facets => {
                let total = FacetCursor::total(&self.facets);
                if total == 0 {
                    return;
                }
                let hi = (total - 1) as i128;
                let x = self.facet_cursor.flat as i128 + delta as i128;
                let c = if x < 0 {
                    0
                } else if x > hi {
                    hi
                } else {
                    x
                };
                self.facet_cursor.flat = c as usize;
            },
        }
    }

    /// Puts the focused list's cursor at `target`, within the list.
    pub fn jump(&mut self, target: isize)
        requires
            values_total(old(self).facets.groups@) <= usize::MAX,
        ensures
            placed(*old(self), *final(self), target as int),
    {
        let t = target as i128;
        match self.focus {
            Focus::Events => {
                let len = self.visible.len();
                if len == 0 {
                    return;
                }
                let hi = (len - 1) as i128;
                let c = if t < 0 {
                    0
                } else if t > hi {
                    hi
                } else {
                    t
                };
                self.event_cursor = c as usize;
            },
            Focus::Facets => {
                let total = FacetCursor::total(&self.facets);
                if total == 0 {
                    return;
                }
                let hi = (total - 1) as i128;
                let c = if t < 0 {
                    0
                } else if t > hi {
                    hi
                } else {
                    t
                };
                self.facet_cursor.flat = c as usize;
            },
        }
    }

    /// The group the facet cursor is in, if it is on a value.
    pub fn focused_group_key(&self) -> (r: Option<String>)
        requires
            values_total(self.facets.groups@) <= 350,
        ensures
            match r {
                Some(k) => exists|g: int, v: int|
                    at_value(self.facets.groups@, self.facet_cursor.flat as int, g, v) && k@
                        == self.facets.groups@[g].key@,
                None => forall|g: int, v: int| !at_value(self.facets.groups@, self.facet_cursor.flat as int, g, v),
            },
    {
        match self.facet_cursor.locate(&self.facets) {
            Some((g, v)) => {
                assert(at_value(self.facets.groups@, self.facet_cursor.flat as int, g as int, v as int));
                Some(self.facets.groups[g].key.clone())
            },
            None => {
                proof {
                    let gs = self.facets.groups@;
                    assert forall|g2: int, v2: int| !at_value(gs, self.facet_cursor.flat as int, g2, v2) by {
                        if at_value(gs, self.facet_cursor.flat as int, g2, v2) {
                            crate::ui::facets_panel::lemma_prefix_mono(gs, g2 + 1, gs.len() as int);
                            crate::ui::facets_panel::lemma_values_total_prefix(gs, g2);
                            assert(gs.take(gs.len() as int) =~= gs);
                        }
                    }
                }
                None
            },
        }
    }

    /// Selects or unselects the facet value under the cursor and
    /// recomputes; off any value, does nothing.
    #[verifier::spinoff_prover]
    fn toggle_facet(&mut self, source: Option<&[u8]>)
        requires
            old(self).wf(
                match source {
                    Some(s) => Some(s@),
                    None => None,
                },
            ),
        ensures
            final(self).wf(
                match source {
                    Some(s) => Some(s@),
                    None => None,
                },
            ),
            action_step(
                *old(self),
                Action::ToggleSelection,
                match source {
                    Some(s) => Some(s@),
                    None => None,
                },
                *final(self),
            ),
    {
        let ghost gs = self.facets.groups@;
        match self.facet_cursor.locate(&self.facets) {
            None => {
                proof {
                    assert forall|g2: int, v2: int| !at_value(gs, self.facet_cursor.flat as int, g2, v2) by {
                        if at_value(gs, self.facet_cursor.flat as int, g2, v2) {
                            crate::ui::facets_panel::lemma_prefix_mono(gs, g2 + 1, gs.len() as int);
                            crate::ui::facets_panel::lemma_values_total_prefix(gs, g2);
                            assert(gs.take(gs.len() as int) =~= gs);
                        }
                    }
                }
            },
            Some((g, v)) => {
                proof {
                    assert(at_value(gs, self.facet_cursor.flat as int, g as int, v as int));
                    let (g2, v2) = choose|g2: int, v2: int| at_value(gs, self.facet_cursor.flat as int, g2, v2);
                    lemma_at_value_unique(gs, self.facet_cursor.flat as int, g as int, v as int, g2, v2);
                }
                let value = self.facets.groups[g].values[v].0.clone();
                let key = self.facets.groups[g].key.clone();
                self.filter.toggle(key.as_str(), value.as_str());
                self.force_recompute(source);
            },
        }
    }
}

/// What an export needs, or why it cannot run.
#[derive(Debug, Clone)]
pub enum ExportPlan {
    /// The full table of this facet group.
    Group(String),
    /// The visible lines.
    Filtered,
    /// The message to show instead.
    Refuse(&'static str),
}

pub const MSG_NO_GROUP: &'static str = "export: move cursor onto a facet value (press f, then j/k)";

pub const MSG_NO_SOURCE: &'static str = "export: log source not ready yet";

pub const MSG_NOTHING: &'static str = "export: nothing visible to export";

impl App {
    /// Handles a key press; `now` is the current time, `source` the file's
    /// bytes once they are at hand.
    #[verifier::spinoff_prover]
    pub fn handle_key(&mut self, key: KeyEvent, now: Option<Timestamp>, source: Option<&[u8]>) -> (eff: Effect)
        requires
            old(self).wf(
                match source {
                    Some(s) => Some(s@),
                    None => None,
                },
            ),
            now matches Some(t) ==> reference_ok(t),
        ensures
            final(self).wf(
                match source {
                    Some(s) => Some(s@),
                    None => None,
                },
            ),
            key_step(
                *old(self),
                key,
                now,
                match source {
                    Some(s) => Some(s@),
                    None => None,
                },
                *final(self),
                eff,
            ),
    {
        if self.search.active {
            return self.key_search(key, source);
        }
        if self.show_export {
            return self.key_export(key);
        }
        if self.show_daterange {
            match self.date_modal.mode {
                Mode::Presets => self.key_presets(key, now, source),
                Mode::Custom => self.key_custom(key, source),
            }
            return Effect::Nothing;
        }
        if self.panes.resizing {
            self.key_resize(key);
            return Effect::Nothing;
        }
        let action = match KeyMap::map(key) {
            Some(a) => a,
            None => {
                return Effect::Nothing;
            },
        };
        if self.loading && action == Action::CloseOverlay {
            return Effect::CancelLoad;
        }
        self.act(action, source);
        if action == Action::Yank {
            Effect::Yank
        } else {
            Effect::Nothing
        }
    }

    fn key_resize(&mut self, key: KeyEvent)
        ensures
            *final(self) == (App { panes: resized(old(self).panes, key.code), ..*old(self) }),
    {
        match key.code {
            KeyCode::Esc => {
                self.panes.resizing = false;
            },
            KeyCode::Left => {
                self.panes.facets_pct = adjust_pct(self.panes.facets_pct, false);
            },
            KeyCode::Right => {
                self.panes.facets_pct = adjust_pct(self.panes.facets_pct, true);
            },
            KeyCode::Up => {
                self.panes.events_pct = adjust_pct(self.panes.events_pct, false);
            },
            KeyCode::Down => {
                self.panes.events_pct = adjust_pct(self.panes.events_pct, true);
            },
            _ => {},
        }
    }

    /// The line of the event under the event cursor, if there is one.
    pub fn selected_line<'a>(&self, source: &'a [u8]) -> (r: Option<&'a str>)
        requires
            self.wf(Some(source@)),
        ensures
            match cursor_event(*self) {
                Some(i) => r matches Some(t) && t@ == line_chars(source@, self.events@[i]),
                None => r is None,
            },
    {
        if self.event_cursor < self.visible.len() {
            let i = self.visible[self.event_cursor] as usize;
            let ev = &self.events[i];
            Some(line_text(source, ev.offset, ev.len))
        } else {
            None
        }
    }

    #[verifier::spinoff_prover]
    fn act_correlate(&mut self, source: Option<&[u8]>)
        requires
            old(self).wf(
                match source {
                    Some(s) => Some(s@),
                    None => None,
                },
            ),
        ensures
            final(self).wf(
                match source {
                    Some(s) => Some(s@),
                    None => None,
                },
            ),
            action_step(
                *old(self),
                Action::Correlate,
                match source {
                    Some(s) => Some(s@),
                    None => None,
                },
                *final(self),
            ),
    {
        let bytes = match source {
            Some(s) => s,
            None => {
                return;
            },
        };
        if self.event_cursor >= self.visible.len() {
            return;
        }
        let i = self.visible[self.event_cursor] as usize;
        let found = {
            let ev = &self.events[i];
            let raw = line_text(bytes, ev.offset, ev.len);
            extract(ev, raw)
        };
        let id = match found {
            Some(id) => id,
            None => {
                return;
            },
        };
        self.search.buffer = id.clone();
        self.filter.text = id;
        self.force_recompute(source);
    }

    fn act(&mut self, action: Action, source: Option<&[u8]>)
        requires
            old(self).wf(
                match source {
                    Some(s) => Some(s@),
                    None => None,
                },
            ),
        ensures
            final(self).wf(
                match source {
                    Some(s) => Some(s@),
                    None => None,
                },
            ),
            action_step(
                *old(self),
                action,
                match source {
                    Some(s) => Some(s@),
                    None => None,
                },
                *final(self),
            ),
    {
        match action {
            Action::ResetFilters => self.act_reset(source),
            Action::Up | Action::Down | Action::PageUp | Action::PageDown | Action::Top
            | Action::Bottom => self.act_move(action),
            Action::ToggleSelection => self.toggle_facet(source),
            Action::Correlate => self.act_correlate(source),
            Action::SwitchFocus | Action::ToggleFollow | Action::Yank | Action::Resize => self.act_view(
                action,
            ),
            _ => self.act_simple(action),
        }
    }

    #[verifier::spinoff_prover]
    fn act_view(&mut self, action: Action)
        requires
            old(self).wf(None),
            action is SwitchFocus || action is ToggleFollow || action is Yank || action is Resize,
        ensures
            forall|b: Option<Seq<u8>>| old(self).wf(b) ==> #[trigger] final(self).wf(b),
            forall|b: Option<Seq<u8>>| #[trigger] action_step(*old(self), action, b, *final(self)),
    {
        match action {
            Action::SwitchFocus => {
                self.focus = match self.focus {
                    Focus::Events => Focus::Facets,
                    Focus::Facets => Focus::Events,
                };
            },
            Action::ToggleFollow => {
                if !self.auto_tail && self.visible.len() > 0 {
                    self.event_cursor = self.visible.len() - 1;
                }
                self.auto_tail = !self.auto_tail;
            },
            Action::Resize => {
                self.panes.resizing = true;
            },
            _ => {},
        }
    }

    #[verifier::spinoff_prover]
    fn act_simple(&mut self, action: Action)
        requires
            old(self).wf(None),
            old(self).filter.wf(),
            old(self).date_modal.wf(),
            action is Quit || action is Help || action is FocusFacets || action is FocusEvents
                || action is OpenSearch || action is OpenDateRange || action is OpenDetail
                || action is CloseOverlay || action is ExportFacet,
        ensures
            forall|b: Option<Seq<u8>>| old(self).wf(b) ==> #[trigger] final(self).wf(b),
            forall|b: Option<Seq<u8>>| #[trigger] action_step(*old(self), action, b, *final(self)),
    {
        match action {
            Action::Quit => {
                self.quit = true;
            },
            Action::Help => {
                self.show_help = !self.show_help;
            },
            Action::FocusFacets => {
                self.focus = Focus::Facets;
            },
            Action::FocusEvents => {
                self.focus = Focus::Events;
            },
            Action::OpenSearch => {
                self.search.active = true;
                self.search.buffer = self.filter.text.clone();
            },
            Action::OpenDateRange => {
                self.show_daterange = true;
            },
            Action::CloseOverlay => {
                self.show_help = false;
                self.show_daterange = false;
                self.show_export = false;
            },
            Action::ExportFacet => {
                self.export_menu = ExportMenu::default();
                self.show_export = true;
            },
            _ => {},
        }
    }

    #[verifier::spinoff_prover]
    fn act_reset(&mut self, source: Option<&[u8]>)
        requires
            old(self).wf(
                match source {
                    Some(s) => Some(s@),
                    None => None,
                },
            ),
        ensures
            final(self).wf(
                match source {
                    Some(s) => Some(s@),
                    None => None,
                },
            ),
            action_step(
                *old(self),
                Action::ResetFilters,
                match source {
                    Some(s) => Some(s@),
                    None => None,
                },
                *final(self),
            ),
    {
        self.filter.reset();
        self.search.clear();
        self.auto_tail = true;
        self.force_recompute(source);
    }

    #[verifier::spinoff_prover]
    fn act_move(&mut self, action: Action)
        requires
            old(self).wf(None),
            action is Up || action is Down || action is PageUp || action is PageDown || action is Top
                || action is Bottom,
        ensures
            forall|b: Option<Seq<u8>>| old(self).wf(b) ==> #[trigger] final(self).wf(b),
            forall|b: Option<Seq<u8>>| #[trigger] action_step(*old(self), action, b, *final(self)),
    {
        match action {
            Action::Up => {
                self.disable_tail_on_events();
                self.move_cursor(-1);
            },
            Action::Down => {
                self.disable_tail_on_events();
                self.move_cursor(1);
            },
            Action::PageUp => {
                self.disable_tail_on_events();
                self.move_cursor(-10);
            },
            Action::PageDown => {
                self.disable_tail_on_events();
                self.move_cursor(10);
            },
            Action::Top => {
                self.disable_tail_on_events();
                self.jump(0);
            },
            _ => {
                if self.focus == Focus::Events {
                    self.auto_tail = true;
                }
                self.jump(isize::MAX);
            },
        }
    }

    /// A click on row `index` of a list: the focus moves to that list and
    /// its cursor onto the row (the last row for a row past the end);
    /// clicking the events stops following the newest.
    pub fn click(&mut self, focus: Focus, index: usize)
        requires
            old(self).wf(None),
        ensures
            placed(
                App {
                    focus,
                    auto_tail: if focus == Focus::Events {
                        false
                    } else {
                        old(self).auto_tail
                    },
                    ..*old(self)
                },
                *final(self),
                index as int,
            ),
    {
        self.focus = focus;
        match focus {
            Focus::Events => {
                self.auto_tail = false;
                let len = self.visible.len();
                if len > 0 {
                    self.event_cursor = if index < len {
                        index
                    } else {
                        len - 1
                    };
                }
            },
            Focus::Facets => {
                let total = FacetCursor::total(&self.facets);
                if total > 0 {
                    self.facet_cursor = FacetCursor {
                        flat: if index < total {
                            index
                        } else {
                            total - 1
                        },
                    };
                }
            },
        }
    }

    /// A chunk from the loader, taken as far as the state can hold it: the
    /// events past the end of the file (of `file_len` bytes, when it is at
    /// hand) are dropped, and of the rest only as many as keep the count of
    /// events within `u32::MAX`. Says whether events were cut for the count.
    pub fn accept_chunk(&mut self, chunk: Vec<LogEvent>, file_len: Option<usize>) -> (cut: bool)
        requires
            old(self).events@.len() <= u32::MAX,
        ensures
            cut == (kept_events(chunk@, file_len).len() > u32::MAX - old(self).events@.len()),
            final(self).events@ == old(self).events@ + if cut {
                kept_events(chunk@, file_len).take(u32::MAX - old(self).events@.len())
            } else {
                kept_events(chunk@, file_len)
            },
            *final(self) == (App { events: final(self).events, pending_dirty: true, ..*old(self) }),
    {
        let ghost all = chunk@;
        let mut keep: Vec<LogEvent> = Vec::new();
        for ev in it: chunk
            invariant
                it.seq() == all,
                keep@ == kept_events(all.take(it.index() as int), file_len),
        {
            assert(all.take(it.index() + 1).drop_last() =~= all.take(it.index() as int));
            let inside = match file_len {
                Some(n) => ev.offset <= usize::MAX as u64 && ev.offset as usize <= n,
                None => true,
            };
            if inside {
                keep.push(ev);
            }
        }
        assert(all.take(all.len() as int) =~= all);
        let room = (u32::MAX as usize) - self.events.len();
        let cut = keep.len() > room;
        if cut {
            keep.truncate(room);
        }
        self.on_chunk(keep);
        cut
    }

    /// A chunk of parsed events arrived from the loader.
    pub fn on_chunk(&mut self, chunk: Vec<LogEvent>)
        requires
            old(self).events@.len() + chunk@.len() <= u32::MAX,
        ensures
            *final(self) == (App { events: final(self).events, pending_dirty: true, ..*old(self) }),
            final(self).events@ == old(self).events@ + chunk@,
    {
        let mut chunk = chunk;
        self.events.append(&mut chunk);
        self.pending_dirty = true;
    }

    /// The loader finished, stopped early when `cancelled`.
    pub fn on_done(&mut self, cancelled: bool)
        ensures
            *final(self) == (App { loading: false, cancelled: cancelled, pending_dirty: true, ..*old(self) }),
    {
        self.loading = false;
        self.cancelled = cancelled;
        self.pending_dirty = true;
    }

    /// The loader failed or went away.
    pub fn on_failed(&mut self)
        ensures
            *final(self) == (App { loading: false, ..*old(self) }),
    {
        self.loading = false;
    }

    /// Whether to recompute now: something changed, and either loading is
    /// over or the debounce interval has passed.
    pub fn should_recompute(&self, debounce_elapsed: bool) -> (r: bool)
        ensures
            r == (self.pending_dirty && (!self.loading || debounce_elapsed)),
    {
        self.pending_dirty && (!self.loading || debounce_elapsed)
    }

    /// Recomputes after a change and clears the change mark.
    pub fn settle(&mut self, source: Option<&[u8]>)
        requires
            old(self).wf(
                match source {
                    Some(s) => Some(s@),
                    None => None,
                },
            ),
        ensures
            final(self).wf(
                match source {
                    Some(s) => Some(s@),
                    None => None,
                },
            ),
            refreshed(
                *old(self),
                *final(self),
                match source {
                    Some(s) => Some(s@),
                    None => None,
                },
            ),
            !final(self).pending_dirty,
            same_outside(*old(self), *final(self)),
            final(self).filter == old(self).filter,
            final(self).search == old(self).search,
    {
        self.force_recompute(source);
    }

    /// What exporting `choice` takes: the focused facet group's key, or
    /// the visible lines; refused off any facet value, before the file is
    /// at hand, or with nothing visible.
    pub fn plan_export(&self, choice: ExportChoice, has_source: bool) -> (r: ExportPlan)
        requires
            values_total(self.facets.groups@) <= 350,
        ensures
            match choice {
                ExportChoice::FacetGroup => match r {
                    ExportPlan::Group(k) => exists|g: int, v: int|
                        at_value(self.facets.groups@, self.facet_cursor.flat as int, g, v) && k@
                            == self.facets.groups@[g].key@,
                    ExportPlan::Refuse(m) => m@ == MSG_NO_GROUP@ && forall|g: int, v: int|
                        !at_value(self.facets.groups@, self.facet_cursor.flat as int, g, v),
                    ExportPlan::Filtered => false,
                },
                ExportChoice::FilteredLog => if !has_source {
                    r matches ExportPlan::Refuse(m) && m@ == MSG_NO_SOURCE@
                } else if self.visible@.len() == 0 {
                    r matches ExportPlan::Refuse(m) && m@ == MSG_NOTHING@
                } else {
                    r is Filtered
                },
            },
    {
        match choice {
            ExportChoice::FacetGroup => match self.focused_group_key() {
                Some(k) => ExportPlan::Group(k),
                None => ExportPlan::Refuse(MSG_NO_GROUP),
            },
            ExportChoice::FilteredLog => {
                if !has_source {
                    ExportPlan::Refuse(MSG_NO_SOURCE)
                } else if self.visible.len() == 0 {
                    ExportPlan::Refuse(MSG_NOTHING)
                } else {
                    ExportPlan::Filtered
                }
            },
        }
    }
}

/// Selecting a facet value and then selecting it again gives back the
/// selection it started from, and the filter lets through exactly the
/// events it let through before.
pub proof fn law_toggle_twice(f0: Filter, f1: Filter, f2: Filter, g: Seq<char>, v: Seq<char>)
    requires
        f0.wf(),
        toggled(f0, f1, g, v),
        toggled(f1, f2, g, v),
    ensures
        forall|x: Seq<char>, y: Seq<char>|
            #[trigger] selected(f2.selections.view_sel(), x, y) == selected(f0.selections.view_sel(), x, y),
        forall|ev: crate::log::event::EventView, raw: Seq<char>|
            #[trigger] f2.spec_matches(ev, raw) == f0.spec_matches(ev, raw),
{
    let p0 = f0.selections.view_sel();
    let p2 = f2.selections.view_sel();
    assert forall|x: Seq<char>, y: Seq<char>| #[trigger] selected(p2, x, y) == selected(p0, x, y) by {
        assert(selected(f1.selections.view_sel(), x, y) == if x == g && y == v {
            !selected(p0, x, y)
        } else {
            selected(p0, x, y)
        });
    }
    assert forall|ev: crate::log::event::EventView, raw: Seq<char>| #[trigger] f2.spec_matches(ev, raw) == f0.spec_matches(ev, raw) by {
        lemma_selections_match_by_selected(p0, p2, ev);
    }
}

/// After a recompute with the file at hand, the event cursor is on a
/// visible row when there is one (the newest, when following it), and
/// the facet cursor is on a value when there is one.
pub proof fn law_cursor_after_refresh(o: App, n: App, b: Seq<u8>)
    requires
        refreshed(o, n, Some(b)),
        n.visible@.len() <= usize::MAX,
    ensures
        n.visible@.len() > 0 ==> n.event_cursor < n.visible@.len(),
        n.auto_tail && n.visible@.len() > 0 ==> n.event_cursor == n.visible@.len() - 1,
        values_total(n.facets.groups@) > 0 ==> n.facet_cursor.flat < values_total(n.facets.groups@),
{
}

/// Typing a character in a text input and erasing it gives back the text.
pub proof fn law_type_then_erase(text: Seq<char>, c: char)
    ensures
        drop_last_if_any(text.push(c)) == text,
{
    assert(text.push(c).drop_last() =~= text);
}

/// Resetting the filters (with the file at hand) shows every event again,
/// oldest first, the cursor on the newest.
pub proof fn law_reset_shows_all(o: App, n: App, b: Seq<u8>)
    requires
        action_step(o, Action::ResetFilters, Some(b), n),
        n.events@.len() <= u32::MAX,
    ensures
        n.visible@ == Seq::new(n.events@.len(), |i: int| (n.events@.len() - 1 - i) as u32),
        n.events@.len() > 0 ==> n.event_cursor == n.events@.len() - 1,
{
    law_empty_filter_shows_all(n.filter, n.events@, b, n.events@.len() as int);
}

} // verus!
