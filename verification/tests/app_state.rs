use lazylog::log::event::LogEvent;
use lazylog::log::format::LogFormat;
use lazylog::query::filter::Filter;
use lazylog::time::Timestamp;
use lazylog::ui::app::{
    adjust_pct, App, Effect, ExportPlan, Focus, MSG_NOTHING, MSG_NO_GROUP, MSG_NO_SOURCE,
};
use lazylog::ui::clipboard::{base64, clipboard_sequence};
use lazylog::ui::daterange::Mode;
use lazylog::ui::export_menu::ExportChoice;
use lazylog::ui::keys::{KeyCode, KeyEvent};

const NOW: Option<Timestamp> = Some(Timestamp {
    secs: 1_700_000_000,
    nanos: 0,
    offset: 0,
});

fn k(c: char) -> KeyEvent {
    KeyEvent {
        code: KeyCode::Char(c),
        ctrl: false,
    }
}

fn code(code: KeyCode) -> KeyEvent {
    KeyEvent { code, ctrl: false }
}

const BYTES: &[u8] = b"alpha one\nbeta two\ngamma three\n";

fn loaded() -> App {
    let mut evs = vec![
        LogEvent::unparsed(3, 19, 11, "gamma three"),
        LogEvent::unparsed(2, 10, 8, "beta two"),
        LogEvent::unparsed(1, 0, 9, "alpha one"),
    ];
    evs[0].fields.insert("status".to_string(), "500".to_string());
    evs[1].fields.insert("status".to_string(), "200".to_string());
    evs[2].fields.insert("status".to_string(), "200".to_string());
    let mut app = App::new(LogFormat::NginxAccess, Filter::new());
    app.on_chunk(evs);
    app.on_done(false);
    assert!(app.should_recompute(false));
    app.settle(Some(BYTES));
    app
}

#[test]
fn new_app_waits_for_the_loader() {
    let app = App::new(LogFormat::Generic, Filter::new());
    assert!(app.loading);
    assert!(app.auto_tail);
    assert_eq!(app.focus, Focus::Events);
    assert!(app.visible.is_empty());
    assert!(!app.should_recompute(true));
}

#[test]
fn loading_shows_everything_oldest_first() {
    let app = loaded();
    assert_eq!(app.visible, vec![2, 1, 0]);
    assert_eq!(app.event_cursor, 2);
    assert!(!app.pending_dirty);
    assert!(!app.loading);
    assert_eq!(app.facets.groups.len(), 1);
    assert_eq!(
        app.facets.groups[0].values,
        vec![("200".to_string(), 2), ("500".to_string(), 1)]
    );
}

#[test]
fn search_narrows_the_events() {
    let mut app = loaded();
    assert_eq!(app.handle_key(k('/'), NOW, Some(BYTES)), Effect::Nothing);
    assert!(app.search.active);
    for c in "BETA".chars() {
        app.handle_key(k(c), NOW, Some(BYTES));
    }
    app.handle_key(code(KeyCode::Backspace), NOW, Some(BYTES));
    app.handle_key(k('A'), NOW, Some(BYTES));
    app.handle_key(code(KeyCode::Enter), NOW, Some(BYTES));
    assert!(!app.search.active);
    assert_eq!(app.filter.text, "BETA");
    assert_eq!(app.visible, vec![1]);
    app.handle_key(k('/'), NOW, Some(BYTES));
    assert_eq!(app.search.buffer, "BETA");
    app.handle_key(code(KeyCode::Esc), NOW, Some(BYTES));
    assert_eq!(app.filter.text, "");
    assert_eq!(app.visible, vec![2, 1, 0]);
}

#[test]
fn toggling_a_facet_twice_restores_the_view() {
    let mut app = loaded();
    app.handle_key(k('f'), NOW, Some(BYTES));
    assert_eq!(app.focus, Focus::Facets);
    app.handle_key(k('j'), NOW, Some(BYTES));
    assert_eq!(app.facet_cursor.flat, 1);
    app.handle_key(k(' '), NOW, Some(BYTES));
    assert!(app.filter.selections.contains("status", "500"));
    assert_eq!(app.visible, vec![0]);
    app.handle_key(k(' '), NOW, Some(BYTES));
    assert!(!app.filter.selections.contains("status", "500"));
    assert_eq!(app.visible, vec![2, 1, 0]);
}

#[test]
fn cursor_moves_stay_in_the_list() {
    let mut app = loaded();
    app.handle_key(k('k'), NOW, Some(BYTES));
    assert_eq!(app.event_cursor, 1);
    assert!(!app.auto_tail);
    app.handle_key(code(KeyCode::PageUp), NOW, Some(BYTES));
    assert_eq!(app.event_cursor, 0);
    app.handle_key(code(KeyCode::PageDown), NOW, Some(BYTES));
    assert_eq!(app.event_cursor, 2);
    app.handle_key(k('g'), NOW, Some(BYTES));
    assert_eq!(app.event_cursor, 0);
    app.handle_key(k('G'), NOW, Some(BYTES));
    assert_eq!(app.event_cursor, 2);
    assert!(app.auto_tail);
}

#[test]
fn overlays_open_and_close() {
    let mut app = loaded();
    app.handle_key(k('?'), NOW, Some(BYTES));
    assert!(app.show_help);
    app.handle_key(k('d'), NOW, Some(BYTES));
    assert!(app.show_daterange);
    app.handle_key(code(KeyCode::Esc), NOW, Some(BYTES));
    assert!(!app.show_daterange);
    app.handle_key(code(KeyCode::Esc), NOW, Some(BYTES));
    assert!(!app.show_help);
    app.handle_key(k('q'), NOW, Some(BYTES));
    assert!(app.quit);
}

#[test]
fn esc_while_loading_stops_the_load() {
    let mut app = App::new(LogFormat::Generic, Filter::new());
    assert_eq!(app.handle_key(code(KeyCode::Esc), NOW, None), Effect::CancelLoad);
    assert_eq!(app.handle_key(code(KeyCode::Other), NOW, None), Effect::Nothing);
}

#[test]
fn date_presets_filter_the_events() {
    let mut app = loaded();
    app.handle_key(k('d'), NOW, Some(BYTES));
    app.handle_key(k('j'), NOW, Some(BYTES));
    app.handle_key(code(KeyCode::Enter), NOW, Some(BYTES));
    assert!(!app.show_daterange);
    assert_eq!(app.filter.from.unwrap().secs, 1_700_000_000 - 900);
    assert!(app.visible.is_empty());
    app.handle_key(k('r'), NOW, Some(BYTES));
    assert!(app.filter.from.is_none());
    assert_eq!(app.visible, vec![2, 1, 0]);
    app.handle_key(k('d'), NOW, Some(BYTES));
    for _ in 0..5 {
        app.handle_key(code(KeyCode::Down), NOW, Some(BYTES));
    }
    app.handle_key(code(KeyCode::Enter), NOW, Some(BYTES));
    assert_eq!(app.date_modal.mode, Mode::Custom);
    app.handle_key(k('x'), NOW, Some(BYTES));
    app.handle_key(code(KeyCode::Enter), NOW, Some(BYTES));
    assert!(app.show_daterange);
    assert!(app.date_modal.error.is_some());
}

#[test]
fn export_menu_asks_for_an_export() {
    let mut app = loaded();
    app.handle_key(k('x'), NOW, Some(BYTES));
    assert!(app.show_export);
    app.handle_key(k('j'), NOW, Some(BYTES));
    assert_eq!(
        app.handle_key(code(KeyCode::Enter), NOW, Some(BYTES)),
        Effect::Export(ExportChoice::FilteredLog)
    );
    assert!(!app.show_export);
    assert!(matches!(app.plan_export(ExportChoice::FilteredLog, true), ExportPlan::Filtered));
    assert!(matches!(app.plan_export(ExportChoice::FilteredLog, false), ExportPlan::Refuse(m) if m == MSG_NO_SOURCE));
    assert!(matches!(app.plan_export(ExportChoice::FacetGroup, true), ExportPlan::Group(k) if k == "status"));
    app.facet_cursor.flat = 9;
    assert!(matches!(app.plan_export(ExportChoice::FacetGroup, true), ExportPlan::Refuse(m) if m == MSG_NO_GROUP));
    let empty = App::new(LogFormat::Generic, Filter::new());
    assert!(matches!(empty.plan_export(ExportChoice::FilteredLog, true), ExportPlan::Refuse(m) if m == MSG_NOTHING));
}

#[test]
fn switch_focus_goes_back_and_forth() {
    let mut app = loaded();
    assert_eq!(app.focus, Focus::Events);
    app.handle_key(k('h'), NOW, Some(BYTES));
    assert_eq!(app.focus, Focus::Facets);
    app.handle_key(code(KeyCode::Right), NOW, Some(BYTES));
    assert_eq!(app.focus, Focus::Events);
    app.handle_key(k('l'), NOW, Some(BYTES));
    assert_eq!(app.focus, Focus::Facets);
}

#[test]
fn follow_mode_toggles_and_jumps_to_newest() {
    let mut app = loaded();
    assert!(app.auto_tail);
    app.handle_key(k('F'), NOW, Some(BYTES));
    assert!(!app.auto_tail);
    app.handle_key(k('g'), NOW, Some(BYTES));
    assert_eq!(app.event_cursor, 0);
    app.handle_key(k('F'), NOW, Some(BYTES));
    assert!(app.auto_tail);
    assert_eq!(app.event_cursor, 2);
}

#[test]
fn yank_asks_for_the_selected_line() {
    let mut app = loaded();
    app.handle_key(k('k'), NOW, Some(BYTES));
    assert_eq!(app.handle_key(k('y'), NOW, Some(BYTES)), Effect::Yank);
    assert_eq!(app.selected_line(BYTES), Some("beta two"));
    let empty = App::new(LogFormat::Generic, Filter::new());
    assert_eq!(empty.selected_line(BYTES), None);
}

#[test]
fn resize_mode_adjusts_panes_until_esc() {
    let mut app = loaded();
    assert_eq!((app.panes.facets_pct, app.panes.events_pct), (22, 60));
    let ctrl_n = KeyEvent {
        code: KeyCode::Char('n'),
        ctrl: true,
    };
    app.handle_key(ctrl_n, NOW, Some(BYTES));
    assert!(app.panes.resizing);
    app.handle_key(code(KeyCode::Right), NOW, Some(BYTES));
    app.handle_key(code(KeyCode::Right), NOW, Some(BYTES));
    app.handle_key(code(KeyCode::Up), NOW, Some(BYTES));
    assert_eq!((app.panes.facets_pct, app.panes.events_pct), (26, 58));
    // Keys other than arrows and Esc do nothing while resizing.
    app.handle_key(k('q'), NOW, Some(BYTES));
    assert!(!app.quit);
    assert_eq!(app.focus, Focus::Events);
    app.handle_key(code(KeyCode::Esc), NOW, Some(BYTES));
    assert!(!app.panes.resizing);
    app.handle_key(code(KeyCode::Right), NOW, Some(BYTES));
    assert_eq!(app.panes.facets_pct, 26);
    assert_eq!(app.focus, Focus::Facets);
}

#[test]
fn pane_sizes_stay_within_bounds() {
    assert_eq!(adjust_pct(22, true), 24);
    assert_eq!(adjust_pct(22, false), 20);
    assert_eq!(adjust_pct(80, true), 80);
    assert_eq!(adjust_pct(79, true), 80);
    assert_eq!(adjust_pct(10, false), 10);
    assert_eq!(adjust_pct(0, false), 10);
    assert_eq!(adjust_pct(200, false), 80);
}

const TRACED: &[u8] = b"{\"trace_id\":\"abc123\"} start\nother\n{\"trace_id\":\"abc123\"} end\n";

#[test]
fn correlate_searches_for_the_trace_id() {
    let evs = vec![
        LogEvent::unparsed(3, 34, 25, r#"{"trace_id":"abc123"} end"#),
        LogEvent::unparsed(2, 28, 5, "other"),
        LogEvent::unparsed(1, 0, 27, r#"{"trace_id":"abc123"} start"#),
    ];
    let mut app = App::new(LogFormat::Generic, Filter::new());
    app.on_chunk(evs);
    app.on_done(false);
    app.settle(Some(TRACED));
    assert_eq!(app.visible.len(), 3);
    app.handle_key(k('*'), NOW, Some(TRACED));
    assert_eq!(app.filter.text, "abc123");
    assert_eq!(app.search.buffer, "abc123");
    assert_eq!(app.visible, vec![2, 0]);
    // On a line with no id nothing changes.
    let mut plain = loaded();
    let before = plain.visible.clone();
    plain.handle_key(k('*'), NOW, Some(BYTES));
    assert_eq!(plain.filter.text, "");
    assert_eq!(plain.visible, before);
}

#[test]
fn base64_and_clipboard_sequence() {
    assert_eq!(base64(b""), "");
    assert_eq!(base64(b"M"), "TQ==");
    assert_eq!(base64(b"Ma"), "TWE=");
    assert_eq!(base64(b"Man"), "TWFu");
    assert_eq!(base64(b"hello world"), "aGVsbG8gd29ybGQ=");
    assert_eq!(base64(&[0xff, 0xfe, 0x00]), "//4A");
    assert_eq!(clipboard_sequence("hi"), "\x1b]52;c;aGk=\x07");
}

#[test]
fn clicks_select_rows() {
    let mut app = loaded();
    app.click(Focus::Events, 0);
    assert_eq!(app.focus, Focus::Events);
    assert_eq!(app.event_cursor, 0);
    assert!(!app.auto_tail);
    app.click(Focus::Events, 99);
    assert_eq!(app.event_cursor, 2);
    app.click(Focus::Facets, 1);
    assert_eq!(app.focus, Focus::Facets);
    assert_eq!(app.facet_cursor.flat, 1);
}

#[test]
fn presets_without_a_clock_reading() {
    let mut app = loaded();
    app.handle_key(k('d'), None, Some(BYTES));
    app.handle_key(k('j'), None, Some(BYTES));
    app.handle_key(code(KeyCode::Enter), None, Some(BYTES));
    // "Last 15 minutes" needs the clock: nothing changes.
    assert!(app.show_daterange);
    assert!(app.filter.from.is_none());
    app.handle_key(k('k'), None, Some(BYTES));
    app.handle_key(code(KeyCode::Enter), None, Some(BYTES));
    // "All time" needs none.
    assert!(!app.show_daterange);
    assert_eq!(app.visible, vec![2, 1, 0]);
    // Other keys work as ever.
    app.handle_key(k('q'), None, Some(BYTES));
    assert!(app.quit);
}

#[test]
fn chunks_keep_events_within_the_file() {
    let mut app = App::new(LogFormat::Generic, Filter::new());
    let chunk = vec![
        LogEvent::unparsed(1, 0, 5, "alpha"),
        LogEvent::unparsed(2, 99, 5, "past the end"),
        LogEvent::unparsed(3, 6, 4, "beta"),
    ];
    assert!(!app.accept_chunk(chunk, Some(10)));
    let lines: Vec<u32> = app.events.iter().map(|e| e.line_no).collect();
    assert_eq!(lines, vec![1, 3]);
    assert!(app.pending_dirty);
    let more = vec![LogEvent::unparsed(4, 200, 1, "x")];
    assert!(!app.accept_chunk(more, None));
    assert_eq!(app.events.len(), 3);
}
