use lazylog::log::event::{Level, LogEvent};
use lazylog::log::scanner::CandidateLog;
use lazylog::query::facets::{FacetGroup, FacetIndex};
use lazylog::query::filter::Filter;
use lazylog::time::{utc_from_epoch, Timestamp, MIN_SECS};
use lazylog::ui::daterange::{is_reference_ok, parse_bound, pick_bound, CustomField, DateRangeModal, Mode, Preset, ERR_FORMAT, ERR_ORDER};
use lazylog::ui::detail::{pretty, shown_value, DetailLine, DetailPanel};
use lazylog::ui::events_panel::EventsPanel;
use lazylog::ui::export_menu::{ExportChoice, ExportMenu};
use lazylog::ui::facets_panel::{window, FacetCursor, FacetLine, FacetsPanel};
use lazylog::ui::input_box::InputBox;
use lazylog::ui::keys::{help, Action, KeyCode, KeyEvent, KeyMap};
use lazylog::ui::layout::{centered, Area};
use lazylog::ui::picker::{PickerOutcome, PickerState};
use lazylog::ui::prompt::{needs_prompt, prompt_key, PromptOutcome, LARGE_FILE_BYTES};
use lazylog::ui::statusbar::StatusLine;

fn k(c: char) -> KeyEvent {
    KeyEvent {
        code: KeyCode::Char(c),
        ctrl: false,
    }
}

fn code(code: KeyCode) -> KeyEvent {
    KeyEvent { code, ctrl: false }
}

fn ts(secs: i64) -> Timestamp {
    Timestamp {
        secs,
        nanos: 0,
        offset: 0,
    }
}

#[test]
fn keys_map_to_actions() {
    assert_eq!(KeyMap::map(k('q')), Some(Action::Quit));
    assert_eq!(
        KeyMap::map(KeyEvent {
            code: KeyCode::Char('c'),
            ctrl: true
        }),
        Some(Action::Quit)
    );
    assert_eq!(KeyMap::map(k('c')), None);
    assert_eq!(KeyMap::map(k('j')), Some(Action::Down));
    assert_eq!(KeyMap::map(code(KeyCode::Up)), Some(Action::Up));
    assert_eq!(KeyMap::map(k('G')), Some(Action::Bottom));
    assert_eq!(KeyMap::map(k(' ')), Some(Action::ToggleSelection));
    assert_eq!(KeyMap::map(code(KeyCode::Esc)), Some(Action::CloseOverlay));
    assert_eq!(KeyMap::map(code(KeyCode::Tab)), None);
    assert_eq!(help().len(), 18);
    assert_eq!(help()[6].keys, "h / l, ← / →");
    assert_eq!(help()[0].keys, "q / Ctrl-C");
}

#[test]
fn input_box_edits() {
    let mut b = InputBox::new("t");
    b.push('a');
    b.push('b');
    assert_eq!(b.buffer, "ab");
    b.backspace();
    assert_eq!(b.buffer, "a");
    b.push('z');
    b.backspace();
    assert_eq!(b.buffer, "a");
    b.clear();
    assert_eq!(b.buffer, "");
    b.backspace();
    assert_eq!(b.buffer, "");
    assert_eq!(b.title, "t");
}

#[test]
fn bounds_parse_in_every_form() {
    assert!(parse_bound("   ").unwrap().is_none());
    assert_eq!(parse_bound("2024-01-15").unwrap().unwrap().secs, 1705276800);
    assert_eq!(parse_bound(" 2024-01-15 10:23 ").unwrap().unwrap().secs, 1705314180);
    assert_eq!(parse_bound("2024-01-15 10:23:45").unwrap().unwrap().secs, 1705314225);
    let t = parse_bound("2024-01-15T10:23:45+01:00").unwrap().unwrap();
    assert_eq!(t.secs, 1705310625);
    assert_eq!(t.offset, 3600);
    assert!(matches!(parse_bound("yesterday"), Err(e) if e == ERR_FORMAT));
}

#[test]
fn custom_range_reports_what_is_wrong() {
    let mut m = DateRangeModal::default();
    m.enter_custom();
    for c in "2024-01-16".chars() {
        m.push(c);
    }
    m.toggle_field();
    for c in "2024-01-15".chars() {
        m.push(c);
    }
    assert!(m.parse_custom().is_none());
    assert_eq!(m.error.as_deref(), Some(ERR_ORDER));
    m.toggle_field();
    for _ in 0..10 {
        m.backspace();
    }
    m.push('x');
    assert!(m.error.is_none());
    assert!(m.parse_custom().is_none());
    assert_eq!(m.error, Some(format!("from: {ERR_FORMAT}")));
    m.backspace();
    let r = m.parse_custom().unwrap();
    assert!(r.0.is_none());
    assert_eq!(r.1.unwrap().secs, 1705276800);
    assert!(m.error.is_none());
    assert_eq!(m.field, CustomField::From);
    m.exit_custom();
    assert_eq!(m.mode, Mode::Presets);
}

#[test]
fn presets_reach_back_from_the_reference() {
    let r = ts(1_700_000_000);
    assert!(matches!(Preset::All.range(r), (None, None)));
    assert!(matches!(Preset::Custom.range(r), (None, None)));
    assert_eq!(Preset::Last15m.range(r).0.unwrap().secs, 1_700_000_000 - 900);
    assert_eq!(Preset::Last1h.range(r).0.unwrap().secs, 1_700_000_000 - 3600);
    assert_eq!(Preset::Last24h.range(r).0.unwrap().secs, 1_700_000_000 - 86400);
    let w = Preset::Last7d.range(r);
    assert_eq!(w.0.unwrap().secs, 1_700_000_000 - 604800);
    assert!(w.1.is_none());
    assert_eq!(Preset::all()[5], Preset::Custom);
    assert_eq!(Preset::Last1h.label(), "Last 1 hour");
}

#[test]
fn modal_cursor_stays_in_the_list() {
    let mut m = DateRangeModal::default();
    m.up();
    assert_eq!(m.cursor, 0);
    for _ in 0..10 {
        m.down();
    }
    assert_eq!(m.cursor, 5);
    assert_eq!(m.selected(), Preset::Custom);
    let now = DateRangeModal::reference_now().expect("the clock reads after 1970");
    assert_eq!(now.offset, 0);
    assert!(now.nanos < 1_000_000_000);
    assert!(now.secs > 1_600_000_000);
}

#[test]
fn export_menu_moves_and_selects() {
    let mut m = ExportMenu::default();
    assert_eq!(m.selected(), ExportChoice::FacetGroup);
    m.down();
    m.down();
    assert_eq!(m.cursor, 1);
    assert_eq!(m.selected(), ExportChoice::FilteredLog);
    m.up();
    m.up();
    assert_eq!(m.cursor, 0);
    assert_eq!(ExportMenu { cursor: 9 }.selected(), ExportChoice::FilteredLog);
    assert_eq!(ExportChoice::FilteredLog.label(), "Filtered log lines (raw)");
}

fn group(key: &str, label: &str, values: &[(&str, usize)], distinct: usize) -> FacetGroup {
    FacetGroup {
        key: key.to_string(),
        label: label.to_string(),
        values: values.iter().map(|(v, n)| (v.to_string(), *n)).collect(),
        distinct,
    }
}

fn index() -> FacetIndex {
    FacetIndex {
        groups: vec![
            group("level", "Level", &[("ERROR", 3), ("INFO", 1)], 2),
            group("ip", "Client IP", &[("1.2.3.4", 2)], 5),
        ],
    }
}

#[test]
fn facet_cursor_walks_values_across_groups() {
    let idx = index();
    assert_eq!(FacetCursor::total(&idx), 3);
    assert_eq!(FacetCursor { flat: 0 }.locate(&idx), Some((0, 0)));
    assert_eq!(FacetCursor { flat: 1 }.locate(&idx), Some((0, 1)));
    assert_eq!(FacetCursor { flat: 2 }.locate(&idx), Some((1, 0)));
    assert_eq!(FacetCursor { flat: 3 }.locate(&idx), None);
}

#[test]
fn facets_panel_lines_and_selected_row() {
    let idx = index();
    let mut f = Filter::new();
    f.toggle("level", "INFO");
    let lines = FacetsPanel::lines(&idx, &f);
    assert_eq!(lines.len(), 6);
    assert!(matches!(&lines[0], FacetLine::Header(l) if l == "Level"));
    assert!(matches!(&lines[1], FacetLine::Value(v, 3, false) if v == "ERROR"));
    assert!(matches!(&lines[2], FacetLine::Value(v, 1, true) if v == "INFO"));
    assert!(matches!(&lines[3], FacetLine::Header(l) if l == "Client IP"));
    assert!(matches!(&lines[5], FacetLine::More(4)));
    assert_eq!(FacetsPanel::selected_row(&idx, &f, FacetCursor { flat: 2 }), Some(4));
    assert_eq!(FacetsPanel::selected_row(&idx, &f, FacetCursor { flat: 1 }), Some(2));
    assert_eq!(FacetsPanel::selected_row(&idx, &f, FacetCursor { flat: 7 }), None);
}

#[test]
fn long_values_are_cut() {
    let idx = FacetIndex {
        groups: vec![group("file", "File", &[("/a/very/long/path/to/a/file.php", 1)], 1)],
    };
    let lines = FacetsPanel::lines(&idx, &Filter::new());
    assert!(matches!(&lines[1], FacetLine::Value(v, 1, false) if v == "/a/very/long/pa…"));
}

#[test]
fn windows_center_the_cursor() {
    assert_eq!(window(100, 10, Some(50)), (45, 55));
    assert_eq!(window(100, 10, Some(98)), (90, 100));
    assert_eq!(window(100, 10, Some(2)), (0, 10));
    assert_eq!(window(5, 10, Some(3)), (0, 5));
    assert_eq!(window(100, 10, None), (0, 10));
    assert_eq!(EventsPanel::rows(100, 11, 50), (45, 56));
}

#[test]
fn centered_box_fits_the_area() {
    let a = Area {
        x: 10,
        y: 5,
        width: 100,
        height: 40,
    };
    assert_eq!(
        centered(a, 60, 3),
        Area {
            x: 30,
            y: 23,
            width: 60,
            height: 3
        }
    );
    assert_eq!(centered(a, 200, 50), a);
}

#[test]
fn picker_moves_and_picks() {
    let mut p = PickerState::new(vec![
        CandidateLog {
            path: "/a.log".to_string(),
            size: 1,
        },
        CandidateLog {
            path: "/b.log".to_string(),
            size: 2,
        },
    ]);
    assert!(matches!(p.handle_key(k('k')), PickerOutcome::Pending));
    assert_eq!(p.cursor, 0);
    assert!(matches!(p.handle_key(code(KeyCode::Down)), PickerOutcome::Pending));
    assert!(matches!(p.handle_key(k('j')), PickerOutcome::Pending));
    assert_eq!(p.cursor, 1);
    assert!(matches!(p.handle_key(code(KeyCode::Enter)), PickerOutcome::Selected(s) if s == "/b.log"));
    assert!(matches!(p.handle_key(k('q')), PickerOutcome::Cancelled));
    let mut empty = PickerState::new(Vec::new());
    assert!(matches!(empty.handle_key(code(KeyCode::Enter)), PickerOutcome::Pending));
}

#[test]
fn detail_lists_fields_by_name() {
    let mut ev = LogEvent::unparsed(7, 0, 3, "msg");
    ev.level = Level::Error;
    ev.fields.insert("zeta".to_string(), "1".to_string());
    ev.fields.insert("alpha".to_string(), "2".to_string());
    let lines = DetailPanel::lines(&ev, Some("raw line"));
    assert_eq!(lines.len(), 12);
    assert!(matches!(lines[0], DetailLine::Level(Level::Error)));
    assert!(matches!(lines[1], DetailLine::LineNo(7)));
    assert!(matches!(&lines[4], DetailLine::Text(t) if t == "msg"));
    assert!(matches!(&lines[7], DetailLine::Field(k, v) if k == "alpha" && v == "2"));
    assert!(matches!(&lines[8], DetailLine::Field(k, v) if k == "zeta" && v == "1"));
    assert!(matches!(&lines[11], DetailLine::Raw(r) if r == "raw line"));
    let short = DetailPanel::lines(&LogEvent::unparsed(1, 0, 1, "x"), None);
    assert_eq!(short.len(), 5);
}

#[test]
fn prompt_answers() {
    let r = ts(1_700_000_000);
    let mut m = DateRangeModal::default();
    assert!(matches!(prompt_key(&mut m, k('a'), r), PromptOutcome::Apply(None, None)));
    assert!(matches!(prompt_key(&mut m, k('q'), r), PromptOutcome::Cancelled));
    assert!(matches!(prompt_key(&mut m, k('j'), r), PromptOutcome::Pending));
    match prompt_key(&mut m, code(KeyCode::Enter), r) {
        PromptOutcome::Apply(Some(f), None) => assert_eq!(f.secs, 1_700_000_000 - 900),
        _ => panic!("expected the last 15 minutes"),
    }
    for _ in 0..4 {
        prompt_key(&mut m, k('j'), r);
    }
    assert!(matches!(prompt_key(&mut m, code(KeyCode::Enter), r), PromptOutcome::Pending));
    assert_eq!(m.mode, Mode::Custom);
    assert!(matches!(prompt_key(&mut m, k('a'), r), PromptOutcome::Pending));
    assert_eq!(m.from_input, "a");
    assert!(matches!(prompt_key(&mut m, code(KeyCode::Enter), r), PromptOutcome::Pending));
    assert!(m.error.is_some());
    assert!(needs_prompt(LARGE_FILE_BYTES, false, false, false));
    assert!(!needs_prompt(LARGE_FILE_BYTES - 1, false, false, false));
    assert!(!needs_prompt(LARGE_FILE_BYTES, true, false, false));
    assert!(!needs_prompt(LARGE_FILE_BYTES, false, false, true));
}

#[test]
fn status_line_text() {
    let s = StatusLine {
        format: lazylog::log::format::LogFormat::Generic,
        total: 120,
        visible: 7,
        path: "a.log",
        loading: false,
        cancelled: true,
        toast: None,
    };
    assert_eq!(s.counts(), "7/120");
    assert_eq!(s.load_note(), Some("partial (stopped)"));
}

#[test]
fn first_successful_reading_wins() {
    let a = Some(ts(1));
    let b = Some(ts(2));
    assert_eq!(pick_bound(None, b, a, None).unwrap().unwrap().secs, 2);
    assert_eq!(pick_bound(a, b, None, None).unwrap().unwrap().secs, 1);
    assert_eq!(pick_bound(None, None, None, b).unwrap().unwrap().secs, 2);
    assert!(matches!(pick_bound(None, None, None, None), Err(e) if e == ERR_FORMAT));
}

#[test]
fn custom_range_reports_a_bad_upper_bound() {
    let mut m = DateRangeModal::default();
    m.enter_custom();
    m.toggle_field();
    for c in "zz".chars() {
        m.push(c);
    }
    assert!(m.parse_custom().is_none());
    assert_eq!(m.error, Some(format!("to: {ERR_FORMAT}")));
    m.toggle_field();
    assert_eq!(m.field, CustomField::From);
    m.toggle_field();
    m.backspace();
    m.backspace();
    assert_eq!(m.to_input, "");
    assert!(matches!(m.parse_custom(), Some((None, None))));
}

#[test]
fn facet_cursor_on_value_iff_below_total() {
    let idx = index();
    let total = FacetCursor::total(&idx);
    let sum: usize = idx.groups.iter().map(|g| g.values.len()).sum();
    assert_eq!(total, sum);
    for flat in 0..6 {
        assert_eq!(FacetCursor { flat }.locate(&idx).is_some(), flat < total);
    }
    let empty = FacetIndex { groups: vec![] };
    assert_eq!(FacetCursor::total(&empty), 0);
    assert_eq!(FacetCursor { flat: 0 }.locate(&empty), None);
}

#[test]
fn readme_keybindings_all_map() {
    let ctrl = |c: char| KeyEvent {
        code: KeyCode::Char(c),
        ctrl: true,
    };
    assert_eq!(KeyMap::map(k('h')), Some(Action::SwitchFocus));
    assert_eq!(KeyMap::map(k('l')), Some(Action::SwitchFocus));
    assert_eq!(KeyMap::map(code(KeyCode::Left)), Some(Action::SwitchFocus));
    assert_eq!(KeyMap::map(code(KeyCode::Right)), Some(Action::SwitchFocus));
    assert_eq!(KeyMap::map(k('F')), Some(Action::ToggleFollow));
    assert_eq!(KeyMap::map(k('*')), Some(Action::Correlate));
    assert_eq!(KeyMap::map(k('y')), Some(Action::Yank));
    assert_eq!(KeyMap::map(ctrl('n')), Some(Action::Resize));
    assert_eq!(KeyMap::map(k('n')), None);
    assert_eq!(KeyMap::map(k('?')), Some(Action::Help));
    assert_eq!(KeyMap::map(k('k')), Some(Action::Up));
    assert_eq!(KeyMap::map(code(KeyCode::Down)), Some(Action::Down));
    assert_eq!(KeyMap::map(k('g')), Some(Action::Top));
    assert_eq!(KeyMap::map(code(KeyCode::PageUp)), Some(Action::PageUp));
    assert_eq!(KeyMap::map(code(KeyCode::PageDown)), Some(Action::PageDown));
    assert_eq!(KeyMap::map(k('f')), Some(Action::FocusFacets));
    assert_eq!(KeyMap::map(k('e')), Some(Action::FocusEvents));
    assert_eq!(KeyMap::map(k('/')), Some(Action::OpenSearch));
    assert_eq!(KeyMap::map(k('d')), Some(Action::OpenDateRange));
    assert_eq!(KeyMap::map(k('r')), Some(Action::ResetFilters));
    assert_eq!(KeyMap::map(k('x')), Some(Action::ExportFacet));
}

#[test]
fn json_values_are_shown_indented() {
    assert_eq!(pretty(r#" {"a":1} "#), "{\n  \"a\": 1\n}");
    assert_eq!(pretty("[1,2]"), "[\n  1,\n  2\n]");
    assert_eq!(pretty("{not json}"), "{not json}");
    assert_eq!(pretty("plain"), "plain");
    assert_eq!(pretty(""), "");
}

#[test]
fn panel_rows_map_back_to_values() {
    let idx = index();
    let f = Filter::new();
    // Rows: Level, ERROR, INFO, Client IP, 1.2.3.4, "+4 more".
    assert_eq!(FacetsPanel::value_at_row(&idx, &f, 0), None);
    assert_eq!(FacetsPanel::value_at_row(&idx, &f, 1), Some(0));
    assert_eq!(FacetsPanel::value_at_row(&idx, &f, 2), Some(1));
    assert_eq!(FacetsPanel::value_at_row(&idx, &f, 3), None);
    assert_eq!(FacetsPanel::value_at_row(&idx, &f, 4), Some(2));
    assert_eq!(FacetsPanel::value_at_row(&idx, &f, 5), None);
    assert_eq!(FacetsPanel::value_at_row(&idx, &f, 6), None);
    for flat in 0..3 {
        let row = FacetsPanel::selected_row(&idx, &f, FacetCursor { flat }).unwrap();
        assert_eq!(FacetsPanel::value_at_row(&idx, &f, row), Some(flat));
    }
}

#[test]
fn detail_shows_the_value_or_its_indented_form() {
    assert_eq!(shown_value("{\"a\":1}", Some("{\n  \"a\": 1\n}".to_string())), "{\n  \"a\": 1\n}");
    assert_eq!(shown_value("plain", None), "plain");
}

#[test]
fn reference_instants() {
    assert!(is_reference_ok(&ts(1_700_000_000)));
    assert!(!is_reference_ok(&ts(MIN_SECS)));
    let leap = Timestamp { secs: -1, nanos: 1_500_000_000, offset: 0 };
    assert!(is_reference_ok(&leap));
    let bad_leap = Timestamp { secs: -2, nanos: 1_500_000_000, offset: 0 };
    assert!(!is_reference_ok(&bad_leap));
    let t = utc_from_epoch(1_700_000_000, 5).unwrap();
    assert_eq!((t.secs, t.nanos, t.offset), (1_700_000_000, 5, 0));
    assert!(utc_from_epoch(u64::MAX, 0).is_none());
}
