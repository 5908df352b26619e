use lazylog::log::correlation::extract;
use lazylog::log::event::{Level, LogEvent};
use lazylog::log::fields::FieldMap;
use lazylog::log::format::LogFormat;
use lazylog::log::loader::{
    build_line_index, chunk_ready, country_label, country_query, enrich_event, is_private_addr, line_text,
    probe_last_timestamp, push_line, read_back, total_lines, DateFilter, LineIdx, LineIndexer, CHUNK_EVENTS,
};
use lazylog::query::export::export_file_name;
use lazylog::query::filter::{apply, contains_ci, Filter};
use lazylog::text::{decimal_string, trim_string, truncate};
use lazylog::time::{show_time, TimeFormat, Timestamp};

#[test]
fn truncation_keeps_short_text() {
    assert_eq!(truncate("abc", 4), "abc");
    assert_eq!(truncate("abcdef", 4), "abc…");
    assert_eq!(truncate("abc", 0), "…");
    assert_eq!(truncate("ééééé", 3), "éé…");
}

#[test]
fn text_helpers() {
    assert_eq!(decimal_string(0), "0");
    assert_eq!(decimal_string(4096), "4096");
    assert_eq!(trim_string("\t a b \n"), "a b");
    assert!(contains_ci("Hello World", "WORLD"));
    assert!(!contains_ci("Straße", "STRASSE"));
    assert!(contains_ci("Grüße aus KÖLN", "köln"));
    assert!(!contains_ci("abc", "abcd"));
    assert!(contains_ci("abc", ""));
}

#[test]
fn format_names_and_labels() {
    assert_eq!(LogFormat::from_name("NGINX-ACCESS"), Ok(LogFormat::NginxAccess));
    assert_eq!(LogFormat::from_name("monolog"), Ok(LogFormat::SymfonyMonolog));
    assert_eq!(
        LogFormat::from_name("Bogus"),
        Err("unknown format: bogus".to_string())
    );
    assert_eq!("php".parse::<LogFormat>(), Ok(LogFormat::PhpError));
    assert_eq!(LogFormat::ApacheError.label(), "Apache error");
    assert_eq!(LogFormat::all().len(), 7);
    assert_eq!(LogFormat::all()[6], LogFormat::Generic);
}

#[test]
fn level_names_round_trip() {
    for l in [
        Level::Debug,
        Level::Info,
        Level::Notice,
        Level::Warning,
        Level::Error,
        Level::Critical,
        Level::Alert,
        Level::Emergency,
        Level::Unknown,
    ] {
        assert_eq!(Level::from_str_ci(l.as_str()), l);
    }
    assert_eq!(Level::from_str_ci("warn"), Level::Warning);
    assert_eq!(Level::from_str_ci("Err"), Level::Error);
    assert_eq!(Level::from_str_ci("whatever"), Level::Unknown);
}

#[test]
fn field_map_keeps_one_value_per_name() {
    let mut m = FieldMap::new();
    assert!(m.is_empty());
    m.insert("b".to_string(), "1".to_string());
    m.insert("a".to_string(), "2".to_string());
    m.insert("b".to_string(), "3".to_string());
    assert_eq!(m.len(), 2);
    assert_eq!(m.get("b").map(String::as_str), Some("3"));
    assert!(m.contains_key("a"));
    assert!(m.get("c").is_none());
    assert_eq!(
        m.sorted_entries(),
        vec![
            ("a".to_string(), "2".to_string()),
            ("b".to_string(), "3".to_string())
        ]
    );
}

#[test]
fn line_index_skips_empty_lines_and_carriage_returns() {
    let idx = build_line_index(b"ab\r\n\ncd\nlast");
    let got: Vec<(u32, u64, u32)> = idx.iter().map(|e| (e.line_no, e.offset, e.len)).collect();
    assert_eq!(got, vec![(1, 0, 2), (3, 5, 2), (4, 8, 4)]);
    assert!(build_line_index(b"").is_empty());
}

#[test]
fn loader_step_parses_or_keeps_the_line() {
    let bytes = b"[2024-01-15T10:23:45+00:00] app.ERROR: boom [] []\ngarbage\n";
    let idx = build_line_index(bytes);
    let mut buf = Vec::new();
    let all = DateFilter { from: None, to: None };
    for e in &idx {
        push_line(LogFormat::SymfonyMonolog, bytes, e, &all, &mut buf);
    }
    assert_eq!(buf.len(), 2);
    assert_eq!(buf[0].level, Level::Error);
    assert_eq!(buf[1].message, "garbage");
    assert_eq!(buf[1].level, Level::Unknown);
    let late = DateFilter {
        from: Some(Timestamp {
            secs: 1_800_000_000,
            nanos: 0,
            offset: 0,
        }),
        to: None,
    };
    let mut none = Vec::new();
    push_line(LogFormat::SymfonyMonolog, bytes, &idx[0], &late, &mut none);
    assert!(none.is_empty());
    assert!(!late.admits(None));
    assert!(all.admits(None));
    assert!(!late.is_empty());
}

#[test]
fn enrichment_adds_subnet_and_country() {
    let mut ev = LogEvent::unparsed(1, 0, 1, "x");
    ev.fields.insert("ip".to_string(), "81.1.2.3".to_string());
    assert_eq!(country_query(&ev).as_deref(), Some("81.1.2.3"));
    enrich_event(&mut ev, Some("France".to_string()));
    assert_eq!(ev.fields.get("subnet").map(String::as_str), Some("81.1.2.0/24"));
    assert_eq!(ev.fields.get("country").map(String::as_str), Some("France"));
    assert!(country_query(&ev).is_none());
    let mut v6 = LogEvent::unparsed(1, 0, 1, "x");
    v6.fields.insert("ip".to_string(), "::1".to_string());
    enrich_event(&mut v6, None);
    assert!(v6.fields.get("subnet").is_none());
}

#[test]
fn probe_finds_the_last_timestamp() {
    let bytes = b"[2024-01-15T10:23:45+00:00] app.INFO: a [] []\n[2024-01-15T11:00:00+00:00] app.INFO: b [] []\nno time\n";
    let t = probe_last_timestamp(bytes, LogFormat::SymfonyMonolog).unwrap();
    assert_eq!(t.secs, 1705316400);
    assert!(probe_last_timestamp(b"nothing here\n", LogFormat::SymfonyMonolog).is_none());
}

#[test]
fn line_text_reads_valid_utf8_only() {
    let bytes = b"ok line\n\xff\xfe bad\n";
    assert_eq!(line_text(bytes, 0, 7), "ok line");
    assert_eq!(line_text(bytes, 8, 6), "");
    assert_eq!(line_text(bytes, 3, 100), "");
}

#[test]
fn empty_filter_shows_all_oldest_first() {
    let evs = vec![
        LogEvent::unparsed(2, 6, 5, "world"),
        LogEvent::unparsed(1, 0, 5, "hello"),
    ];
    let f = Filter::new();
    assert!(f.is_empty());
    assert_eq!(apply(&f, &evs, b"hello\nworld\n"), vec![1, 0]);
}

#[test]
fn correlation_prefers_fields() {
    let mut ev = LogEvent::unparsed(1, 0, 1, "x");
    ev.fields.insert("request_id".to_string(), "r-1".to_string());
    assert_eq!(extract(&ev, r#""trace_id":"t-9""#).as_deref(), Some("r-1"));
    let plain = LogEvent::unparsed(1, 0, 1, "x");
    assert_eq!(extract(&plain, r#""trace_id":"t-9""#).as_deref(), Some("t-9"));
    assert!(extract(&plain, "nothing").is_none());
}

#[test]
fn export_names() {
    assert_eq!(
        export_file_name("access", "status", "20240115-102345"),
        "lazylog-access-status-20240115-102345.txt"
    );
}

#[test]
fn filter_bounds_agree_with_loader_bounds() {
    let t = |secs| Timestamp {
        secs,
        nanos: 0,
        offset: 0,
    };
    let mut ev = LogEvent::unparsed(1, 0, 1, "x");
    for (from, to) in [(Some(t(10)), None), (None, Some(t(5))), (Some(t(1)), Some(t(20))), (None, None)] {
        let mut f = Filter::new();
        f.from = from;
        f.to = to;
        let d = DateFilter { from, to };
        for ts in [None, Some(t(0)), Some(t(10)), Some(t(30))] {
            ev.timestamp = ts;
            assert_eq!(f.matches(&ev, "x"), d.admits(ts));
        }
    }
}

#[test]
fn country_label_prefers_english_name() {
    assert_eq!(
        country_label(Some("Germany".to_string()), Some("DE".to_string())),
        Some("Germany".to_string())
    );
    assert_eq!(country_label(None, Some("DE".to_string())), Some("DE".to_string()));
    assert_eq!(country_label(None, None), None);
}

#[test]
fn private_addresses_are_not_looked_up() {
    for ip in [
        "10.0.0.1", "127.0.0.1", "172.16.0.1", "172.31.255.255", "192.168.1.1", "169.254.3.4",
        "::1", "fd12:3456::1", "FC00::1", "fe80::1", "FEBF::2",
    ] {
        assert!(is_private_addr(ip), "{ip}");
        let mut ev = LogEvent::unparsed(1, 0, 1, "x");
        ev.fields.insert("ip".to_string(), ip.to_string());
        assert!(country_query(&ev).is_none(), "{ip}");
    }
    for ip in [
        "8.8.8.8", "172.15.0.1", "172.32.0.1", "192.169.0.1", "2001:db8::1", "fec0::1", "fc::1",
        "256.1.1.1", "",
    ] {
        assert!(!is_private_addr(ip), "{ip}");
    }
}

#[test]
fn line_index_builds_in_steps() {
    let bytes = b"a\nbb\n\nccc\r\ndd";
    let mut ix = LineIndexer::new(bytes);
    assert!(!ix.step(bytes, 1));
    assert!(!ix.step(bytes, 2));
    assert!(ix.step(bytes, 5));
    let steps = ix.finish(bytes);
    let whole = build_line_index(bytes);
    let key = |v: &Vec<LineIdx>| v.iter().map(|l| (l.line_no, l.offset, l.len)).collect::<Vec<_>>();
    assert_eq!(key(&steps), key(&whole));
    assert_eq!(key(&whole), vec![(1, 0, 1), (2, 2, 2), (4, 6, 3), (5, 11, 2)]);
    assert_eq!(total_lines(&whole), 5);
    assert_eq!(total_lines(&Vec::new()), 0);
}

#[test]
fn reading_back_goes_newest_first_in_chunks() {
    let bytes = b"one\ntwo\nthree\nfour\nfive\n";
    let index = build_line_index(bytes);
    let filter = DateFilter { from: None, to: None };
    let mut buf = Vec::new();
    let pos = read_back(LogFormat::Generic, bytes, &index, index.len(), &filter, &mut buf, 2, 100);
    assert_eq!(pos, 3);
    let lines: Vec<u32> = buf.iter().map(|e| e.line_no).collect();
    assert_eq!(lines, vec![5, 4]);
    let mut more = Vec::new();
    let pos = read_back(LogFormat::Generic, bytes, &index, pos, &filter, &mut more, 10, 2);
    assert_eq!(pos, 1);
    assert_eq!(more.len(), 2);
    let pos = read_back(LogFormat::Generic, bytes, &index, pos, &filter, &mut more, 10, 2);
    assert_eq!(pos, 0);
    let lines: Vec<u32> = more.iter().map(|e| e.line_no).collect();
    assert_eq!(lines, vec![3, 2, 1]);
}

#[test]
fn instants_are_written_out_by_chrono() {
    let t = Timestamp { secs: 1_705_314_225, nanos: 0, offset: 3600 };
    assert_eq!(show_time(t, TimeFormat::Seconds), "2024-01-15 11:23:45");
    assert_eq!(show_time(t, TimeFormat::SecondsZone), "2024-01-15 11:23:45 +01:00");
    assert_eq!(show_time(t, TimeFormat::MinutesZone), "2024-01-15 11:23 +01:00");
    let out = Timestamp { secs: i64::MAX, nanos: 0, offset: 0 };
    assert_eq!(show_time(out, TimeFormat::Seconds), "?");
}

#[test]
fn chunks_are_handed_over_when_full() {
    let mut buf: Vec<LogEvent> = Vec::new();
    assert!(!chunk_ready(&buf));
    for i in 0..CHUNK_EVENTS {
        buf.push(LogEvent::unparsed(1, i as u64, 1, "x"));
    }
    assert!(chunk_ready(&buf));
    let bytes = b"a\nb\nc\n";
    let index = build_line_index(bytes);
    let filter = DateFilter { from: None, to: None };
    let mut small = vec![LogEvent::unparsed(9, 0, 1, "a")];
    read_back(LogFormat::Generic, bytes, &index, index.len(), &filter, &mut small, 2, 100);
    assert_eq!(small.len(), 2);
}
