use lazylog::log::event::LogEvent;
use lazylog::log::format::LogFormat;
use lazylog::query::export::{filtered_report, group_report, group_rows};
use lazylog::query::facets::{compute, compute_one, groups_for, hi, lo, FacetIndex, TOP_HI, TOP_LO};
use lazylog::query::tally::{sort_rows, tally_rows};

fn ev_with(line_no: u32, fields: &[(&str, &str)]) -> LogEvent {
    let mut ev = LogEvent::unparsed(line_no, 0, 0, "x");
    for (k, v) in fields {
        ev.fields.insert(k.to_string(), v.to_string());
    }
    ev
}

fn status_events() -> Vec<LogEvent> {
    vec![
        ev_with(1, &[("status", "200")]),
        ev_with(2, &[("status", "500")]),
        ev_with(3, &[("status", "200")]),
        ev_with(4, &[("status", "404")]),
        ev_with(5, &[("status", "200")]),
        ev_with(6, &[("status", "")]),
        ev_with(7, &[]),
    ]
}

#[test]
fn tally_counts_each_value() {
    let evs = status_events();
    let vis: Vec<u32> = (0..evs.len() as u32).collect();
    let mut rows = tally_rows(&evs, &vis, "status");
    rows.sort();
    assert_eq!(rows.iter().map(|r| r.1).sum::<usize>(), 5);
    assert_eq!(
        rows,
        vec![
            ("200".to_string(), 3),
            ("404".to_string(), 1),
            ("500".to_string(), 1)
        ]
    );
}

#[test]
fn rows_rank_by_count_then_value() {
    let rows = vec![
        ("b".to_string(), 2),
        ("c".to_string(), 5),
        ("a".to_string(), 2),
        ("ab".to_string(), 2),
    ];
    let sorted = sort_rows(rows);
    assert_eq!(
        sorted,
        vec![
            ("c".to_string(), 5),
            ("a".to_string(), 2),
            ("ab".to_string(), 2),
            ("b".to_string(), 2)
        ]
    );
}

#[test]
fn compute_one_keeps_the_top_and_counts_distinct() {
    let evs = status_events();
    let vis: Vec<u32> = (0..evs.len() as u32).collect();
    let g = compute_one(
        lazylog::query::facets::GroupSpec {
            key: "status",
            label: "Status",
            top: 2,
        },
        &evs,
        &vis,
    )
    .unwrap();
    assert_eq!(g.key, "status");
    assert_eq!(g.label, "Status");
    assert_eq!(g.distinct, 3);
    assert_eq!(
        g.values,
        vec![("200".to_string(), 3), ("404".to_string(), 1)]
    );
}

#[test]
fn compute_one_skips_a_group_nobody_has() {
    let evs = status_events();
    let vis: Vec<u32> = (0..evs.len() as u32).collect();
    assert!(compute_one(hi("country", "Country"), &evs, &vis).is_none());
}

#[test]
fn compute_counts_only_visible_events() {
    let evs = status_events();
    let vis: Vec<u32> = vec![1, 3];
    let idx: FacetIndex = compute(LogFormat::NginxAccess, &evs, &vis);
    assert_eq!(idx.groups.len(), 1);
    assert_eq!(idx.groups[0].key, "status");
    assert_eq!(
        idx.groups[0].values,
        vec![("404".to_string(), 1), ("500".to_string(), 1)]
    );
}

#[test]
fn level_group_is_always_there() {
    let evs = status_events();
    let vis: Vec<u32> = vec![0];
    let idx = compute(LogFormat::Generic, &evs, &vis);
    assert_eq!(idx.groups.len(), 1);
    assert_eq!(idx.groups[0].values, vec![("UNKNOWN".to_string(), 1)]);
}

#[test]
fn group_specs_per_format() {
    let g = groups_for(LogFormat::PhpError);
    assert_eq!(g.len(), 2);
    assert_eq!(g[0].key, "type");
    assert_eq!(g[0].top, TOP_LO);
    assert_eq!(g[1].key, "file");
    assert_eq!(g[1].top, TOP_HI);
    assert_eq!(groups_for(LogFormat::NginxAccess).len(), 7);
    assert_eq!(groups_for(LogFormat::Generic)[0].label, "Level");
    assert_eq!(lo("a", "b").top, 50);
    assert_eq!(hi("a", "b").top, 15);
}

#[test]
fn export_table_lists_every_value() {
    let evs = status_events();
    let vis: Vec<u32> = (0..evs.len() as u32).collect();
    let rows = group_rows(&evs, &vis, "status");
    assert_eq!(group_report(&rows), "200\t3\n404\t1\n500\t1\n");
}

#[test]
fn export_filtered_writes_the_visible_lines() {
    let bytes = b"first\nsecond\nthird\n";
    let evs = vec![
        LogEvent::unparsed(3, 13, 5, "third"),
        LogEvent::unparsed(2, 6, 6, "second"),
        LogEvent::unparsed(1, 0, 5, "first"),
    ];
    let vis: Vec<u32> = vec![2, 0];
    assert_eq!(filtered_report(&evs, &vis, bytes), "first\nthird\n");
}

#[test]
fn facet_values_head_the_export_table() {
    let evs = status_events();
    let vis: Vec<u32> = (0..evs.len() as u32).collect();
    let full = group_rows(&evs, &vis, "status");
    for top in 0..5 {
        let g = compute_one(
            lazylog::query::facets::GroupSpec {
                key: "status",
                label: "Status",
                top,
            },
            &evs,
            &vis,
        )
        .unwrap();
        assert_eq!(g.values.as_slice(), &full[..top.min(full.len())]);
    }
}
