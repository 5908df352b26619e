use lazylog::log::scanner::{is_log_like, scan, scan_roots, CandidateLog};

fn c(p: &str, size: u64) -> CandidateLog {
    CandidateLog {
        path: p.to_string(),
        size,
    }
}

#[test]
fn log_like_names() {
    assert!(is_log_like("app.log"));
    assert!(is_log_like("APP.LOG"));
    assert!(is_log_like("access.log.1"));
    assert!(is_log_like("access.log.2.gz"));
    assert!(is_log_like("error_log"));
    assert!(is_log_like("syslog"));
    assert!(is_log_like("messages"));
    assert!(!is_log_like("app.log.bz2"));
    assert!(!is_log_like("logs.zip"));
    assert!(!is_log_like("readme.txt"));
}

#[test]
fn scan_sorts_by_path_and_keeps_each_once() {
    let found = vec![
        c("/var/log/b.log", 1),
        c("/var/log/a.log", 2),
        c("/var/log/a.log", 3),
        c("/x/a.b.log", 4),
        c("/x/a/b.log", 5),
    ];
    let out = scan(found);
    let paths: Vec<&str> = out.iter().map(|c| c.path.as_str()).collect();
    assert_eq!(
        paths,
        vec!["/var/log/a.log", "/var/log/b.log", "/x/a/b.log", "/x/a.b.log"]
    );
    assert_eq!(out[0].size, 2);
}

#[test]
fn scan_roots_are_local_dirs_then_system_log() {
    let roots = scan_roots();
    let dirs: Vec<(&str, usize)> = roots.iter().map(|r| (r.dir, r.depth)).collect();
    assert_eq!(
        dirs,
        vec![("var/log", 2), ("var/logs", 2), ("logs", 2), ("log", 2), ("/var/log", 1)]
    );
}
