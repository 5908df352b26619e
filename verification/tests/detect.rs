use lazylog::log::detect::{detect_from_content, detect_from_sample, hint_from_name, is_gzip, score_sample, Sample};
use lazylog::log::format::LogFormat;

const NGINX: &str = r#"1.2.3.4 - - [15/Jan/2024:10:23:45 +0000] "GET /foo HTTP/1.1" 200 1234 "-" "curl/8""#;
const SYMFONY: &str = "[2024-01-15T10:23:45+00:00] app.ERROR: Something broke {} []";

fn lines(v: &[&str]) -> Vec<String> {
    v.iter().map(|s| s.to_string()).collect()
}

#[test]
fn hints_from_file_names() {
    assert_eq!(hint_from_name("php_errors.log"), Some(LogFormat::PhpError));
    assert_eq!(hint_from_name("nginx-access.log"), Some(LogFormat::NginxAccess));
    assert_eq!(hint_from_name("nginx_error.log"), Some(LogFormat::NginxError));
    assert_eq!(hint_from_name("httpd-access.log"), Some(LogFormat::ApacheAccess));
    assert_eq!(hint_from_name("apache2-error.log"), Some(LogFormat::ApacheError));
    assert_eq!(hint_from_name("prod.log"), Some(LogFormat::SymfonyMonolog));
    assert_eq!(hint_from_name("access.log"), Some(LogFormat::NginxAccess));
    assert_eq!(hint_from_name("error.log.3"), Some(LogFormat::NginxError));
    assert_eq!(hint_from_name("notes.txt"), None);
}

#[test]
fn hints_ignore_case_and_gz() {
    assert_eq!(hint_from_name("ACCESS.LOG"), Some(LogFormat::NginxAccess));
    assert_eq!(hint_from_name("access.log.1.gz"), Some(LogFormat::NginxAccess));
    assert_eq!(hint_from_name("Dev.log.GZ"), Some(LogFormat::SymfonyMonolog));
}

#[test]
fn gzip_by_extension() {
    assert!(is_gzip("a.log.gz"));
    assert!(is_gzip("a.GZ"));
    assert!(!is_gzip(".gz"));
    assert!(!is_gzip("gz"));
    assert!(!is_gzip("a.tgz"));
}

#[test]
fn sample_skips_blank_lines_and_stops_at_fifty() {
    let mut s = Sample::new();
    assert!(s.offer("   ".to_string()));
    assert!(s.offer("a".to_string()));
    assert_eq!(s.lines.len(), 1);
    let mut more = true;
    let mut n = 0;
    while more {
        more = s.offer(format!("line {n}"));
        n += 1;
    }
    assert_eq!(s.lines.len(), 50);
    assert_eq!(n, 49);
}

#[test]
fn scores_count_read_lines() {
    let ls = lines(&[NGINX, "garbage", NGINX]);
    assert_eq!(score_sample(LogFormat::NginxAccess, &ls), Some((2, 3)));
    assert_eq!(score_sample(LogFormat::NginxAccess, &Vec::new()), None);
}

#[test]
fn content_picks_the_best_grammar() {
    assert_eq!(detect_from_content(&lines(&[NGINX, NGINX, "x"])), LogFormat::NginxAccess);
    assert_eq!(detect_from_content(&lines(&[SYMFONY])), LogFormat::SymfonyMonolog);
    assert_eq!(detect_from_content(&lines(&["plain", "text"])), LogFormat::Generic);
    assert_eq!(detect_from_content(&Vec::new()), LogFormat::Generic);
}

#[test]
fn hint_needs_half_the_lines() {
    assert_eq!(
        detect_from_sample("php_errors.log", &lines(&[NGINX, NGINX])),
        LogFormat::NginxAccess
    );
    assert_eq!(
        detect_from_sample("access.log.gz", &lines(&[NGINX])),
        LogFormat::NginxAccess
    );
}

// The original's detection tests read fixture files that are not part of
// this crate; these give the same file names with lines of each format.
const NGINX_ERROR: &str = "2024/01/15 10:23:45 [error] 1234#5678: *42 open() failed, client: 1.2.3.4, server: foo";
const APACHE_ERROR: &str = "[Mon Jan 15 10:23:45.123456 2024] [core:error] [pid 1234] [client 1.2.3.4:5678] something bad";
const PHP: &str = "[15-Jan-2024 10:23:45 UTC] PHP Warning:  Undefined variable $foo in /var/www/a.php on line 12";

#[test]
fn detects_symfony() {
    assert_eq!(detect_from_sample("symfony.log", &lines(&[SYMFONY, SYMFONY])), LogFormat::SymfonyMonolog);
}

#[test]
fn detects_nginx_access() {
    assert_eq!(detect_from_sample("nginx-access.log", &lines(&[NGINX, NGINX])), LogFormat::NginxAccess);
}

#[test]
fn detects_nginx_error() {
    assert_eq!(
        detect_from_sample("nginx-error.log", &lines(&[NGINX_ERROR, NGINX_ERROR])),
        LogFormat::NginxError
    );
}

#[test]
fn detects_apache_access() {
    assert_eq!(detect_from_sample("apache-access.log", &lines(&[NGINX, NGINX])), LogFormat::ApacheAccess);
}

#[test]
fn detects_apache_error() {
    assert_eq!(
        detect_from_sample("apache-error.log", &lines(&[APACHE_ERROR, APACHE_ERROR])),
        LogFormat::ApacheError
    );
}

#[test]
fn detects_php() {
    assert_eq!(detect_from_sample("php-error.log", &lines(&[PHP, PHP])), LogFormat::PhpError);
}

#[test]
fn gzip_format_detected_from_inner_name() {
    assert_eq!(detect_from_sample("nginx-access.log.gz", &lines(&[NGINX, NGINX])), LogFormat::NginxAccess);
}
