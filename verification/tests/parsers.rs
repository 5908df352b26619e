use lazylog::log::event::Level;
use lazylog::log::parser::LogParser;
use lazylog::log::parsers::apache_access::ApacheAccessParser;
use lazylog::log::parsers::apache_error::ApacheErrorParser;
use lazylog::log::parsers::generic::GenericParser;
use lazylog::log::parsers::nginx_access::NginxAccessParser;
use lazylog::log::parsers::nginx_error::NginxErrorParser;
use lazylog::log::parsers::php::PhpErrorParser;
use lazylog::log::parsers::symfony::SymfonyParser;

#[test]
fn parses_common_format() {
    let l = r#"1.2.3.4 - - [15/Jan/2024:10:23:45 +0000] "GET /x HTTP/1.1" 404 12"#;
    let ev = ApacheAccessParser.parse(1, 0, l.len() as u32, l).unwrap();
    assert_eq!(ev.source.as_deref(), Some("apache"));
    assert_eq!(ev.fields.get("status").map(String::as_str), Some("404"));
}

#[test]
fn parses_apache_error() {
    let l = "[Mon Jan 15 10:23:45.123456 2024] [core:error] [pid 1234] [client 1.2.3.4:5678] something bad";
    let ev = ApacheErrorParser.parse(1, 0, l.len() as u32, l).unwrap();
    assert_eq!(ev.level, Level::Error);
    assert_eq!(ev.fields.get("module").map(String::as_str), Some("core"));
    assert_eq!(ev.fields.get("ip").map(String::as_str), Some("1.2.3.4"));
}

#[test]
fn picks_up_level_and_ts() {
    let l = "2024-01-15T10:23:45Z something ERROR happened";
    let ev = GenericParser.parse(1, 0, l.len() as u32, l).unwrap();
    assert!(ev.timestamp.is_some());
    assert_eq!(ev.level, Level::Error);
}

#[test]
fn fallback_still_emits_event() {
    let ev = GenericParser.parse(1, 0, 17, "no timestamp here").unwrap();
    assert_eq!(ev.message, "no timestamp here");
}

#[test]
fn parses_combined() {
    let l =
        r#"1.2.3.4 - - [15/Jan/2024:10:23:45 +0000] "GET /foo HTTP/1.1" 200 1234 "-" "curl/8""#;
    let ev = NginxAccessParser.parse(1, 0, l.len() as u32, l).unwrap();
    assert_eq!(ev.fields.get("method").map(String::as_str), Some("GET"));
    assert_eq!(ev.fields.get("status").map(String::as_str), Some("200"));
    assert_eq!(
        ev.fields.get("status_class").map(String::as_str),
        Some("2xx")
    );
    assert_eq!(ev.level, Level::Info);
}

#[test]
fn flags_5xx_as_error() {
    let l = r#"1.2.3.4 - - [15/Jan/2024:10:23:45 +0000] "GET /x HTTP/1.1" 502 0 "-" "-""#;
    let ev = NginxAccessParser.parse(1, 0, l.len() as u32, l).unwrap();
    assert_eq!(ev.level, Level::Error);
}

#[test]
fn parses_vhost_combined() {
    let l = r#"www.example.com 1.2.3.4 - - [15/Jan/2024:10:23:45 +0000] "GET /foo HTTP/1.1" 200 1234 "-" "curl/8""#;
    let ev = NginxAccessParser.parse(1, 0, l.len() as u32, l).unwrap();
    assert_eq!(
        ev.fields.get("vhost").map(String::as_str),
        Some("www.example.com")
    );
    assert_eq!(ev.fields.get("ip").map(String::as_str), Some("1.2.3.4"));
}

#[test]
fn parses_error_line() {
    let l = "2024/01/15 10:23:45 [error] 1234#5678: *42 open() failed, client: 1.2.3.4, server: foo";
    let ev = NginxErrorParser.parse(1, 0, l.len() as u32, l).unwrap();
    assert_eq!(ev.level, Level::Error);
    assert_eq!(ev.fields.get("ip").map(String::as_str), Some("1.2.3.4"));
    assert_eq!(ev.fields.get("process").map(String::as_str), Some("1234"));
}

#[test]
fn parses_warning() {
    let l = "[15-Jan-2024 10:23:45 UTC] PHP Warning:  Undefined variable $foo in /var/www/a.php on line 12";
    let ev = PhpErrorParser.parse(1, 0, l.len() as u32, l).unwrap();
    assert_eq!(ev.level, Level::Warning);
    assert_eq!(ev.fields.get("type").map(String::as_str), Some("Warning"));
    assert_eq!(
        ev.fields.get("file").map(String::as_str),
        Some("/var/www/a.php")
    );
    assert_eq!(ev.fields.get("line").map(String::as_str), Some("12"));
}

#[test]
fn parses_fatal() {
    let l = "[15-Jan-2024 10:23:45 UTC] PHP Fatal error:  Uncaught Error: foo";
    let ev = PhpErrorParser.parse(1, 0, l.len() as u32, l).unwrap();
    assert_eq!(ev.level, Level::Critical);
}

#[test]
fn parses_basic_line() {
    let line = "[2024-01-15T10:23:45+00:00] app.ERROR: Something broke {\"user\":42} []";
    let ev = SymfonyParser.parse(1, 0, line.len() as u32, line).unwrap();
    assert_eq!(ev.level, Level::Error);
    assert_eq!(ev.source.as_deref(), Some("app"));
    assert_eq!(ev.message, "Something broke");
    assert!(ev.timestamp.is_some());
}

#[test]
fn parses_exception_class() {
    let line = "[2024-01-15T10:23:45+00:00] app.CRITICAL: boom {\"exception\":\"[object] (RuntimeException(code: 0): message at /path:42)\"} []";
    let ev = SymfonyParser.parse(1, 0, line.len() as u32, line).unwrap();
    assert_eq!(
        ev.fields.get("exception").map(String::as_str),
        Some("RuntimeException")
    );
}

#[test]
fn rejects_non_matching() {
    assert!(SymfonyParser.parse(1, 0, 12, "garbage line").is_none());
}
