use lazylog::log::event::Level;
use lazylog::log::loader::subnet_v4;
use lazylog::log::parser::LogParser;
use lazylog::log::parsers::apache_error::ApacheErrorParser;
use lazylog::log::parsers::generic::GenericParser;
use lazylog::log::parsers::nginx_access::NginxAccessParser;
use lazylog::log::parsers::nginx_error::NginxErrorParser;
use lazylog::log::parsers::symfony::SymfonyParser;
use lazylog::text::{re_digit_char, re_word_char};

#[test]
fn digit_and_word_classes_are_unicode() {
    assert!(re_digit_char('7'));
    assert!(re_digit_char('٣'));
    assert!(re_digit_char('５'));
    assert!(!re_digit_char('a'));
    assert!(!re_digit_char('Ⅻ'));
    assert!(re_word_char('_'));
    assert!(re_word_char('é'));
    assert!(re_word_char('ж'));
    assert!(re_word_char('٣'));
    assert!(!re_word_char('-'));
    assert!(!re_word_char('\u{a0}'));
}

#[test]
fn nginx_error_year_in_arabic_indic_digits() {
    let l = "٢٠٢٤/٠١/١٥ 10:23:45 [error] 1234#5678: something failed";
    let ev = NginxErrorParser.parse(1, 0, l.len() as u32, l).unwrap();
    assert_eq!(ev.level, Level::Error);
    assert!(ev.timestamp.is_none());
    assert_eq!(ev.fields.get("process").map(String::as_str), Some("1234"));
}

#[test]
fn symfony_channel_with_accents() {
    let l = "[2024-01-15T10:23:45+00:00] café.INFO: hello [] []";
    let ev = SymfonyParser.parse(1, 0, l.len() as u32, l).unwrap();
    assert_eq!(ev.source.as_deref(), Some("café"));
    assert_eq!(ev.level, Level::Info);
}

#[test]
fn apache_module_with_unicode_word() {
    let l = "[Mon Jan 15 10:23:45.123456 2024] [modé:error] [pid ١٢] hello";
    let ev = ApacheErrorParser.parse(1, 0, l.len() as u32, l).unwrap();
    assert_eq!(ev.fields.get("module").map(String::as_str), Some("modé"));
    assert_eq!(ev.level, Level::Error);
}

#[test]
fn nginx_access_status_must_read_as_a_number() {
    let ok = r#"1.2.3.4 - - [15/Jan/2024:10:23:45 +0000] "GET /x HTTP/1.1" 500 12"#;
    assert!(NginxAccessParser.parse(1, 0, ok.len() as u32, ok).is_some());
    let arabic = r#"1.2.3.4 - - [15/Jan/2024:10:23:45 +0000] "GET /x HTTP/1.1" ٥٠٠ 12"#;
    assert!(NginxAccessParser.parse(1, 0, arabic.len() as u32, arabic).is_none());
    let ip = r#"١.٢.٣.٤ - - [15/Jan/2024:10:23:45 +0000] "GET /x HTTP/1.1" 200 12"#;
    let ev = NginxAccessParser.parse(1, 0, ip.len() as u32, ip).unwrap();
    assert_eq!(ev.fields.get("ip").map(String::as_str), Some("١.٢.٣.٤"));
    assert!(subnet_v4("١.٢.٣.٤").is_none());
}

#[test]
fn generic_level_needs_a_unicode_word_boundary() {
    let glued = "2024-01-15T10:23:45Z éERROR happened";
    let ev = GenericParser.parse(1, 0, glued.len() as u32, glued).unwrap();
    assert_ne!(ev.level, Level::Error);
    let apart = "2024-01-15T10:23:45Z é ERROR happened";
    let ev = GenericParser.parse(1, 0, apart.len() as u32, apart).unwrap();
    assert_eq!(ev.level, Level::Error);
    let arabic_ts = "٢٠٢٤-٠١-١٥T10:23:45Z rest of it";
    let ev = GenericParser.parse(1, 0, arabic_ts.len() as u32, arabic_ts).unwrap();
    assert!(ev.timestamp.is_none());
    assert_eq!(ev.message, "rest of it");
}
