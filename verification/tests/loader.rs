use lazylog::log::loader::subnet_v4;

#[test]
fn subnet_v4_valid() {
    assert_eq!(subnet_v4("10.0.0.1").as_deref(), Some("10.0.0.0/24"));
    assert_eq!(
        subnet_v4("192.168.42.250").as_deref(),
        Some("192.168.42.0/24")
    );
    assert_eq!(subnet_v4("1.2.3.4").as_deref(), Some("1.2.3.0/24"));
}

#[test]
fn subnet_v4_rejects_non_ipv4() {
    assert!(subnet_v4("::1").is_none());
    assert!(subnet_v4("2001:db8::1").is_none());
    assert!(subnet_v4("").is_none());
    assert!(subnet_v4("10.0.0").is_none());
    assert!(subnet_v4("10.0.0.1.5").is_none());
    assert!(subnet_v4("10.0.0.a").is_none());
    assert!(subnet_v4("1234.0.0.1").is_none());
}

#[test]
fn subnet_v4_rejects_parts_above_255() {
    assert!(subnet_v4("256.1.1.1").is_none());
    assert!(subnet_v4("999.999.999.999").is_none());
    assert!(subnet_v4("1.2.3.256").is_none());
    assert_eq!(subnet_v4("255.255.255.255").as_deref(), Some("255.255.255.0/24"));
    assert_eq!(subnet_v4("0.0.0.0").as_deref(), Some("0.0.0.0/24"));
}
