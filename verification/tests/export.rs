use lazylog::query::export::sanitize_key;

#[test]
fn sanitize_strips_path_traversal() {
    assert_eq!(sanitize_key("../../etc/passwd"), "______etc_passwd");
    assert_eq!(sanitize_key("country"), "country");
    assert_eq!(sanitize_key(""), "group");
    assert_eq!(sanitize_key("a/b\\c:d"), "a_b_c_d");
}
