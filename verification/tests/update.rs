use xone_tray::update::update_tag;

#[test]
fn newer_release_is_reported() {
    let body = r#"{"url":"x","tag_name":"v0.2.0","name":"v0.2.0"}"#;
    assert_eq!(update_tag(body, "0.1.0"), Some("v0.2.0".to_string()));
}

#[test]
fn same_release_is_not_reported() {
    let body = r#"{"tag_name":"v0.1.0"}"#;
    assert_eq!(update_tag(body, "0.1.0"), None);
    assert_eq!(update_tag(r#"{"tag_name":"vv0.1.0"}"#, "0.1.0"), None);
    assert_eq!(update_tag(r#"{"tag_name":"v1.0"}"#, "1"), None);
}

#[test]
fn older_release_is_not_reported() {
    assert_eq!(update_tag(r#"{"tag_name":"v0.1.0"}"#, "0.2.0"), None);
    assert_eq!(update_tag(r#"{"tag_name":"v0.9.9"}"#, "0.10.0"), None);
}

#[test]
fn versions_compare_by_number() {
    assert_eq!(update_tag(r#"{"tag_name":"v0.10.0"}"#, "0.9.9"), Some("v0.10.0".to_string()));
    assert_eq!(update_tag(r#"{"tag_name":"1.0.1"}"#, "1"), Some("1.0.1".to_string()));
    assert_eq!(update_tag(r#"{"tag_name":"v2"}"#, "1.99.99"), Some("v2".to_string()));
}

#[test]
fn pre_releases_and_large_numbers_are_ordered_by_their_numbers() {
    assert_eq!(update_tag(r#"{"tag_name":"v1.0.0-rc1"}"#, "0.1.0"), Some("v1.0.0-rc1".to_string()));
    assert_eq!(update_tag(r#"{"tag_name":"v0.2.0"}"#, "0.1.0-dev"), Some("v0.2.0".to_string()));
    assert_eq!(update_tag(r#"{"tag_name":"v4294967296.0"}"#, "0.1.0"), Some("v4294967296.0".to_string()));
    assert_eq!(
        update_tag(r#"{"tag_name":"v99999999999999999999"}"#, "99999999999999999998"),
        Some("v99999999999999999999".to_string())
    );
    assert_eq!(update_tag(r#"{"tag_name":"v99999999999999999998"}"#, "99999999999999999999"), None);
    assert_eq!(update_tag(r#"{"tag_name":"v0.1.0-rc1"}"#, "0.2.0"), None);
}

#[test]
fn release_follows_its_pre_release() {
    assert_eq!(update_tag(r#"{"tag_name":"v1.0.0"}"#, "1.0.0-rc1"), Some("v1.0.0".to_string()));
    assert_eq!(update_tag(r#"{"tag_name":"v1.0.0-rc1"}"#, "1.0.0"), None);
    assert_eq!(update_tag(r#"{"tag_name":"1.0.0+b2"}"#, "1.0.0+b1"), None);
    assert_eq!(update_tag(r#"{"tag_name":"v1.0.0-rc2"}"#, "1.0.0-rc1"), Some("v1.0.0-rc2".to_string()));
}

#[test]
fn versions_without_numbers_are_reported_when_they_differ() {
    assert_eq!(update_tag(r#"{"tag_name":"latest"}"#, "0.1.0"), Some("latest".to_string()));
    assert_eq!(update_tag(r#"{"tag_name":"v1..0"}"#, "0.1.0"), Some("v1..0".to_string()));
    assert_eq!(update_tag(r#"{"tag_name":"v1."}"#, "0.1.0"), Some("v1.".to_string()));
    assert_eq!(update_tag(r#"{"tag_name":"latest"}"#, "latest"), None);
}

#[test]
fn malformed_responses_give_nothing() {
    assert_eq!(update_tag("", "0.1.0"), None);
    assert_eq!(update_tag(r#"{"message":"Not Found"}"#, "0.1.0"), None);
    assert_eq!(update_tag(r#"{"tag_name":"v"}"#, "0.1.0"), None);
    assert_eq!(update_tag(r#""tag_name":null"#, "0.1.0"), None);
    assert_eq!(update_tag(r#"{"tag_name":null,"name":"x"}"#, "0.1.0"), None);
    assert_eq!(update_tag(r#"{"tag_name":null,"name":"9.9"}"#, "0.1.0"), None);
    assert_eq!(update_tag(r#""tag_name":"0.3"#, "0.1.0"), None);
}

#[test]
fn tag_is_the_first_string_value() {
    assert_eq!(update_tag(r#""tag_name": "1.2""#, "1.0"), Some("1.2".to_string()));
    assert_eq!(
        update_tag(r#"x"tag_name":"v2" "tag_name":"v3""#, "1"),
        Some("v2".to_string())
    );
}

#[test]
fn running_version_is_not_reported() {
    for v in ["0.1.0", "1.0.0-rc1", "latest", "2"] {
        let body = format!("{{\"tag_name\":\"v{}\"}}", v);
        assert_eq!(update_tag(&body, v), None);
    }
}
