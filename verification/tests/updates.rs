use file_explorer::updater::{is_newer, json_string_field, release_update, update_message};

#[test]
fn json_field_is_found_after_its_key() {
    let body = r#"{"url": "x", "tag_name" : "v1.4.0", "html_url":"https://example.test/r"}"#;
    assert_eq!(json_string_field(body, "tag_name"), Some("v1.4.0".to_string()));
    assert_eq!(json_string_field(body, "html_url"), Some("https://example.test/r".to_string()));
    assert_eq!(json_string_field(body, "missing"), None);
}

#[test]
fn json_field_without_a_value_is_absent() {
    assert_eq!(json_string_field(r#"{"tag_name": 12}"#, "tag_name"), None);
    assert_eq!(json_string_field(r#"{"tag_name""#, "tag_name"), None);
}

#[test]
fn newer_compares_number_by_number() {
    assert!(is_newer("1.10", "1.9"));
    assert!(is_newer("1.2.1", "1.2"));
    assert!(is_newer("2", "1.99.99"));
    assert!(!is_newer("1.2", "1.2.0"));
    assert!(!is_newer("2", "10"));
    assert!(!is_newer("1.0a", "1.0"));
    assert!(!is_newer("v2", "1"));
    assert!(is_newer("0.2.0", "0.1.0"));
}

#[test]
fn newer_is_a_strict_order_on_examples() {
    let vs = ["0.1.0", "0.2", "1.0.0-beta", "1.0.1", "10"];
    for a in vs {
        assert!(!is_newer(a, a));
        for b in vs {
            assert!(!(is_newer(a, b) && is_newer(b, a)));
            for c in vs {
                if is_newer(a, b) && is_newer(b, c) {
                    assert!(is_newer(a, c));
                }
            }
        }
    }
}

#[test]
fn release_newer_than_running_is_offered() {
    let body = r#"{"tag_name":"v0.2.0","html_url":"https://example.test/releases/v0.2.0"}"#;
    let info = release_update(body, "0.1.0").unwrap();
    assert_eq!(info.latest, "0.2.0");
    assert_eq!(info.current, "0.1.0");
    assert_eq!(info.url, "https://example.test/releases/v0.2.0");
    assert_eq!(update_message(&info), "Update available: 0.1.0 → 0.2.0");
}

#[test]
fn release_not_newer_is_not_offered() {
    let body = r#"{"tag_name":"v0.1.0","html_url":"u"}"#;
    assert!(release_update(body, "0.1.0").is_none());
    assert!(release_update(body, "0.2.0").is_none());
}

#[test]
fn release_without_tag_or_url() {
    assert!(release_update(r#"{"html_url":"u"}"#, "0.1.0").is_none());
    let info = release_update(r#"{"tag_name":"vv3"}"#, "2.9").unwrap();
    assert_eq!(info.latest, "3");
    assert_eq!(info.url, "");
}
