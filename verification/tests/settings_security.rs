use jx3sim::text::{filter_sensitive_settings, is_sensitive_setting_key};

#[test]
fn sensitive_settings_are_removed_without_changing_normal_preferences() {
    let filtered = filter_sensitive_settings(vec![
        ("ui_theme".to_string(), "indigo".to_string()),
        ("agent_provider_profile".to_string(), "offline".to_string()),
        ("openai_api_key".to_string(), "must-not-survive".to_string()),
        ("Authorization".to_string(), "must-not-survive".to_string()),
        ("refresh-token".to_string(), "must-not-survive".to_string()),
        ("provider_secret".to_string(), "must-not-survive".to_string()),
        ("session_token".to_string(), "must-not-survive".to_string()),
    ]);
    let get = |k: &str| filtered.iter().find(|(key, _)| key == k).map(|(_, v)| v.clone());
    assert_eq!(get("ui_theme").as_deref(), Some("indigo"));
    assert_eq!(get("agent_provider_profile").as_deref(), Some("offline"));
    assert!(get("openai_api_key").is_none());
    assert!(get("Authorization").is_none());
    assert!(get("refresh-token").is_none());
    assert!(get("provider_secret").is_none());
    assert!(get("session_token").is_none());
}

#[test]
fn sensitive_keys_are_normalized_before_matching() {
    assert!(is_sensitive_setting_key("API-Key"));
    assert!(is_sensitive_setting_key("my.Pass_Word!"));
    assert!(is_sensitive_setting_key("xBearerTokenx"));
    assert!(!is_sensitive_setting_key("ui_theme"));
    assert!(is_sensitive_setting_key("tok en"));
    assert!(!is_sensitive_setting_key("tokne"));
    assert!(!is_sensitive_setting_key(""));
}

#[test]
fn filtering_keeps_order_of_the_rest() {
    let filtered = filter_sensitive_settings(vec![
        ("b".to_string(), 1),
        ("secret".to_string(), 2),
        ("a".to_string(), 3),
    ]);
    assert_eq!(filtered, vec![("b".to_string(), 1), ("a".to_string(), 3)]);
}
