use dev_report::{
    check_path, legacy_llm_choice, migrate_report_defaults, validate_author, validate_authors,
    validate_date, validate_filters, validate_path, LegacyLlm, ReportDefaults,
};

#[test]
fn date_checks() {
    assert_eq!(validate_date("-bad").unwrap_err(), "无效的日期格式: -bad");
    let long = "a".repeat(31);
    assert!(validate_date(&long).is_err());
    assert!(validate_date(&"a".repeat(30)).is_ok());
    assert!(validate_date("2024-01-01\n--all").is_err());
    assert!(validate_date("2024-01-01").is_ok());
    assert!(validate_date("").is_ok());
    assert!(validate_date("2 weeks ago").is_ok());
}

#[test]
fn date_length_counts_bytes() {
    // ten characters of three bytes each
    let wide = "日".repeat(10);
    assert!(validate_date(&wide).is_ok());
    let wider = "日".repeat(11);
    assert!(validate_date(&wider).is_err());
}

#[test]
fn author_checks() {
    assert_eq!(validate_author("--all").unwrap_err(), "无效的作者名: --all");
    assert!(validate_author("ann").is_ok());
    assert!(validate_author("a-b").is_ok());
    let authors = vec!["ann".to_string(), "-x".to_string(), "-y".to_string()];
    assert_eq!(validate_authors(&authors).unwrap_err(), "无效的作者名: -x");
    assert!(validate_authors(&Vec::new()).is_ok());
}

#[test]
fn filter_checks_go_in_order() {
    let authors = vec!["-x".to_string()];
    assert_eq!(validate_filters("-s", "-u", &authors).unwrap_err(), "无效的日期格式: -s");
    assert_eq!(validate_filters("s", "-u", &authors).unwrap_err(), "无效的日期格式: -u");
    assert_eq!(validate_filters("s", "u", &authors).unwrap_err(), "无效的作者名: -x");
    assert!(validate_filters("s", "u", &Vec::new()).is_ok());
}

#[test]
fn path_checks() {
    assert_eq!(check_path("rel", false, false).unwrap_err(), "路径必须是绝对路径");
    assert_eq!(check_path("/nope", true, false).unwrap_err(), "路径不存在或不是目录: /nope");
    assert!(check_path("/repo", true, true).is_ok());
    assert_eq!(validate_path("relative/dir").unwrap_err(), "路径必须是绝对路径");
    assert!(validate_path("/").is_ok());
    assert!(validate_path("/no/such/directory/here").is_err());
}

#[test]
fn old_report_defaults_are_migrated() {
    let mut r = ReportDefaults { daily: 300, weekly: 800, monthly: 1500, quarterly: 3000, yearly: 5000 };
    assert!(migrate_report_defaults(&mut r));
    assert_eq!((r.daily, r.weekly, r.monthly, r.quarterly, r.yearly), (100, 300, 500, 800, 1000));
    let mut s = ReportDefaults { daily: 120, weekly: 800, monthly: 7, quarterly: 800, yearly: 1 };
    assert!(migrate_report_defaults(&mut s));
    assert_eq!((s.daily, s.weekly, s.monthly, s.quarterly, s.yearly), (120, 300, 7, 800, 1));
    let mut d = ReportDefaults::default();
    assert!(!migrate_report_defaults(&mut d));
    assert_eq!((d.daily, d.weekly, d.monthly, d.quarterly, d.yearly), (100, 300, 500, 800, 1000));
}

fn legacy(key: Option<&str>, url: Option<&str>, model: Option<&str>) -> LegacyLlm {
    LegacyLlm {
        api_key: key.map(|s| s.to_string()),
        base_url: url.map(|s| s.to_string()),
        model: model.map(|s| s.to_string()),
    }
}

#[test]
fn legacy_model_settings_choice() {
    let c = vec![
        legacy(Some(""), Some("u"), Some("m")),
        legacy(Some("k"), None, Some("m")),
        legacy(Some("k2"), Some("u2"), Some("m2")),
        legacy(Some("k3"), Some("u3"), Some("m3")),
    ];
    assert_eq!(legacy_llm_choice("", "gpt", &c), Some(2));
    assert_eq!(legacy_llm_choice("key", "", &c), Some(2));
    assert_eq!(legacy_llm_choice("key", "gpt", &c), None);
    let unusable = vec![legacy(Some(""), Some("u"), Some("m")), legacy(Some("k"), None, Some("m"))];
    assert_eq!(legacy_llm_choice("", "", &unusable), None);
    assert_eq!(legacy_llm_choice("", "", &Vec::new()), None);
}
