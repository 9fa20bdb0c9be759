use pane::db::{
    age_modifier, cleanup_limits, clip_write_for, copy_text, flag_from_column, history_excess,
    setting_or, Clip, ClipWrite,
};

fn clip(content_type: &str, content: &str) -> Clip {
    Clip {
        id: 1,
        content: content.to_string(),
        content_type: content_type.to_string(),
        preview: None,
        image_base64: None,
        source_app: None,
        hash: "h".to_string(),
        is_pinned: false,
        is_favorite: false,
        collection_id: None,
        created_at: "2024-01-01 00:00:00".to_string(),
    }
}

#[test]
fn flags_are_non_zero_columns() {
    assert!(!flag_from_column(0));
    assert!(flag_from_column(1));
    assert!(flag_from_column(-2));
}

#[test]
fn settings_parse_like_i64_from_str() {
    assert_eq!(setting_or(Some("42"), 500), 42);
    assert_eq!(setting_or(Some("+7"), 500), 7);
    assert_eq!(setting_or(Some("-3"), 500), -3);
    assert_eq!(setting_or(Some("abc"), 500), 500);
    assert_eq!(setting_or(Some(""), 500), 500);
    assert_eq!(setting_or(Some("-"), 500), 500);
    assert_eq!(setting_or(Some("+"), 500), 500);
    assert_eq!(setting_or(Some(" 5"), 500), 500);
    assert_eq!(setting_or(Some("9223372036854775807"), 0), i64::MAX);
    assert_eq!(setting_or(Some("9223372036854775808"), 0), 0);
    assert_eq!(setting_or(Some("-9223372036854775808"), 0), i64::MIN);
    assert_eq!(setting_or(Some("-9223372036854775809"), 0), 0);
    assert_eq!(setting_or(None, 30), 30);
    for s in ["0", "007", "-0", "+12a", "1_000", "١٢"] {
        assert_eq!(setting_or(Some(s), 99), s.parse::<i64>().unwrap_or(99));
    }
}

#[test]
fn cleanup_defaults_are_500_clips_and_30_days() {
    assert_eq!(cleanup_limits(None, None), (500, 30));
    assert_eq!(cleanup_limits(Some("100"), Some("7")), (100, 7));
    assert_eq!(cleanup_limits(Some("lots"), Some("0")), (500, 0));
}

#[test]
fn history_excess_is_what_exceeds_the_limit() {
    assert_eq!(history_excess(10, 5), Some(5));
    assert_eq!(history_excess(5, 5), None);
    assert_eq!(history_excess(0, 500), None);
    assert_eq!(history_excess(3, -2), Some(5));
}

#[test]
fn age_modifier_reaches_back_whole_days() {
    assert_eq!(age_modifier(30).as_deref(), Some("-30 days"));
    assert_eq!(age_modifier(1).as_deref(), Some("-1 days"));
    assert_eq!(age_modifier(0), None);
    assert_eq!(age_modifier(-3), None);
    assert_eq!(age_modifier(i64::MAX).unwrap(), format!("-{} days", i64::MAX));
}

#[test]
fn images_cannot_be_copied_back() {
    assert_eq!(copy_text(&clip("image", "Image 1×1")), Err("Image copy not yet supported".to_string()));
    assert_eq!(copy_text(&clip("url", "https://a.com")), Ok("https://a.com".to_string()));
    assert_eq!(copy_text(&clip("text", "")), Ok(String::new()));
}

#[test]
fn a_known_hash_refreshes_the_stored_clip() {
    assert!(matches!(clip_write_for(Some(7)), ClipWrite::Refresh(7)));
    assert!(matches!(clip_write_for(None), ClipWrite::Insert));
}
