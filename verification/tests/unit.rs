use tool_input_sanitizer::{InputSanitizer, JsonNumber, JsonValue, SanitizeError, SanitizeRule};

fn text(s: &str) -> JsonValue {
    JsonValue::String(s.to_string())
}

fn number(i: u64) -> JsonValue {
    JsonValue::Number(JsonNumber::PosInt(i))
}

fn object(members: Vec<(&str, JsonValue)>) -> JsonValue {
    JsonValue::Object(members.into_iter().map(|(k, v)| (k.to_string(), v)).collect())
}

#[test]
fn trim_whitespace() {
    let mut s = InputSanitizer::new();
    s.add_rule("q", SanitizeRule::TrimWhitespace);
    let r = s.sanitize("fn", &object(vec![("q", text("  hello  "))])).unwrap();
    assert_eq!(r.get("q"), Some(&text("hello")));
}

#[test]
fn max_length_truncates() {
    let mut s = InputSanitizer::new();
    s.add_rule("q", SanitizeRule::MaxLength(5));
    let r = s.sanitize("fn", &object(vec![("q", text("hello world"))])).unwrap();
    assert_eq!(r.get("q"), Some(&text("hello")));
}

#[test]
fn lowercase() {
    let mut s = InputSanitizer::new();
    s.add_rule("q", SanitizeRule::Lowercase);
    let r = s.sanitize("fn", &object(vec![("q", text("HELLO"))])).unwrap();
    assert_eq!(r.get("q"), Some(&text("hello")));
}

#[test]
fn uppercase() {
    let mut s = InputSanitizer::new();
    s.add_rule("q", SanitizeRule::Uppercase);
    let r = s.sanitize("fn", &object(vec![("q", text("hello"))])).unwrap();
    assert_eq!(r.get("q"), Some(&text("HELLO")));
}

#[test]
fn strip_chars() {
    let mut s = InputSanitizer::new();
    s.add_rule("q", SanitizeRule::StripChars("<>".to_string()));
    let r = s.sanitize("fn", &object(vec![("q", text("<script>"))])).unwrap();
    assert_eq!(r.get("q"), Some(&text("script")));
}

#[test]
fn default_on_null_field_present() {
    let mut s = InputSanitizer::new();
    s.add_rule("q", SanitizeRule::DefaultOnNull(text("default")));
    let r = s.sanitize("fn", &object(vec![("q", JsonValue::Null)])).unwrap();
    assert_eq!(r.get("q"), Some(&text("default")));
}

#[test]
fn default_on_null_field_absent() {
    let mut s = InputSanitizer::new();
    s.add_rule("missing", SanitizeRule::DefaultOnNull(text("fallback")));
    let r = s.sanitize("fn", &object(vec![])).unwrap();
    assert_eq!(r.get("missing"), Some(&text("fallback")));
}

#[test]
fn rules_applied_in_order() {
    let mut s = InputSanitizer::new();
    s.add_rule("q", SanitizeRule::TrimWhitespace);
    s.add_rule("q", SanitizeRule::Uppercase);
    let r = s.sanitize("fn", &object(vec![("q", text("  hello  "))])).unwrap();
    assert_eq!(r.get("q"), Some(&text("HELLO")));
}

#[test]
fn non_string_field_unchanged_by_string_rules() {
    let mut s = InputSanitizer::new();
    s.add_rule("n", SanitizeRule::TrimWhitespace);
    let r = s.sanitize("fn", &object(vec![("n", number(42))])).unwrap();
    assert_eq!(r.get("n"), Some(&number(42)));
}

#[test]
fn non_object_args_returned_as_is() {
    let s = InputSanitizer::new();
    let input = JsonValue::Array(vec![number(1), number(2), number(3)]);
    let r = s.sanitize("fn", &input).unwrap();
    assert_eq!(r, JsonValue::Array(vec![number(1), number(2), number(3)]));
}

#[test]
fn no_rules_returns_unchanged() {
    let s = InputSanitizer::new();
    let input = object(vec![("a", text("hello")), ("b", number(42))]);
    let r = s.sanitize("fn", &input).unwrap();
    assert_eq!(r, input);
}

#[test]
fn unrelated_fields_preserved() {
    let mut s = InputSanitizer::new();
    s.add_rule("q", SanitizeRule::Uppercase);
    let r = s.sanitize("fn", &object(vec![("q", text("hi")), ("extra", number(99))])).unwrap();
    assert_eq!(r.get("q"), Some(&text("HI")));
    assert_eq!(r.get("extra"), Some(&number(99)));
}

#[test]
fn max_length_unicode_safe() {
    let mut s = InputSanitizer::new();
    s.add_rule("q", SanitizeRule::MaxLength(3));
    let r = s.sanitize("fn", &object(vec![("q", text("héllo"))])).unwrap();
    let result = r.get("q").unwrap().as_str().unwrap();
    assert_eq!(result.chars().count(), 3);
}

#[test]
fn error_display() {
    let e = SanitizeError {
        field: "q".into(),
        message: "bad".into(),
    };
    assert!(e.to_string().contains("q"));
}

#[test]
fn required_present_ok() {
    let mut s = InputSanitizer::new();
    s.add_rule("q", SanitizeRule::Required);
    let r = s.sanitize("fn", &object(vec![("q", text("x"))])).unwrap();
    assert_eq!(r.get("q"), Some(&text("x")));
}

#[test]
fn required_missing_errors() {
    let mut s = InputSanitizer::new();
    s.add_rule("q", SanitizeRule::Required);
    let err = s.sanitize("fn", &object(vec![])).unwrap_err();
    assert_eq!(err.field, "q");
    assert!(err.message.contains("missing"));
}

#[test]
fn required_null_errors() {
    let mut s = InputSanitizer::new();
    s.add_rule("q", SanitizeRule::Required);
    let err = s.sanitize("fn", &object(vec![("q", JsonValue::Null)])).unwrap_err();
    assert_eq!(err.field, "q");
    assert!(err.message.contains("null"));
}

#[test]
fn non_empty_rejects_empty_string() {
    let mut s = InputSanitizer::new();
    s.add_rule("q", SanitizeRule::NonEmpty);
    assert!(s.sanitize("fn", &object(vec![("q", text(""))])).is_err());
}

#[test]
fn non_empty_accepts_non_empty_string() {
    let mut s = InputSanitizer::new();
    s.add_rule("q", SanitizeRule::NonEmpty);
    assert!(s.sanitize("fn", &object(vec![("q", text("ok"))])).is_ok());
}

#[test]
fn non_empty_after_trim_rejects_whitespace_only() {
    let mut s = InputSanitizer::new();
    s.add_rule("q", SanitizeRule::TrimWhitespace);
    s.add_rule("q", SanitizeRule::NonEmpty);
    assert!(s.sanitize("fn", &object(vec![("q", text("   "))])).is_err());
}

#[test]
fn non_empty_ignores_non_strings() {
    let mut s = InputSanitizer::new();
    s.add_rule("n", SanitizeRule::NonEmpty);
    assert!(s.sanitize("fn", &object(vec![("n", number(0))])).is_ok());
}

#[test]
fn max_length_error_rejects_too_long() {
    let mut s = InputSanitizer::new();
    s.add_rule("q", SanitizeRule::MaxLengthError(3));
    let err = s.sanitize("fn", &object(vec![("q", text("hello"))])).unwrap_err();
    assert_eq!(err.field, "q");
    assert!(err.message.contains("too long"));
}

#[test]
fn max_length_error_accepts_within_limit() {
    let mut s = InputSanitizer::new();
    s.add_rule("q", SanitizeRule::MaxLengthError(5));
    assert!(s.sanitize("fn", &object(vec![("q", text("hello"))])).is_ok());
}

#[test]
fn max_length_error_counts_chars_not_bytes() {
    let mut s = InputSanitizer::new();
    s.add_rule("q", SanitizeRule::MaxLengthError(3));
    // "héllo" is 5 chars but more than 5 bytes; must reject on char count.
    assert!(s.sanitize("fn", &object(vec![("q", text("héllo"))])).is_err());
    assert!(s.sanitize("fn", &object(vec![("q", text("hél"))])).is_ok());
}

#[test]
fn one_of_accepts_allowed() {
    let mut s = InputSanitizer::new();
    s.add_rule(
        "mode",
        SanitizeRule::OneOf(vec!["read".into(), "write".into()]),
    );
    assert!(s.sanitize("fn", &object(vec![("mode", text("read"))])).is_ok());
}

#[test]
fn one_of_rejects_disallowed() {
    let mut s = InputSanitizer::new();
    s.add_rule(
        "mode",
        SanitizeRule::OneOf(vec!["read".into(), "write".into()]),
    );
    let err = s.sanitize("fn", &object(vec![("mode", text("delete"))])).unwrap_err();
    assert_eq!(err.field, "mode");
    assert!(err.message.contains("delete"));
}

#[test]
fn normalize_then_validate_pipeline() {
    let mut s = InputSanitizer::new();
    s.add_rule("mode", SanitizeRule::TrimWhitespace);
    s.add_rule("mode", SanitizeRule::Lowercase);
    s.add_rule(
        "mode",
        SanitizeRule::OneOf(vec!["read".into(), "write".into()]),
    );
    let r = s.sanitize("fn", &object(vec![("mode", text("  READ "))])).unwrap();
    assert_eq!(r.get("mode"), Some(&text("read")));
    assert!(s.sanitize("fn", &object(vec![("mode", text("  DELETE "))])).is_err());
}

#[test]
fn add_rule_is_chainable() {
    let mut s = InputSanitizer::new();
    s.add_rule("q", SanitizeRule::TrimWhitespace)
        .add_rule("q", SanitizeRule::Uppercase);
    let r = s.sanitize("fn", &object(vec![("q", text("  hi "))])).unwrap();
    assert_eq!(r.get("q"), Some(&text("HI")));
}

#[test]
fn field_count_tracks_distinct_fields() {
    let mut s = InputSanitizer::new();
    assert_eq!(s.field_count(), 0);
    s.add_rule("a", SanitizeRule::TrimWhitespace);
    s.add_rule("a", SanitizeRule::Uppercase);
    s.add_rule("b", SanitizeRule::Lowercase);
    assert_eq!(s.field_count(), 2);
}
