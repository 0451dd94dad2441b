//! Integration tests exercising the public API as an external consumer would.

use tool_input_sanitizer::{InputSanitizer, JsonNumber, JsonValue, SanitizeRule};

fn text(s: &str) -> JsonValue {
    JsonValue::String(s.to_string())
}

fn number(i: u64) -> JsonValue {
    JsonValue::Number(JsonNumber::PosInt(i))
}

fn object(members: Vec<(&str, JsonValue)>) -> JsonValue {
    JsonValue::Object(members.into_iter().map(|(k, v)| (k.to_string(), v)).collect())
}

#[test]
fn realistic_search_tool_pipeline() {
    let mut s = InputSanitizer::new();
    s.add_rule("query", SanitizeRule::TrimWhitespace);
    s.add_rule("query", SanitizeRule::NonEmpty);
    s.add_rule("query", SanitizeRule::MaxLength(64));

    let out = s
        .sanitize(
            "web_search",
            &object(vec![("query", text("   rust crates  ")), ("limit", number(5))]),
        )
        .unwrap();

    assert_eq!(out.get("query"), Some(&text("rust crates")));
    // Unrelated fields are preserved untouched.
    assert_eq!(out.get("limit"), Some(&number(5)));
}

#[test]
fn rejects_invalid_enum_and_reports_field() {
    let mut s = InputSanitizer::new();
    s.add_rule("direction", SanitizeRule::Lowercase);
    s.add_rule(
        "direction",
        SanitizeRule::OneOf(vec!["asc".into(), "desc".into()]),
    );

    let ok = s.sanitize("sort", &object(vec![("direction", text("ASC"))])).unwrap();
    assert_eq!(ok.get("direction"), Some(&text("asc")));

    let err = s
        .sanitize("sort", &object(vec![("direction", text("sideways"))]))
        .unwrap_err();
    assert_eq!(err.field, "direction");
    assert!(err.to_string().contains("direction"));
}

#[test]
fn required_field_enforced_end_to_end() {
    let mut s = InputSanitizer::new();
    s.add_rule("path", SanitizeRule::Required);
    s.add_rule("path", SanitizeRule::StripChars("\0".into()));

    assert!(s.sanitize("read_file", &object(vec![])).is_err());
    assert!(s.sanitize("read_file", &object(vec![("path", JsonValue::Null)])).is_err());
    assert!(s
        .sanitize("read_file", &object(vec![("path", text("/etc/hosts"))]))
        .is_ok());
}

#[test]
fn default_fills_missing_optional_field() {
    let mut s = InputSanitizer::new();
    s.add_rule("format", SanitizeRule::DefaultOnNull(text("json")));

    let filled = s.sanitize("export", &object(vec![])).unwrap();
    assert_eq!(filled.get("format"), Some(&text("json")));

    let respected = s.sanitize("export", &object(vec![("format", text("csv"))])).unwrap();
    assert_eq!(respected.get("format"), Some(&text("csv")));
}

#[test]
fn non_object_arguments_pass_through_unchanged() {
    let s = InputSanitizer::new();
    assert_eq!(
        s.sanitize("x", &text("plain string")).unwrap(),
        text("plain string")
    );
    assert_eq!(s.sanitize("x", &number(42)).unwrap(), number(42));
    assert_eq!(
        s.sanitize("x", &JsonValue::Array(vec![number(1), number(2), number(3)])).unwrap(),
        JsonValue::Array(vec![number(1), number(2), number(3)])
    );
}
