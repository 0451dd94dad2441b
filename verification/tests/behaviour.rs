use tool_input_sanitizer::{
    apply_rule, InputSanitizer, JsonNumber, JsonValue, SanitizeError, SanitizeRule,
};

fn text(s: &str) -> JsonValue {
    JsonValue::String(s.to_string())
}

fn number(i: u64) -> JsonValue {
    JsonValue::Number(JsonNumber::PosInt(i))
}

fn object(members: Vec<(&str, JsonValue)>) -> JsonValue {
    JsonValue::Object(members.into_iter().map(|(k, v)| (k.to_string(), v)).collect())
}

fn one_rule(field: &str, rule: SanitizeRule, value: JsonValue) -> Result<JsonValue, SanitizeError> {
    let mut s = InputSanitizer::new();
    s.add_rule(field, rule);
    s.sanitize("tool", &object(vec![(field, value)]))
}

#[test]
fn trim_uses_unicode_white_space() {
    let r = one_rule("q", SanitizeRule::TrimWhitespace, text("\u{3000}\u{a0}\t x y\n\u{2029}")).unwrap();
    assert_eq!(r.get("q"), Some(&text("x y")));
}

#[test]
fn trim_then_non_empty_rejects_unicode_blank() {
    let mut s = InputSanitizer::new();
    s.add_rule("q", SanitizeRule::TrimWhitespace).add_rule("q", SanitizeRule::NonEmpty);
    let err = s.sanitize("tool", &object(vec![("q", text("\u{2003}\u{85} \u{205f}"))])).unwrap_err();
    assert_eq!(err.message, "value must not be empty");
}

#[test]
fn case_mapping_is_unicode() {
    let r = one_rule("q", SanitizeRule::Lowercase, text("ÉCOLE")).unwrap();
    assert_eq!(r.get("q"), Some(&text("école")));
    let r = one_rule("q", SanitizeRule::Uppercase, text("straße")).unwrap();
    assert_eq!(r.get("q"), Some(&text("STRASSE")));
}

#[test]
fn max_length_zero_and_longer_limit() {
    let r = one_rule("q", SanitizeRule::MaxLength(0), text("abc")).unwrap();
    assert_eq!(r.get("q"), Some(&text("")));
    let r = one_rule("q", SanitizeRule::MaxLength(10), text("abc")).unwrap();
    assert_eq!(r.get("q"), Some(&text("abc")));
    let r = one_rule("q", SanitizeRule::MaxLength(2), text("日本語")).unwrap();
    assert_eq!(r.get("q"), Some(&text("日本")));
}

#[test]
fn max_length_then_max_length_error_accepts() {
    let mut s = InputSanitizer::new();
    s.add_rule("q", SanitizeRule::MaxLength(4)).add_rule("q", SanitizeRule::MaxLengthError(4));
    let r = s.sanitize("tool", &object(vec![("q", text("abcdefgh"))])).unwrap();
    assert_eq!(r.get("q"), Some(&text("abcd")));
}

#[test]
fn strip_removes_every_listed_char() {
    let r = one_rule("q", SanitizeRule::StripChars("<>\"é".to_string()), text("<a href=\"é\">x</a>")).unwrap();
    assert_eq!(r.get("q"), Some(&text("a href=x/a")));
}

#[test]
fn error_messages_are_exact() {
    let e = one_rule("q", SanitizeRule::MaxLengthError(3), text("hello")).unwrap_err();
    assert_eq!(e.message, "value is too long: 5 chars (max 3)");
    let e = one_rule("q", SanitizeRule::MaxLengthError(9), text("abcdefghijkl")).unwrap_err();
    assert_eq!(e.message, "value is too long: 12 chars (max 9)");
    let e = one_rule("q", SanitizeRule::MaxLengthError(0), text("é")).unwrap_err();
    assert_eq!(e.message, "value is too long: 1 chars (max 0)");
    let e = one_rule("m", SanitizeRule::OneOf(vec!["read".into()]), text("Read")).unwrap_err();
    assert_eq!(e.message, "value 'Read' is not one of the allowed options");
    assert_eq!(e.field, "m");
    let e = one_rule("q", SanitizeRule::Required, JsonValue::Null).unwrap_err();
    assert_eq!(e.message, "required field is null");
    let e = one_rule("q", SanitizeRule::NonEmpty, text("")).unwrap_err();
    assert_eq!(e.message, "value must not be empty");
    let mut s = InputSanitizer::new();
    s.add_rule("q", SanitizeRule::Required);
    let e = s.sanitize("tool", &object(vec![])).unwrap_err();
    assert_eq!(e.message, "required field is missing");
}

#[test]
fn error_text_names_field_and_message() {
    let e = SanitizeError { field: "q".into(), message: "bad".into() };
    assert_eq!(e.to_string(), "sanitize error on 'q': bad");
}

#[test]
fn validators_keep_accepted_values() {
    let v = text("  keep me  ");
    assert_eq!(one_rule("q", SanitizeRule::Required, v.clone()).unwrap().get("q"), Some(&v));
    assert_eq!(one_rule("q", SanitizeRule::NonEmpty, v.clone()).unwrap().get("q"), Some(&v));
    assert_eq!(one_rule("q", SanitizeRule::MaxLengthError(11), v.clone()).unwrap().get("q"), Some(&v));
    assert_eq!(
        one_rule("q", SanitizeRule::OneOf(vec!["  keep me  ".into()]), v.clone()).unwrap().get("q"),
        Some(&v)
    );
}

#[test]
fn string_rules_keep_other_values() {
    let values = vec![
        JsonValue::Null,
        JsonValue::Bool(true),
        JsonValue::Number(JsonNumber::NegInt(-7)),
        JsonValue::Number(JsonNumber::Float(0x400921fb54442d18)),
        JsonValue::Array(vec![text(" a ")]),
        object(vec![("inner", text(" b "))]),
    ];
    for v in values {
        for rule in vec![
            SanitizeRule::TrimWhitespace,
            SanitizeRule::MaxLength(0),
            SanitizeRule::Lowercase,
            SanitizeRule::Uppercase,
            SanitizeRule::StripChars(" ".into()),
            SanitizeRule::NonEmpty,
            SanitizeRule::MaxLengthError(0),
            SanitizeRule::OneOf(vec![]),
        ] {
            assert_eq!(one_rule("q", rule, v.clone()).unwrap().get("q"), Some(&v));
        }
    }
}

#[test]
fn first_rejection_ends_evaluation() {
    let mut s = InputSanitizer::new();
    s.add_rule("q", SanitizeRule::NonEmpty);
    s.add_rule("q", SanitizeRule::Required);
    s.add_rule("r", SanitizeRule::Required);
    let e = s.sanitize("tool", &object(vec![("q", text("")), ("r", JsonValue::Null)])).unwrap_err();
    assert_eq!(e.field, "q");
    assert_eq!(e.message, "value must not be empty");
}

#[test]
fn absent_field_rules() {
    // A default for an absent field goes through the later rules.
    let mut s = InputSanitizer::new();
    s.add_rule("q", SanitizeRule::DefaultOnNull(text("  x  ")));
    s.add_rule("q", SanitizeRule::TrimWhitespace);
    let r = s.sanitize("tool", &object(vec![])).unwrap();
    assert_eq!(r.get("q"), Some(&text("x")));
    // A later default does not replace an earlier one, as for a null field.
    let mut s = InputSanitizer::new();
    s.add_rule("q", SanitizeRule::DefaultOnNull(number(1)));
    s.add_rule("q", SanitizeRule::DefaultOnNull(number(2)));
    let r = s.sanitize("tool", &object(vec![])).unwrap();
    assert_eq!(r.get("q"), Some(&number(1)));
    let r = s.sanitize("tool", &object(vec![("q", JsonValue::Null)])).unwrap();
    assert_eq!(r.get("q"), Some(&number(1)));
    // Required accepts an absent field once a default has filled it.
    let mut s = InputSanitizer::new();
    s.add_rule("q", SanitizeRule::DefaultOnNull(text("a")));
    s.add_rule("q", SanitizeRule::Required);
    assert_eq!(s.sanitize("tool", &object(vec![])).unwrap(), object(vec![("q", text("a"))]));
    assert_eq!(
        s.sanitize("tool", &object(vec![("q", JsonValue::Null)])).unwrap(),
        object(vec![("q", text("a"))])
    );
    // Required before any default rejects an absent field as missing.
    let mut s = InputSanitizer::new();
    s.add_rule("q", SanitizeRule::Required);
    s.add_rule("q", SanitizeRule::DefaultOnNull(text("a")));
    assert_eq!(s.sanitize("tool", &object(vec![])).unwrap_err().message, "required field is missing");
    // A validator after a default may reject it.
    let mut s = InputSanitizer::new();
    s.add_rule("q", SanitizeRule::DefaultOnNull(text("")));
    s.add_rule("q", SanitizeRule::NonEmpty);
    assert_eq!(s.sanitize("tool", &object(vec![])).unwrap_err().message, "value must not be empty");
    // Other rules leave an absent field absent.
    let mut s = InputSanitizer::new();
    s.add_rule("q", SanitizeRule::TrimWhitespace);
    s.add_rule("q", SanitizeRule::NonEmpty);
    let r = s.sanitize("tool", &object(vec![("other", number(3))])).unwrap();
    assert_eq!(r, object(vec![("other", number(3))]));
}

#[test]
fn default_on_null_keeps_present_value() {
    let r = one_rule("q", SanitizeRule::DefaultOnNull(number(1)), JsonValue::Bool(false)).unwrap();
    assert_eq!(r.get("q"), Some(&JsonValue::Bool(false)));
}

#[test]
fn members_keep_their_places() {
    let mut s = InputSanitizer::new();
    s.add_rule("b", SanitizeRule::Uppercase);
    s.add_rule("z", SanitizeRule::DefaultOnNull(number(0)));
    let r = s
        .sanitize("tool", &object(vec![("a", number(1)), ("b", text("x")), ("c", JsonValue::Null)]))
        .unwrap();
    assert_eq!(
        r,
        object(vec![("a", number(1)), ("b", text("X")), ("c", JsonValue::Null), ("z", number(0))])
    );
}

#[test]
fn non_object_scalars_pass_through() {
    let s = InputSanitizer::new();
    assert_eq!(s.sanitize("tool", &JsonValue::Null).unwrap(), JsonValue::Null);
    assert_eq!(s.sanitize("tool", &JsonValue::Bool(true)).unwrap(), JsonValue::Bool(true));
}

#[test]
fn field_count_after_chained_rules() {
    let mut s = InputSanitizer::default();
    s.add_rule("a", SanitizeRule::Required)
        .add_rule("b", SanitizeRule::Required)
        .add_rule("a", SanitizeRule::NonEmpty);
    assert_eq!(s.field_count(), 2);
}

#[test]
fn apply_rule_on_one_value() {
    let field = "f".to_string();
    assert_eq!(
        apply_rule(&field, &text("Read"), &SanitizeRule::Lowercase).unwrap(),
        text("read")
    );
    let e = apply_rule(&field, &JsonValue::Null, &SanitizeRule::Required).unwrap_err();
    assert_eq!(e.field, "f");
}

#[test]
fn get_reads_first_member_of_objects_only() {
    let v = object(vec![("k", number(1)), ("k", number(2))]);
    assert_eq!(v.get("k"), Some(&number(1)));
    assert_eq!(v.get("absent"), None);
    assert_eq!(text("k").get("k"), None);
    assert_eq!(text("k").as_str(), Some("k"));
    assert_eq!(number(1).as_str(), None);
}

#[test]
fn copies_are_equal() {
    let v = object(vec![("a", JsonValue::Array(vec![text("x"), JsonValue::Null])), ("b", number(3))]);
    assert_eq!(v.deep_copy(), v);
    assert_eq!(v.clone(), v);
}
