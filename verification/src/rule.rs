//! The per-field rules and what one rule does to one value.

use vstd::prelude::*;
use crate::json::{Json, JsonValue};
use crate::text::{
    decimal, decimal_string, lowercase, lowercase_string, strip, strip_string, trim,
    trim_string, truncate, truncate_string, uppercase, uppercase_string,
};

verus! {

/// A sanitization rule for a field.
///
/// `TrimWhitespace`, `MaxLength`, `Lowercase`, `Uppercase`, `StripChars` and
/// `DefaultOnNull` normalize: they always succeed. `Required`, `NonEmpty`,
/// `MaxLengthError` and `OneOf` validate: they leave the value as it is or
/// reject it with a [`SanitizeError`].
#[derive(Debug, Clone)]
pub enum SanitizeRule {
    /// Trim leading/trailing whitespace from strings.
    TrimWhitespace,
    /// Truncate strings to at most N characters.
    MaxLength(usize),
    /// Convert string to lowercase.
    Lowercase,
    /// Convert string to uppercase.
    Uppercase,
    /// Remove characters matching a set (provided as a string of chars to strip).
    StripChars(String),
    /// Replace a null or missing value with a default value; later rules
    /// of the field then apply to it.
    DefaultOnNull(JsonValue),
    /// Require the field to be present and non-null.
    Required,
    /// Reject empty strings; other values pass through unchanged.
    NonEmpty,
    /// Reject strings longer than `N` characters.
    MaxLengthError(usize),
    /// Reject string values that are not exactly one of the allowed options;
    /// other values pass through unchanged.
    OneOf(Vec<String>),
}

/// An error produced when a validation rule rejects a field value.
#[derive(Debug, Clone, PartialEq, Eq)]
pub struct SanitizeError {
    /// Name of the field that failed validation.
    pub field: String,
    /// Human-readable description of why the field was rejected.
    pub message: String,
}

/// The model of a [`SanitizeError`].
pub struct ErrorView {
    pub field: Seq<char>,
    pub message: Seq<char>,
}

impl View for SanitizeError {
    type V = ErrorView;

    open spec fn view(&self) -> ErrorView {
        ErrorView { field: self.field@, message: self.message@ }
    }
}

/// The model of the outcome of a rule or of a sanitization.
pub open spec fn outcome_view(r: Result<JsonValue, SanitizeError>) -> Result<Json, ErrorView> {
    match r {
        Ok(v) => Ok(v@),
        Err(e) => Err(e@),
    }
}

/// The error of `field` with `message`.
pub open spec fn rejection(field: Seq<char>, message: Seq<char>) -> ErrorView {
    ErrorView { field, message }
}

/// The message of a `MaxLengthError` rejection.
pub open spec fn too_long_message(len: nat, max: nat) -> Seq<char> {
    "value is too long: "@ + decimal(len) + " chars (max "@ + decimal(max) + ")"@
}

/// The message of a `OneOf` rejection.
pub open spec fn not_allowed_message(s: Seq<char>) -> Seq<char> {
    "value '"@ + s + "' is not one of the allowed options"@
}

/// Whether `s` is one of `allowed`, compared exactly.
pub open spec fn is_allowed(allowed: Seq<String>, s: Seq<char>) -> bool {
    exists|i: int| 0 <= i < allowed.len() && #[trigger] allowed[i]@ == s
}

/// The rule looks at string values only.
pub open spec fn is_string_rule(rule: SanitizeRule) -> bool {
    match rule {
        SanitizeRule::DefaultOnNull(_) | SanitizeRule::Required => false,
        _ => true,
    }
}

/// The text of an error: `sanitize error on '<field>': <message>`.
pub open spec fn error_text(e: ErrorView) -> Seq<char> {
    "sanitize error on '"@ + e.field + "': "@ + e.message
}

/// The rule normalizes a value and never fails.
pub open spec fn is_normalizer(rule: SanitizeRule) -> bool {
    match rule {
        SanitizeRule::TrimWhitespace | SanitizeRule::MaxLength(_) | SanitizeRule::Lowercase
        | SanitizeRule::Uppercase | SanitizeRule::StripChars(_) | SanitizeRule::DefaultOnNull(
            _,
        ) => true,
        _ => false,
    }
}

/// What `rule` makes of the value `v` of `field`: the new value, or the
/// rejection.
pub open spec fn rule_outcome(field: Seq<char>, v: Json, rule: SanitizeRule) -> Result<Json, ErrorView> {
    match rule {
        SanitizeRule::TrimWhitespace => Ok(
            match v {
                Json::String(s) => Json::String(trim(s)),
                _ => v,
            },
        ),
        SanitizeRule::MaxLength(n) => Ok(
            match v {
                Json::String(s) => Json::String(truncate(s, n as nat)),
                _ => v,
            },
        ),
        SanitizeRule::Lowercase => Ok(
            match v {
                Json::String(s) => Json::String(lowercase(s)),
                _ => v,
            },
        ),
        SanitizeRule::Uppercase => Ok(
            match v {
                Json::String(s) => Json::String(uppercase(s)),
                _ => v,
            },
        ),
        SanitizeRule::StripChars(chars) => Ok(
            match v {
                Json::String(s) => Json::String(strip(s, chars@)),
                _ => v,
            },
        ),
        SanitizeRule::DefaultOnNull(default) => Ok(
            match v {
                Json::Null => default@,
                _ => v,
            },
        ),
        SanitizeRule::Required => match v {
            Json::Null => Err(rejection(field, "required field is null"@)),
            _ => Ok(v),
        },
        SanitizeRule::NonEmpty => match v {
            Json::String(s) => if s.len() == 0 {
                Err(rejection(field, "value must not be empty"@))
            } else {
                Ok(v)
            },
            _ => Ok(v),
        },
        SanitizeRule::MaxLengthError(n) => match v {
            Json::String(s) => if s.len() > n {
                Err(rejection(field, too_long_message(s.len(), n as nat)))
            } else {
                Ok(v)
            },
            _ => Ok(v),
        },
        SanitizeRule::OneOf(allowed) => match v {
            Json::String(s) => if is_allowed(allowed@, s) {
                Ok(v)
            } else {
                Err(rejection(field, not_allowed_message(s)))
            },
            _ => Ok(v),
        },
    }
}

impl SanitizeError {
    /// The error as text: `sanitize error on '<field>': <message>`.
    pub fn to_string(&self) -> (r: String)
        ensures
            r@ == error_text(self@),
    {
        let mut text = String::from_str("sanitize error on '");
        text.append(self.field.as_str());
        text.append("': ");
        text.append(self.message.as_str());
        text
    }
}

/// Whether `s` is one of `allowed`.
fn allowed_contains(allowed: &Vec<String>, s: &String) -> (r: bool)
    ensures
        r == is_allowed(allowed@, s@),
{
    let mut i: usize = 0;
    while i < allowed.len()
        invariant
            i <= allowed.len(),
            forall|j: int| 0 <= j < i ==> allowed@[j]@ != s@,
        decreases allowed.len() - i,
    {
        if allowed[i] == *s {
            return true;
        }
        i = i + 1;
    }
    false
}

/// The error of `field` with `message`.
fn reject(field: &String, message: String) -> (e: SanitizeError)
    ensures
        e@ == rejection(field@, message@),
{
    SanitizeError { field: field.clone(), message }
}

/// `s` as a string value.
fn string_value(s: String) -> (v: JsonValue)
    ensures
        v@ == Json::String(s@),
{
    JsonValue::String(s)
}

/// Applies one rule to the value `val` of `field`.
pub fn apply_rule(field: &String, val: &JsonValue, rule: &SanitizeRule) -> (r: Result<
    JsonValue,
    SanitizeError,
>)
    ensures
        outcome_view(r) == rule_outcome(field@, val@, *rule),
{
    match rule {
        SanitizeRule::TrimWhitespace => match val {
            JsonValue::String(s) => Ok(string_value(trim_string(s))),
            _ => Ok(val.deep_copy()),
        },
        SanitizeRule::MaxLength(n) => match val {
            JsonValue::String(s) => Ok(string_value(truncate_string(s, *n))),
            _ => Ok(val.deep_copy()),
        },
        SanitizeRule::Lowercase => match val {
            JsonValue::String(s) => Ok(string_value(lowercase_string(s))),
            _ => Ok(val.deep_copy()),
        },
        SanitizeRule::Uppercase => match val {
            JsonValue::String(s) => Ok(string_value(uppercase_string(s))),
            _ => Ok(val.deep_copy()),
        },
        SanitizeRule::StripChars(chars) => match val {
            JsonValue::String(s) => Ok(string_value(strip_string(s, chars))),
            _ => Ok(val.deep_copy()),
        },
        SanitizeRule::DefaultOnNull(default) => match val {
            JsonValue::Null => Ok(default.deep_copy()),
            _ => Ok(val.deep_copy()),
        },
        SanitizeRule::Required => match val {
            JsonValue::Null => Err(reject(field, String::from_str("required field is null"))),
            _ => Ok(val.deep_copy()),
        },
        SanitizeRule::NonEmpty => {
            if let JsonValue::String(s) = val {
                if s.as_str().is_empty() {
                    return Err(reject(field, String::from_str("value must not be empty")));
                }
            }
            Ok(val.deep_copy())
        },
        SanitizeRule::MaxLengthError(n) => {
            if let JsonValue::String(s) = val {
                let len = s.as_str().unicode_len();
                if len > *n {
                    let mut message = String::from_str("value is too long: ");
                    let len_text = decimal_string(len);
                    message.append(len_text.as_str());
                    message.append(" chars (max ");
                    let max_text = decimal_string(*n);
                    message.append(max_text.as_str());
                    message.append(")");
                    return Err(reject(field, message));
                }
            }
            Ok(val.deep_copy())
        },
        SanitizeRule::OneOf(allowed) => {
            if let JsonValue::String(s) = val {
                if !allowed_contains(allowed, s) {
                    let mut message = String::from_str("value '");
                    message.append(s.as_str());
                    message.append("' is not one of the allowed options");
                    return Err(reject(field, message));
                }
            }
            Ok(val.deep_copy())
        },
    }
}

} // verus!
