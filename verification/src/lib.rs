//! Sanitizes and normalizes the JSON arguments of LLM tool calls before they
//! reach the tool: per-field rules trim, truncate, recase, strip, default,
//! and validate values.
//!
//! `json` holds the values and their model, `text` the character-level
//! operations, `rule` what one rule does to one value, `sanitizer` the
//! per-field rule sets and their application to arguments, and `laws` what
//! holds of all of these for every input.

pub mod json;
pub mod laws;
pub mod rule;
pub mod sanitizer;
pub mod text;

pub use json::{Json, JsonNumber, JsonValue};
pub use rule::{apply_rule, SanitizeError, SanitizeRule};
pub use sanitizer::InputSanitizer;
