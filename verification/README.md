# tool-input-sanitizer

Sanitize and normalize the JSON arguments of LLM tool calls before they reach
the tool. Rules are declared per field and applied in the order they were
added: `TrimWhitespace`, `MaxLength`, `Lowercase`, `Uppercase`, `StripChars`
and `DefaultOnNull` normalize; `Required`, `NonEmpty`, `MaxLengthError` and
`OneOf` validate and reject with a `SanitizeError`.

The library is written in Verus and verified:

- `src/json.rs`: JSON values (`JsonValue`) and their model (`Json`).
- `src/text.rs`: trimming, truncation, case mapping, stripping, decimals.
- `src/rule.rs`: the rules and what one rule does to one value.
- `src/sanitizer.rs`: `InputSanitizer`, its rules per field and `sanitize`.
- `src/laws.rs`: properties that hold for every input, proved.

`app/lib.rs` converts between `serde_json::Value` and `JsonValue`, and gives
`Display` and `std::error::Error` to `SanitizeFailure`, its copy of
`SanitizeError`.
