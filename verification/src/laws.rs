//! What holds of the sanitizer for all inputs.

use vstd::prelude::*;
use crate::json::{find_key, lemma_find_key, lookup, Json};
use crate::rule::{
    is_allowed, is_normalizer, is_string_rule, rule_outcome, ErrorView, SanitizeRule,
};
use crate::sanitizer::{
    absent_outcome, add_rule_spec, field_names, well_formed, field_outcome, fields_outcome, present_outcome,
    sanitize_spec, FieldRules, lemma_absent_rejection_stays, lemma_fields_rejection_stays,
};
use crate::text::{decimal, is_white_space, strip, trim, trim_start, trim_end, truncate};

verus! {

/// Arguments that are not an object come back unchanged, whatever the rules.
pub proof fn law_non_object_arguments_unchanged(fields: FieldRules, args: Json)
    requires
        !(args is Object),
    ensures
        sanitize_spec(fields, args) == Ok::<Json, ErrorView>(args),
{
}

/// A sanitizer without rules gives back its arguments unchanged.
pub proof fn law_no_rules_no_change(args: Json)
    ensures
        sanitize_spec(Seq::empty(), args) == Ok::<Json, ErrorView>(args),
{
}

/// Sanitizing keeps every member of the arguments in its place with its key,
/// and leaves the value of every member whose key has no rules untouched.
pub proof fn law_unruled_members_preserved(
    fields: FieldRules,
    members: Seq<(Seq<char>, Json)>,
    out: Seq<(Seq<char>, Json)>,
)
    requires
        fields_outcome(fields, members) == Ok::<Seq<(Seq<char>, Json)>, ErrorView>(out),
    ensures
        members.len() <= out.len(),
        forall|i: int| 0 <= i < members.len() ==> (#[trigger] out[i]).0 == members[i].0,
        forall|i: int|
            0 <= i < members.len() && !field_names(fields).contains(#[trigger] members[i].0)
                ==> out[i] == members[i],
    decreases fields.len(),
{
    if fields.len() > 0 {
        let prefix = fields.drop_last();
        let field = fields.last().0;
        let rules = fields.last().1;
        let m = fields_outcome(prefix, members)->Ok_0;
        law_unruled_members_preserved(prefix, members, m);
        assert(field_names(fields) =~= field_names(prefix).push(field));
        assert forall|k: Seq<char>| !field_names(fields).contains(k) implies !field_names(
            prefix,
        ).contains(k) && k != field by {
            if field_names(prefix).contains(k) {
                let j = choose|j: int| 0 <= j < field_names(prefix).len() && field_names(prefix)[j] == k;
                assert(field_names(fields)[j] == k);
            }
            assert(field_names(fields)[fields.len() - 1] == field);
        }
        lemma_find_key(m, field);
        match find_key(m, field) {
            Some(i) => {
                assert forall|j: int| 0 <= j < members.len() implies (#[trigger] out[j]).0 == members[j].0 by {
                    assert(m[j].0 == members[j].0);
                }
                assert forall|j: int|
                    0 <= j < members.len() && !field_names(fields).contains(#[trigger] members[j].0)
                    implies out[j] == members[j] by {
                    assert(!field_names(prefix).contains(members[j].0));
                    assert(m[j] == members[j]);
                }
            },
            None => {
                assert forall|j: int| 0 <= j < members.len() implies (#[trigger] out[j]).0 == members[j].0 by {
                    assert(m[j].0 == members[j].0);
                }
                assert forall|j: int|
                    0 <= j < members.len() && !field_names(fields).contains(#[trigger] members[j].0)
                    implies out[j] == members[j] by {
                    assert(!field_names(prefix).contains(members[j].0));
                    assert(m[j] == members[j]);
                }
            },
        }
    }
}

/// Rules are applied in order: running `first` and then `second` on a field
/// is running `first` and, unless it rejected the value, `second` on what
/// `first` returned. In particular the first rejection ends the evaluation.
pub proof fn law_rules_apply_in_order(
    field: Seq<char>,
    v: Json,
    first: Seq<SanitizeRule>,
    second: Seq<SanitizeRule>,
)
    ensures
        present_outcome(field, v, first + second) == match present_outcome(field, v, first) {
            Ok(w) => present_outcome(field, w, second),
            Err(e) => Err(e),
        },
    decreases second.len(),
{
    if second.len() == 0 {
        assert(first + second =~= first);
    } else {
        assert((first + second).drop_last() =~= first + second.drop_last());
        assert((first + second).last() == second.last());
        law_rules_apply_in_order(field, v, first, second.drop_last());
    }
}

/// Normalizing rules never reject a value.
pub proof fn law_normalizers_never_reject(field: Seq<char>, v: Json, rule: SanitizeRule)
    requires
        is_normalizer(rule),
    ensures
        rule_outcome(field, v, rule) is Ok,
{
}

/// A field whose rules all normalize is never rejected: rejections come from
/// the validation rules alone.
pub proof fn law_only_validators_reject(field: Seq<char>, v: Json, rules: Seq<SanitizeRule>)
    requires
        forall|i: int| 0 <= i < rules.len() ==> is_normalizer(#[trigger] rules[i]),
    ensures
        present_outcome(field, v, rules) is Ok,
        absent_outcome(field, rules) is Ok,
    decreases rules.len(),
{
    if rules.len() > 0 {
        law_only_validators_reject(field, v, rules.drop_last());
        assert(is_normalizer(rules[rules.len() - 1]));
    }
}

/// Validation rules leave the value they accept as it is.
pub proof fn law_validators_keep_value(field: Seq<char>, v: Json, rule: SanitizeRule, w: Json)
    requires
        !is_normalizer(rule),
        rule_outcome(field, v, rule) == Ok::<Json, ErrorView>(w),
    ensures
        w == v,
{
}

/// Rules on strings pass every other value through untouched.
pub proof fn law_string_rules_keep_non_strings(field: Seq<char>, v: Json, rule: SanitizeRule)
    requires
        is_string_rule(rule),
        !(v is String),
    ensures
        rule_outcome(field, v, rule) == Ok::<Json, ErrorView>(v),
{
}

/// Every rejection names the field whose rules rejected it.
pub proof fn law_rejection_names_field(fields: FieldRules, members: Seq<(Seq<char>, Json)>)
    ensures
        fields_outcome(fields, members) matches Err(e) ==> field_names(fields).contains(e.field),
    decreases fields.len(),
{
    if fields.len() > 0 {
        let prefix = fields.drop_last();
        law_rejection_names_field(prefix, members);
        assert(field_names(fields) =~= field_names(prefix).push(fields.last().0));
        if let Err(e) = fields_outcome(prefix, members) {
            let j = choose|j: int| 0 <= j < field_names(prefix).len() && field_names(prefix)[j] == e.field;
            assert(field_names(fields)[j] == e.field);
        } else {
            let m = fields_outcome(prefix, members)->Ok_0;
            let field = fields.last().0;
            let rules = fields.last().1;
            lemma_rejection_of_field(field, rules, m);
            assert(field_names(fields)[fields.len() - 1] == field);
        }
    }
}

/// The rejections of one field's rules name that field.
proof fn lemma_rejection_of_field(field: Seq<char>, rules: Seq<SanitizeRule>, members: Seq<(Seq<char>, Json)>)
    ensures
        field_outcome(members, field, rules) matches Err(e) ==> e.field == field,
{
    match find_key(members, field) {
        Some(i) => lemma_present_rejection_field(field, members[i].1, rules),
        None => lemma_absent_rejection_field(field, rules),
    }
}

proof fn lemma_present_rejection_field(field: Seq<char>, v: Json, rules: Seq<SanitizeRule>)
    ensures
        present_outcome(field, v, rules) matches Err(e) ==> e.field == field,
    decreases rules.len(),
{
    if rules.len() > 0 {
        lemma_present_rejection_field(field, v, rules.drop_last());
    }
}

proof fn lemma_absent_rejection_field(field: Seq<char>, rules: Seq<SanitizeRule>)
    ensures
        absent_outcome(field, rules) matches Err(e) ==> e.field == field,
    decreases rules.len(),
{
    if rules.len() > 0 {
        lemma_absent_rejection_field(field, rules.drop_last());
    }
}

/// `MaxLength(n)` leaves a string of at most `n` characters, the first ones
/// of the original, counted in characters rather than bytes; `MaxLengthError(n)`
/// then accepts it.
pub proof fn law_max_length_truncates(field: Seq<char>, s: Seq<char>, n: usize)
    ensures
        rule_outcome(field, Json::String(s), SanitizeRule::MaxLength(n)) == Ok::<Json, ErrorView>(
            Json::String(truncate(s, n as nat)),
        ),
        truncate(s, n as nat).len() <= n,
        truncate(s, n as nat).len() == if s.len() <= n {
            s.len()
        } else {
            n as nat
        },
        truncate(s, n as nat) == s.take(truncate(s, n as nat).len() as int),
        present_outcome(
            field,
            Json::String(s),
            seq![SanitizeRule::MaxLength(n), SanitizeRule::MaxLengthError(n)],
        ) is Ok,
{
    if s.len() <= n {
        assert(s.take(s.len() as int) =~= s);
    }
    let one = seq![SanitizeRule::MaxLength(n)];
    let rules = seq![SanitizeRule::MaxLength(n), SanitizeRule::MaxLengthError(n)];
    assert(one.drop_last() =~= Seq::<SanitizeRule>::empty());
    assert(one.last() == SanitizeRule::MaxLength(n));
    assert(present_outcome(field, Json::String(s), Seq::<SanitizeRule>::empty()) == Ok::<Json, ErrorView>(Json::String(s)));
    assert(present_outcome(field, Json::String(s), one) == Ok::<Json, ErrorView>(Json::String(truncate(s, n as nat))));
    assert(rules.drop_last() =~= one);
    assert(rules.last() == SanitizeRule::MaxLengthError(n));
}

/// A string of white space alone trims to the empty string.
proof fn lemma_trim_blank(s: Seq<char>)
    requires
        forall|i: int| 0 <= i < s.len() ==> is_white_space(#[trigger] s[i]),
    ensures
        trim_start(s) == Seq::<char>::empty(),
    decreases s.len(),
{
    if s.len() > 0 {
        let rest = s.drop_first();
        assert forall|i: int| 0 <= i < rest.len() implies is_white_space(#[trigger] rest[i]) by {
            assert(rest[i] == s[i + 1]);
        }
        lemma_trim_blank(rest);
    } else {
        assert(s =~= Seq::<char>::empty());
    }
}

/// `TrimWhitespace` followed by `NonEmpty` rejects strings of white space.
pub proof fn law_trim_then_non_empty_rejects_blank(field: Seq<char>, s: Seq<char>)
    requires
        forall|i: int| 0 <= i < s.len() ==> is_white_space(#[trigger] s[i]),
    ensures
        present_outcome(
            field,
            Json::String(s),
            seq![SanitizeRule::TrimWhitespace, SanitizeRule::NonEmpty],
        ) is Err,
{
    lemma_trim_blank(s);
    assert(trim(s) == trim_end(Seq::<char>::empty()));
    let one = seq![SanitizeRule::TrimWhitespace];
    let rules = seq![SanitizeRule::TrimWhitespace, SanitizeRule::NonEmpty];
    assert(one.drop_last() =~= Seq::<SanitizeRule>::empty());
    assert(one.last() == SanitizeRule::TrimWhitespace);
    assert(present_outcome(field, Json::String(s), Seq::<SanitizeRule>::empty()) == Ok::<Json, ErrorView>(Json::String(s)));
    assert(present_outcome(field, Json::String(s), one) == Ok::<Json, ErrorView>(Json::String(trim(s))));
    assert(rules.drop_last() =~= one);
    assert(rules.last() == SanitizeRule::NonEmpty);
}

/// `StripChars(chars)` leaves none of `chars` and keeps every other
/// character.
pub proof fn law_strip_removes_exactly(s: Seq<char>, chars: Seq<char>)
    ensures
        forall|i: int| 0 <= i < strip(s, chars).len() ==> !chars.contains(#[trigger] strip(s, chars)[i]),
        forall|i: int| 0 <= i < s.len() && !chars.contains(s[i]) ==> #[trigger] strip(s, chars).contains(s[i]),
{
    broadcast use vstd::seq_lib::group_filter_ensures;

}

/// `OneOf(allowed)` accepts a string exactly when it equals one of the
/// allowed options, compared case-sensitively character by character.
pub proof fn law_one_of_accepts_exactly_allowed(field: Seq<char>, s: Seq<char>, allowed: Vec<String>)
    ensures
        rule_outcome(field, Json::String(s), SanitizeRule::OneOf(allowed)) is Ok <==> is_allowed(allowed@, s),
{
}

/// A member whose keys agree with those of another has the same first index
/// for every key.
proof fn lemma_find_key_same_keys(a: Seq<(Seq<char>, Json)>, b: Seq<(Seq<char>, Json)>, key: Seq<char>)
    requires
        a.len() == b.len(),
        forall|i: int| 0 <= i < a.len() ==> (#[trigger] a[i]).0 == b[i].0,
    ensures
        find_key(a, key) == find_key(b, key),
{
    lemma_find_key(a, key);
    lemma_find_key(b, key);
    if let Some(i) = find_key(a, key) {
        assert(b[i].0 == key);
        if let Some(j) = find_key(b, key) {
            assert(a[j].0 == key);
        }
    }
    if let Some(j) = find_key(b, key) {
        assert(a[j].0 == key);
    }
}

/// `DefaultOnNull(default)` alone fills a missing or null field with
/// `default` and keeps any other value.
pub proof fn law_default_fills_missing_or_null(
    members: Seq<(Seq<char>, Json)>,
    field: Seq<char>,
    default: crate::json::JsonValue,
)
    ensures
        field_outcome(members, field, seq![SanitizeRule::DefaultOnNull(default)]) matches Ok(out)
            && lookup(out, field) == Some(
            match lookup(members, field) {
                None => default@,
                Some(Json::Null) => default@,
                Some(v) => v,
            },
        ),
{
    let rules = seq![SanitizeRule::DefaultOnNull(default)];
    assert(rules.drop_last() =~= Seq::<SanitizeRule>::empty());
    assert(absent_outcome(field, Seq::<SanitizeRule>::empty()) == Ok::<Option<Json>, ErrorView>(None));
    lemma_find_key(members, field);
    assert(rules.last() == SanitizeRule::DefaultOnNull(default));
    match find_key(members, field) {
        Some(i) => {
            let v = members[i].1;
            let w = match v {
                Json::Null => default@,
                _ => v,
            };
            assert(present_outcome(field, v, Seq::<SanitizeRule>::empty()) == Ok::<Json, ErrorView>(v));
            assert(present_outcome(field, v, rules) == Ok::<Json, ErrorView>(w));
            let out = members.update(i, (members[i].0, w));
            assert(field_outcome(members, field, rules) == Ok::<Seq<(Seq<char>, Json)>, ErrorView>(out));
            lemma_find_key_same_keys(out, members, field);
        },
        None => {
            assert(absent_outcome(field, rules) == Ok::<Option<Json>, ErrorView>(Some(default@)));
            let out = members.push((field, default@));
            lemma_find_key(out, field);
            assert forall|j: int| 0 <= j < members.len() implies out[j] == members[j] by {}
            assert(out[members.len() as int].0 == field);
        },
    }
}

/// Rules other than `DefaultOnNull` and `Required` do nothing for a field
/// that is absent.
pub proof fn law_absent_field_untouched(
    members: Seq<(Seq<char>, Json)>,
    field: Seq<char>,
    rules: Seq<SanitizeRule>,
)
    requires
        lookup(members, field) is None,
        forall|i: int|
            0 <= i < rules.len() ==> !((#[trigger] rules[i]) is DefaultOnNull) && !(rules[i] is Required),
    ensures
        field_outcome(members, field, rules) == Ok::<Seq<(Seq<char>, Json)>, ErrorView>(members),
{
    lemma_absent_nothing(field, rules);
}

proof fn lemma_absent_nothing(field: Seq<char>, rules: Seq<SanitizeRule>)
    requires
        forall|i: int|
            0 <= i < rules.len() ==> !((#[trigger] rules[i]) is DefaultOnNull) && !(rules[i] is Required),
    ensures
        absent_outcome(field, rules) == Ok::<Option<Json>, ErrorView>(None),
    decreases rules.len(),
{
    if rules.len() > 0 {
        lemma_absent_nothing(field, rules.drop_last());
        assert(!(rules[rules.len() - 1] is DefaultOnNull));
    }
}

/// The rules of `field` in `fields`.
pub open spec fn rules_of(fields: FieldRules, field: Seq<char>) -> Seq<SanitizeRule> {
    match field_names(fields).index_of_first(field) {
        Some(i) => fields[i].1,
        None => Seq::empty(),
    }
}

/// Adding a rule appends it to its field's rules, keeps every field once
/// with at least one rule, and counts one more field exactly when the field
/// had no rule yet.
pub proof fn law_add_rule(fields: FieldRules, field: Seq<char>, rule: SanitizeRule)
    requires
        well_formed(fields),
    ensures
        ({
            let out = add_rule_spec(fields, field, rule);
            &&& well_formed(out)
            &&& (rules_of(fields, field).len() == 0 <==> !field_names(fields).contains(field))
            &&& out.len() == fields.len() + if rules_of(fields, field).len() == 0 {
                1int
            } else {
                0int
            }
            &&& rules_of(out, field) == rules_of(fields, field).push(rule)
            &&& forall|other: Seq<char>| other != field ==> rules_of(out, other) == rules_of(fields, other)
        }),
{
    let names = field_names(fields);
    let out = add_rule_spec(fields, field, rule);
    names.index_of_first_ensures(field);
    match names.index_of_first(field) {
        Some(i) => {
            assert(field_names(out) =~= names);
            assert(out[i] == (field, fields[i].1.push(rule)));
            assert(rules_of(out, field) == fields[i].1.push(rule));
            assert(fields[i].1.len() > 0);
            assert forall|j: int| 0 <= j < out.len() implies (#[trigger] out[j]).1.len() > 0 by {
                assert(fields[j].1.len() > 0);
            }
        },
        None => {
            assert(field_names(out) =~= names.push(field));
            assert forall|a: int, b: int|
                0 <= a < names.len() + 1 && 0 <= b < names.len() + 1 && a != b implies names.push(field)[a]
                    != names.push(field)[b] by {
                if a == names.len() {
                    assert(names.push(field)[b] == names[b]);
                } else if b == names.len() {
                    assert(names.push(field)[a] == names[a]);
                }
            }
            let out_names = field_names(out);
            assert(out_names == names.push(field));
            assert(out_names[names.len() as int] == field);
            out_names.index_of_first_ensures(field);
            let k = out_names.index_of_first(field)->Some_0;
            if k < names.len() {
                assert(out_names[k] == names[k]);
                assert(names[k] == field);
            }
            assert(k == names.len());
            assert(rules_of(out, field) =~= Seq::<SanitizeRule>::empty().push(rule));
            assert forall|j: int| 0 <= j < out.len() implies (#[trigger] out[j]).1.len() > 0 by {
                if j < fields.len() {
                    assert(fields[j].1.len() > 0);
                }
            }
        },
    }
    let out_names = field_names(out);
    out_names.index_of_first_ensures(field);
    assert(field_names(out).no_duplicates());
    assert(out.len() == fields.len() + if names.contains(field) { 0int } else { 1int });
    assert(rules_of(out, field) == rules_of(fields, field).push(rule));
    assert forall|other: Seq<char>| other != field implies rules_of(out, other) == rules_of(fields, other) by {
        names.index_of_first_ensures(other);
        out_names.index_of_first_ensures(other);
        if let Some(j) = names.index_of_first(other) {
            assert(out_names[j] == other);
            if let Some(k) = out_names.index_of_first(other) {
                if k < names.len() {
                    assert(names[k] == other);
                }
            }
        } else {
            if let Some(k) = out_names.index_of_first(other) {
                if k < names.len() {
                    assert(names[k] == other);
                    assert(names.contains(other));
                } else {
                    assert(out_names[k] == field);
                }
            }
        }
    }
}

/// For rules that start with `DefaultOnNull`, an absent field goes through
/// them as a null one does: the default, then each later rule on the current
/// value.
proof fn lemma_absent_after_default(field: Seq<char>, rules: Seq<SanitizeRule>)
    requires
        rules.len() > 0,
        rules[0] is DefaultOnNull,
    ensures
        absent_outcome(field, rules) == match present_outcome(field, Json::Null, rules) {
            Ok(w) => Ok::<Option<Json>, ErrorView>(Some(w)),
            Err(e) => Err(e),
        },
    decreases rules.len(),
{
    let prefix = rules.drop_last();
    if rules.len() == 1 {
        assert(prefix =~= Seq::<SanitizeRule>::empty());
        assert(rules.last() == rules[0]);
    } else {
        assert(prefix[0] == rules[0]);
        lemma_absent_after_default(field, prefix);
    }
}

/// A missing field whose rules start with `DefaultOnNull` comes out as if it
/// had been present and null (as a last member): the default fills it and
/// the later rules apply to it in order.
pub proof fn law_missing_field_defaults_like_null(
    members: Seq<(Seq<char>, Json)>,
    field: Seq<char>,
    rules: Seq<SanitizeRule>,
)
    requires
        lookup(members, field) is None,
        rules.len() > 0,
        rules[0] is DefaultOnNull,
    ensures
        field_outcome(members, field, rules) == field_outcome(
            members.push((field, Json::Null)),
            field,
            rules,
        ),
{
    lemma_absent_after_default(field, rules);
    let with_null = members.push((field, Json::Null));
    lemma_find_key(members, field);
    lemma_find_key(with_null, field);
    assert(with_null[members.len() as int].0 == field);
    assert forall|j: int| 0 <= j < members.len() implies with_null[j] == members[j] by {}
    assert(find_key(with_null, field) == Some(members.len() as int));
    if let Ok(w) = present_outcome(field, Json::Null, rules) {
        assert(with_null.update(members.len() as int, (field, w)) =~= members.push((field, w)));
    }
}

/// Rules that are neither `DefaultOnNull` nor `Required` leave an absent
/// field absent.
proof fn lemma_absent_prefix_nothing(field: Seq<char>, rules: Seq<SanitizeRule>, k: int)
    requires
        0 <= k <= rules.len(),
        forall|j: int|
            0 <= j < k ==> !((#[trigger] rules[j]) is DefaultOnNull) && !(rules[j] is Required),
    ensures
        absent_outcome(field, rules.take(k)) == Ok::<Option<Json>, ErrorView>(None),
{
    let prefix = rules.take(k);
    assert forall|i: int| 0 <= i < prefix.len() implies !((#[trigger] prefix[i]) is DefaultOnNull)
        && !(prefix[i] is Required) by {
        assert(prefix[i] == rules[i]);
    }
    lemma_absent_nothing(field, prefix);
}

/// Once an absent field holds a value `v` after the first `k` rules, the
/// remaining rules go on from `v` as for a present field.
proof fn lemma_absent_continues(field: Seq<char>, rules: Seq<SanitizeRule>, k: int, v: Json, m: int)
    requires
        0 <= k <= m <= rules.len(),
        absent_outcome(field, rules.take(k)) == Ok::<Option<Json>, ErrorView>(Some(v)),
    ensures
        absent_outcome(field, rules.take(m)) == match present_outcome(field, v, rules.subrange(k, m)) {
            Ok(w) => Ok::<Option<Json>, ErrorView>(Some(w)),
            Err(e) => Err(e),
        },
    decreases m - k,
{
    if m == k {
        assert(rules.subrange(k, m) =~= Seq::<SanitizeRule>::empty());
    } else {
        lemma_absent_continues(field, rules, k, v, m - 1);
        assert(rules.take(m).drop_last() =~= rules.take(m - 1));
        assert(rules.take(m).last() == rules[m - 1]);
        assert(rules.subrange(k, m).drop_last() =~= rules.subrange(k, m - 1));
        assert(rules.subrange(k, m).last() == rules[m - 1]);
    }
}

/// Before its first `DefaultOnNull` rule, an absent field is either still
/// absent or rejected as missing.
proof fn lemma_absent_missing_or_nothing(field: Seq<char>, rules: Seq<SanitizeRule>, m: int)
    requires
        0 <= m <= rules.len(),
        forall|j: int| 0 <= j < m ==> !((#[trigger] rules[j]) is DefaultOnNull),
    ensures
        absent_outcome(field, rules.take(m)) == Ok::<Option<Json>, ErrorView>(None)
            || absent_outcome(field, rules.take(m)) == Err::<Option<Json>, ErrorView>(
            ErrorView { field, message: "required field is missing"@ },
        ),
    decreases m,
{
    if m > 0 {
        lemma_absent_missing_or_nothing(field, rules, m - 1);
        assert(rules.take(m).drop_last() =~= rules.take(m - 1));
        assert(rules.take(m).last() == rules[m - 1]);
    } else {
        assert(rules.take(0) =~= Seq::<SanitizeRule>::empty());
    }
}

/// A field missing from the arguments is rejected as missing, with its own
/// name, when one of its rules is `Required` and no `DefaultOnNull` comes
/// before that rule, whatever other rules precede it.
pub proof fn law_missing_required_rejected(
    members: Seq<(Seq<char>, Json)>,
    field: Seq<char>,
    rules: Seq<SanitizeRule>,
    k: int,
)
    requires
        lookup(members, field) is None,
        0 <= k < rules.len(),
        rules[k] is Required,
        forall|j: int| 0 <= j < k ==> !((#[trigger] rules[j]) is DefaultOnNull),
    ensures
        field_outcome(members, field, rules) == Err::<Seq<(Seq<char>, Json)>, ErrorView>(
            ErrorView { field, message: "required field is missing"@ },
        ),
{
    let e = ErrorView { field, message: "required field is missing"@ };
    lemma_absent_missing_or_nothing(field, rules, k);
    assert(rules.take(k + 1).drop_last() =~= rules.take(k));
    assert(rules.take(k + 1).last() == rules[k]);
    assert(absent_outcome(field, rules.take(k + 1)) == Err::<Option<Json>, ErrorView>(e));
    lemma_absent_rejection_stays(field, rules, k + 1, e);
}

/// A field missing from the arguments gets a member when its rules hold a
/// `DefaultOnNull` with no `Required` or other default before it: the
/// field goes, from that rule on, through its rules as a null value would,
/// and the value it ends with is added as a last member.
pub proof fn law_missing_default_filled(
    members: Seq<(Seq<char>, Json)>,
    field: Seq<char>,
    rules: Seq<SanitizeRule>,
    k: int,
)
    requires
        lookup(members, field) is None,
        0 <= k < rules.len(),
        rules[k] is DefaultOnNull,
        forall|j: int|
            0 <= j < k ==> !((#[trigger] rules[j]) is DefaultOnNull) && !(rules[j] is Required),
    ensures
        field_outcome(members, field, rules) == match present_outcome(field, Json::Null, rules.skip(k)) {
            Ok(w) => Ok::<Seq<(Seq<char>, Json)>, ErrorView>(members.push((field, w))),
            Err(e) => Err(e),
        },
        present_outcome(field, Json::Null, rules.skip(k)) == present_outcome(
            field,
            rules[k]->DefaultOnNull_0@,
            rules.skip(k + 1),
        ),
{
    let d = rules[k]->DefaultOnNull_0;
    lemma_absent_prefix_nothing(field, rules, k);
    assert(rules.take(k + 1).drop_last() =~= rules.take(k));
    assert(rules.take(k + 1).last() == rules[k]);
    assert(absent_outcome(field, rules.take(k + 1)) == Ok::<Option<Json>, ErrorView>(Some(d@)));
    lemma_absent_continues(field, rules, k + 1, d@, rules.len() as int);
    assert(rules.take(rules.len() as int) =~= rules);
    assert(rules.subrange(k + 1, rules.len() as int) =~= rules.skip(k + 1));
    let one = seq![rules[k]];
    assert(rules.skip(k) =~= one + rules.skip(k + 1));
    law_rules_apply_in_order(field, Json::Null, one, rules.skip(k + 1));
    assert(one.drop_last() =~= Seq::<SanitizeRule>::empty());
    assert(present_outcome(field, Json::Null, Seq::<SanitizeRule>::empty()) == Ok::<Json, ErrorView>(Json::Null));
    assert(present_outcome(field, Json::Null, one) == Ok::<Json, ErrorView>(d@));
}

/// The rules of fields other than `field` never add a member named `field`.
proof fn lemma_other_fields_keep_absent(
    fields: FieldRules,
    members: Seq<(Seq<char>, Json)>,
    field: Seq<char>,
)
    requires
        lookup(members, field) is None,
        !field_names(fields).contains(field),
    ensures
        fields_outcome(fields, members) matches Ok(out) ==> lookup(out, field) is None,
    decreases fields.len(),
{
    if fields.len() > 0 {
        let prefix = fields.drop_last();
        assert(field_names(fields) =~= field_names(prefix).push(fields.last().0));
        assert forall|j: int| 0 <= j < field_names(prefix).len() implies field_names(prefix)[j] != field by {
            assert(field_names(fields)[j] == field_names(prefix)[j]);
        }
        assert(field_names(fields)[fields.len() - 1] == fields.last().0);
        lemma_other_fields_keep_absent(prefix, members, field);
        if let Ok(m) = fields_outcome(prefix, members) {
            let g = fields.last().0;
            lemma_find_key(m, field);
            lemma_find_key(m, g);
            if let Ok(out) = field_outcome(m, g, fields.last().1) {
                lemma_find_key(out, field);
                match find_key(m, g) {
                    Some(i) => {
                        assert forall|j: int| 0 <= j < out.len() implies (#[trigger] out[j]).0 != field by {
                            assert(out[j].0 == m[j].0);
                        }
                    },
                    None => {
                        assert forall|j: int| 0 <= j < out.len() implies (#[trigger] out[j]).0 != field by {
                            if j < m.len() {
                                assert(out[j] == m[j]);
                            }
                        }
                    },
                }
            }
        }
    }
}

/// Sanitizing arguments that lack a field whose rules hold `Required` with no
/// `DefaultOnNull` before it fails (with that field's rejection, or an
/// earlier field's).
pub proof fn law_sanitize_missing_required_fails(
    fields: FieldRules,
    members: Seq<(Seq<char>, Json)>,
    i: int,
    k: int,
)
    requires
        field_names(fields).no_duplicates(),
        0 <= i < fields.len(),
        lookup(members, fields[i].0) is None,
        0 <= k < fields[i].1.len(),
        fields[i].1[k] is Required,
        forall|j: int| 0 <= j < k ==> !((#[trigger] fields[i].1[j]) is DefaultOnNull),
    ensures
        sanitize_spec(fields, Json::Object(members)) is Err,
{
    let field = fields[i].0;
    let prefix = fields.take(i);
    assert forall|j: int| 0 <= j < field_names(prefix).len() implies field_names(prefix)[j] != field by {
        assert(field_names(prefix)[j] == field_names(fields)[j]);
        assert(field_names(fields)[i] == field);
    }
    lemma_other_fields_keep_absent(prefix, members, field);
    assert(fields.take(i + 1).drop_last() =~= prefix);
    assert(fields.take(i + 1).last() == fields[i]);
    match fields_outcome(prefix, members) {
        Ok(m) => {
            law_missing_required_rejected(m, field, fields[i].1, k);
            let e = ErrorView { field, message: "required field is missing"@ };
            lemma_fields_rejection_stays(fields, members, i + 1, e);
        },
        Err(e) => {
            lemma_fields_rejection_stays(fields, members, i, e);
        },
    }
}

/// `OneOf(allowed)` accepts a string, unchanged, exactly when some option has
/// the same characters (same length, equal at every index), and otherwise
/// rejects it naming the value.
pub proof fn law_one_of_exact_match(field: Seq<char>, s: Seq<char>, allowed: Vec<String>)
    ensures
        (rule_outcome(field, Json::String(s), SanitizeRule::OneOf(allowed)) is Ok) <==> exists|i: int|
            0 <= i < allowed@.len() && (#[trigger] allowed@[i])@.len() == s.len() && forall|m: int|
                0 <= m < s.len() ==> allowed@[i]@[m] == s[m],
        rule_outcome(field, Json::String(s), SanitizeRule::OneOf(allowed)) is Ok ==> rule_outcome(
            field,
            Json::String(s),
            SanitizeRule::OneOf(allowed),
        ) == Ok::<Json, ErrorView>(Json::String(s)),
        rule_outcome(field, Json::String(s), SanitizeRule::OneOf(allowed)) is Err ==> rule_outcome(
            field,
            Json::String(s),
            SanitizeRule::OneOf(allowed),
        ) == Err::<Json, ErrorView>(
            ErrorView { field, message: "value '"@ + s + "' is not one of the allowed options"@ },
        ),
{
    if exists|i: int|
        0 <= i < allowed@.len() && (#[trigger] allowed@[i])@.len() == s.len() && forall|m: int|
            0 <= m < s.len() ==> allowed@[i]@[m] == s[m] {
        let i = choose|i: int|
            0 <= i < allowed@.len() && (#[trigger] allowed@[i])@.len() == s.len() && forall|m: int|
                0 <= m < s.len() ==> allowed@[i]@[m] == s[m];
        assert(allowed@[i]@ =~= s);
        assert(is_allowed(allowed@, s));
    }
    if is_allowed(allowed@, s) {
        let i = choose|i: int| 0 <= i < allowed@.len() && #[trigger] allowed@[i]@ == s;
        assert(allowed@[i]@.len() == s.len());
    }
}

/// `MaxLengthError(n)` rejects a string exactly when it has more than `n`
/// characters, naming its length and the limit; it keeps every other string
/// unchanged.
pub proof fn law_max_length_error_counts_characters(field: Seq<char>, s: Seq<char>, n: usize)
    ensures
        s.len() <= n ==> rule_outcome(field, Json::String(s), SanitizeRule::MaxLengthError(n))
            == Ok::<Json, ErrorView>(Json::String(s)),
        s.len() > n ==> rule_outcome(field, Json::String(s), SanitizeRule::MaxLengthError(n))
            == Err::<Json, ErrorView>(
            ErrorView {
                field,
                message: "value is too long: "@ + decimal(s.len()) + " chars (max "@ + decimal(
                    n as nat,
                ) + ")"@,
            },
        ),
{
}

/// `NonEmpty` keeps every string with at least one character unchanged and
/// rejects exactly the empty string.
pub proof fn law_non_empty_rejects_only_empty(field: Seq<char>, s: Seq<char>)
    ensures
        s.len() > 0 ==> rule_outcome(field, Json::String(s), SanitizeRule::NonEmpty) == Ok::<
            Json,
            ErrorView,
        >(Json::String(s)),
        s.len() == 0 ==> rule_outcome(field, Json::String(s), SanitizeRule::NonEmpty) == Err::<
            Json,
            ErrorView,
        >(ErrorView { field, message: "value must not be empty"@ }),
{
}

/// `Required` rejects a present null value and keeps every other value
/// unchanged.
pub proof fn law_required_rejects_only_null(field: Seq<char>, v: Json)
    ensures
        v is Null ==> rule_outcome(field, v, SanitizeRule::Required) == Err::<Json, ErrorView>(
            ErrorView { field, message: "required field is null"@ },
        ),
        !(v is Null) ==> rule_outcome(field, v, SanitizeRule::Required) == Ok::<Json, ErrorView>(v),
{
}

/// `trim_start` drops the longest prefix of white space.
proof fn lemma_trim_start_shape(s: Seq<char>) -> (a: int)
    ensures
        0 <= a <= s.len(),
        trim_start(s) == s.skip(a),
        forall|j: int| 0 <= j < a ==> is_white_space(#[trigger] s[j]),
        a < s.len() ==> !is_white_space(s[a]),
    decreases s.len(),
{
    if s.len() > 0 && is_white_space(s[0]) {
        let rest = s.drop_first();
        let a0 = lemma_trim_start_shape(rest);
        assert(rest.skip(a0) =~= s.skip(a0 + 1));
        assert forall|j: int| 0 <= j < a0 + 1 implies is_white_space(#[trigger] s[j]) by {
            if j > 0 {
                assert(s[j] == rest[j - 1]);
            }
        }
        if a0 + 1 < s.len() {
            assert(s[a0 + 1] == rest[a0]);
        }
        a0 + 1
    } else {
        assert(s.skip(0) =~= s);
        0
    }
}

/// `trim_end` drops the longest suffix of white space.
proof fn lemma_trim_end_shape(s: Seq<char>) -> (b: int)
    ensures
        0 <= b <= s.len(),
        trim_end(s) == s.take(b),
        forall|j: int| b <= j < s.len() ==> is_white_space(#[trigger] s[j]),
        b > 0 ==> !is_white_space(s[b - 1]),
    decreases s.len(),
{
    if s.len() > 0 && is_white_space(s.last()) {
        let rest = s.drop_last();
        let b0 = lemma_trim_end_shape(rest);
        assert(rest.take(b0) =~= s.take(b0));
        assert forall|j: int| b0 <= j < s.len() implies is_white_space(#[trigger] s[j]) by {
            if j < s.len() - 1 {
                assert(s[j] == rest[j]);
            }
        }
        if b0 > 0 {
            assert(s[b0 - 1] == rest[b0 - 1]);
        }
        b0
    } else {
        assert(s.take(s.len() as int) =~= s);
        s.len() as int
    }
}

/// `TrimWhitespace` keeps the part of a string between its leading and its
/// trailing white space: the result is `s[a..b]`, every character before `a`
/// and from `b` on is white space, and the result neither starts nor ends
/// with white space.
pub proof fn law_trim_keeps_inner_part(field: Seq<char>, s: Seq<char>) -> (bounds: (int, int))
    ensures
        0 <= bounds.0 <= bounds.1 <= s.len(),
        rule_outcome(field, Json::String(s), SanitizeRule::TrimWhitespace) == Ok::<Json, ErrorView>(
            Json::String(s.subrange(bounds.0, bounds.1)),
        ),
        forall|j: int| 0 <= j < bounds.0 ==> is_white_space(#[trigger] s[j]),
        forall|j: int| bounds.1 <= j < s.len() ==> is_white_space(#[trigger] s[j]),
        bounds.0 < bounds.1 ==> !is_white_space(s[bounds.0]) && !is_white_space(s[bounds.1 - 1]),
{
    let a = lemma_trim_start_shape(s);
    let t = s.skip(a);
    let b = lemma_trim_end_shape(t);
    assert(t.take(b) =~= s.subrange(a, a + b));
    assert forall|j: int| a + b <= j < s.len() implies is_white_space(#[trigger] s[j]) by {
        assert(s[j] == t[j - a]);
    }
    if b > 0 {
        assert(s[a] == t[0]);
        assert(s[a + b - 1] == t[b - 1]);
    }
    (a, a + b)
}

/// `StripChars(chars)` takes a string apart character by character: the
/// empty string stays empty, and one more character at the end is kept
/// exactly when it does not occur in `chars`.
pub proof fn law_strip_chars_character_by_character(field: Seq<char>, s: Seq<char>, c: char, chars: String)
    ensures
        rule_outcome(field, Json::String(Seq::empty()), SanitizeRule::StripChars(chars)) == Ok::<
            Json,
            ErrorView,
        >(Json::String(Seq::empty())),
        rule_outcome(field, Json::String(s), SanitizeRule::StripChars(chars)) matches Ok(
            Json::String(t),
        ) && rule_outcome(field, Json::String(s.push(c)), SanitizeRule::StripChars(chars)) == Ok::<
            Json,
            ErrorView,
        >(
            Json::String(
                if chars@.contains(c) {
                    t
                } else {
                    t.push(c)
                },
            ),
        ),
{
    reveal_with_fuel(Seq::<_>::filter, 1);
    assert(s.push(c).drop_last() =~= s);
}

/// The digits of a decimal representation read back as a number.
pub open spec fn digits_value(digits: Seq<char>) -> nat
    decreases digits.len(),
{
    if digits.len() == 0 {
        0
    } else {
        digits_value(digits.drop_last()) * 10 + ((digits.last() as u32) - 48) as nat
    }
}

/// The decimal form of a number in error messages is made of the digits
/// `0`-`9`, has no leading zero, and reads back as that number.
pub proof fn law_decimal_reads_back(n: nat)
    ensures
        decimal(n).len() > 0,
        forall|i: int| 0 <= i < decimal(n).len() ==> '0' <= #[trigger] decimal(n)[i] <= '9',
        decimal(n)[0] != '0' || n == 0,
        digits_value(decimal(n)) == n,
    decreases n,
{
    if n >= 10 {
        let q = n / 10;
        let r = n % 10;
        law_decimal_reads_back(q);
        let d = decimal(q);
        assert(decimal(n) == d.push(crate::text::digit_char(r)));
        assert(decimal(n).drop_last() =~= d);
        assert(decimal(n)[0] == d[0]);
        assert forall|i: int| 0 <= i < decimal(n).len() implies '0' <= #[trigger] decimal(n)[i] <= '9' by {
            if i < d.len() {
                assert(decimal(n)[i] == d[i]);
            }
        }
        assert(n == q * 10 + r) by (nonlinear_arith)
            requires q == n / 10, r == n % 10;
        assert((crate::text::digit_char(r) as u32) == 48 + r);
        assert(decimal(n).last() == crate::text::digit_char(r));
        assert(((decimal(n).last() as u32) - 48) as nat == r);
        assert(digits_value(decimal(n)) == digits_value(d) * 10 + r);
        assert(digits_value(d) == q);
    } else {
        assert((crate::text::digit_char(n) as u32) == 48 + n);
        assert(decimal(n).drop_last() =~= Seq::<char>::empty());
        assert(decimal(n).last() == crate::text::digit_char(n));
        assert(((decimal(n).last() as u32) - 48) as nat == n);
        assert(digits_value(decimal(n).drop_last()) == 0);
    }
}

/// Running the rules of the fields `first` and then those of `second` is
/// running `first` and, unless it failed, `second` on what it returned.
pub proof fn law_fields_apply_in_order(
    first: FieldRules,
    second: FieldRules,
    members: Seq<(Seq<char>, Json)>,
)
    ensures
        fields_outcome(first + second, members) == match fields_outcome(first, members) {
            Ok(m) => fields_outcome(second, m),
            Err(e) => Err(e),
        },
    decreases second.len(),
{
    if second.len() == 0 {
        assert(first + second =~= first);
    } else {
        assert((first + second).drop_last() =~= first + second.drop_last());
        assert((first + second).last() == second.last());
        law_fields_apply_in_order(first, second.drop_last(), members);
    }
}

/// A field present in the arguments keeps its place and ends with the value
/// that its rules, applied in order, make of its first member's value; a
/// rejection by those rules is the field's outcome.
pub proof fn law_present_field_gets_its_rules(
    members: Seq<(Seq<char>, Json)>,
    field: Seq<char>,
    rules: Seq<SanitizeRule>,
    v: Json,
)
    requires
        lookup(members, field) == Some(v),
    ensures
        match present_outcome(field, v, rules) {
            Ok(w) => field_outcome(members, field, rules) matches Ok(out) && out.len() == members.len()
                && lookup(out, field) == Some(w) && forall|j: int|
                0 <= j < members.len() && members[j].0 != field ==> #[trigger] out[j] == members[j],
            Err(e) => field_outcome(members, field, rules) == Err::<Seq<(Seq<char>, Json)>, ErrorView>(
                e,
            ),
        },
{
    lemma_find_key(members, field);
    let i = find_key(members, field)->Some_0;
    if let Ok(w) = present_outcome(field, v, rules) {
        let out = members.update(i, (members[i].0, w));
        lemma_find_key_same_keys(out, members, field);
    }
}

} // verus!
