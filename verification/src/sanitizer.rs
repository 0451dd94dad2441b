//! The sanitizer: rules registered per field, applied to tool-call arguments.

use vstd::prelude::*;
use crate::json::{copy_members, find_key, find_member, lemma_find_key, members_view, Json, JsonValue};
use crate::rule::{apply_rule, outcome_view, rejection, rule_outcome, ErrorView, SanitizeError, SanitizeRule};

verus! {

/// The model of a sanitizer: each field with at least one rule, in the order
/// of its first rule, with its rules in the order they were added.
pub type FieldRules = Seq<(Seq<char>, Seq<SanitizeRule>)>;

/// The names of the fields of `fields`.
pub open spec fn field_names(fields: FieldRules) -> Seq<Seq<char>> {
    fields.map_values(|p: (Seq<char>, Seq<SanitizeRule>)| p.0)
}

/// Each field occurs once and has at least one rule.
pub open spec fn well_formed(fields: FieldRules) -> bool {
    &&& field_names(fields).no_duplicates()
    &&& forall|i: int| 0 <= i < fields.len() ==> (#[trigger] fields[i]).1.len() > 0
}

/// What adding `rule` for `field` makes of `fields`: the rule goes last in
/// the field's list; a field seen for the first time goes last.
pub open spec fn add_rule_spec(fields: FieldRules, field: Seq<char>, rule: SanitizeRule) -> FieldRules {
    match field_names(fields).index_of_first(field) {
        Some(i) => fields.update(i, (field, fields[i].1.push(rule))),
        None => fields.push((field, seq![rule])),
    }
}

/// What the rules of a present field make of its value `v`: the rules are
/// applied in order, each to what the previous one returned, and the first
/// rejection ends it.
pub open spec fn present_outcome(field: Seq<char>, v: Json, rules: Seq<SanitizeRule>) -> Result<Json, ErrorView>
    decreases rules.len(),
{
    if rules.len() == 0 {
        Ok(v)
    } else {
        match present_outcome(field, v, rules.drop_last()) {
            Ok(w) => rule_outcome(field, w, rules.last()),
            Err(e) => Err(e),
        }
    }
}

/// What the rules of an absent field produce, `None` while it stays absent.
/// Until a `DefaultOnNull` rule supplies a value, `Required` rejects the
/// field as missing and the other rules do nothing; from the default on,
/// each rule is applied to the current value as for a present field.
pub open spec fn absent_outcome(field: Seq<char>, rules: Seq<SanitizeRule>) -> Result<Option<Json>, ErrorView>
    decreases rules.len(),
{
    if rules.len() == 0 {
        Ok(None)
    } else {
        match absent_outcome(field, rules.drop_last()) {
            Ok(None) => match rules.last() {
                SanitizeRule::DefaultOnNull(default) => Ok(Some(default@)),
                SanitizeRule::Required => Err(rejection(field, "required field is missing"@)),
                _ => Ok(None),
            },
            Ok(Some(v)) => match rule_outcome(field, v, rules.last()) {
                Ok(w) => Ok(Some(w)),
                Err(e) => Err(e),
            },
            Err(e) => Err(e),
        }
    }
}

/// What the rules of one field make of the members of an object.
pub open spec fn field_outcome(
    members: Seq<(Seq<char>, Json)>,
    field: Seq<char>,
    rules: Seq<SanitizeRule>,
) -> Result<Seq<(Seq<char>, Json)>, ErrorView> {
    match find_key(members, field) {
        Some(i) => match present_outcome(field, members[i].1, rules) {
            Ok(w) => Ok(members.update(i, (members[i].0, w))),
            Err(e) => Err(e),
        },
        None => match absent_outcome(field, rules) {
            Ok(Some(d)) => Ok(members.push((field, d))),
            Ok(None) => Ok(members),
            Err(e) => Err(e),
        },
    }
}

/// What all the fields' rules make of the members of an object, field by
/// field in order; the first rejection ends it.
pub open spec fn fields_outcome(fields: FieldRules, members: Seq<(Seq<char>, Json)>) -> Result<
    Seq<(Seq<char>, Json)>,
    ErrorView,
>
    decreases fields.len(),
{
    if fields.len() == 0 {
        Ok(members)
    } else {
        match fields_outcome(fields.drop_last(), members) {
            Ok(m) => field_outcome(m, fields.last().0, fields.last().1),
            Err(e) => Err(e),
        }
    }
}

/// What sanitizing `args` with `fields` gives: an object gets its fields'
/// rules applied; any other value comes back unchanged.
pub open spec fn sanitize_spec(fields: FieldRules, args: Json) -> Result<Json, ErrorView> {
    match args {
        Json::Object(members) => match fields_outcome(fields, members) {
            Ok(m) => Ok(Json::Object(m)),
            Err(e) => Err(e),
        },
        _ => Ok(args),
    }
}

/// The model of the stored rules.
spec fn rules_view(rules: Seq<(String, Vec<SanitizeRule>)>) -> FieldRules {
    Seq::new(rules.len(), |i: int| (rules[i].0@, rules[i].1@))
}

/// Applies sanitization rules to tool call arguments.
#[derive(Debug)]
pub struct InputSanitizer {
    /// Rules per field name, each field once. Applied in order.
    rules: Vec<(String, Vec<SanitizeRule>)>,
}

impl View for InputSanitizer {
    type V = FieldRules;

    closed spec fn view(&self) -> FieldRules {
        rules_view(self.rules@)
    }
}

impl InputSanitizer {
    #[verifier::type_invariant]
    spec fn fields_are_well_formed(&self) -> bool {
        well_formed(self@)
    }

    /// Create an empty sanitizer with no rules.
    pub fn new() -> (s: Self)
        ensures
            s@ == Seq::<(Seq<char>, Seq<SanitizeRule>)>::empty(),
            well_formed(s@),
    {
        let s = InputSanitizer { rules: Vec::new() };
        assert(s@ =~= Seq::<(Seq<char>, Seq<SanitizeRule>)>::empty());
        s
    }

    /// Add a rule for `field`.
    ///
    /// Rules for the same field are applied in insertion order. Returns
    /// `&mut self` so calls can be chained.
    pub fn add_rule(&mut self, field: &str, rule: SanitizeRule) -> (r: &mut Self)
        ensures
            r@ == add_rule_spec(old(self)@, field@, rule),
            *final(self) == *final(r),
            well_formed(old(self)@),
            well_formed(r@),
    {
        proof {
            use_type_invariant(&*self);
        }
        let key = String::from_str(field);
        let ghost fields = self@;
        assert(key@ == field@);
        let found = self.find_field(&key);
        proof {
            field_names(fields).index_of_first_ensures(key@);
        }
        let mut rules: Vec<(String, Vec<SanitizeRule>)> = Vec::new();
        std::mem::swap(&mut rules, &mut self.rules);
        assert(rules_view(rules@) == fields);
        let ghost names = field_names(fields);
        match found {
            Some(i) => {
                let ghost before = rules@;
                let (name, mut list) = rules.remove(i);
                assert(name == before[i as int].0 && list == before[i as int].1);
                list.push(rule);
                assert(list@ =~= fields[i as int].1.push(rule));
                assert(names.index_of_first(key@) == Some(i as int));
                assert(names[i as int] == key@);
                assert(name@ == fields[i as int].0);
                assert(names[i as int] == fields[i as int].0);
                assert(name@ == field@);
                rules.insert(i, (name, list));
                proof {
                    assert(rules_view(rules@) =~= add_rule_spec(fields, field@, rule));
                    assert(field_names(rules_view(rules@)) =~= names);
                    assert forall|j: int| 0 <= j < rules_view(rules@).len() implies (#[trigger] rules_view(rules@)[j]).1.len() > 0 by {
                        assert(fields[j].1.len() > 0);
                    }
                }
            },
            None => {
                let mut list: Vec<SanitizeRule> = Vec::new();
                list.push(rule);
                let ghost key_view = key@;
                rules.push((key, list));
                proof {
                    assert(rules_view(rules@) =~= add_rule_spec(fields, field@, rule));
                    assert(field_names(rules_view(rules@)) =~= names.push(key_view));
                    assert forall|j: int| 0 <= j < rules_view(rules@).len() implies (#[trigger] rules_view(rules@)[j]).1.len() > 0 by {
                        if j < fields.len() {
                            assert(fields[j].1.len() > 0);
                        }
                    }
                    assert forall|a: int, b: int|
                        0 <= a < names.len() + 1 && 0 <= b < names.len() + 1 && a != b implies
                        names.push(key_view)[a] != names.push(key_view)[b] by {
                        if a == names.len() {
                            assert(names.push(key_view)[b] == names[b]);
                        } else if b == names.len() {
                            assert(names.push(key_view)[a] == names[a]);
                        }
                    }
                }
            },
        }
        self.rules = rules;
        self
    }

    /// The index of `field` among the fields that have rules.
    fn find_field(&self, field: &String) -> (r: Option<usize>)
        ensures
            match r {
                Some(i) => field_names(self@).index_of_first(field@) == Some(i as int),
                None => field_names(self@).index_of_first(field@) is None,
            },
    {
        let mut i: usize = 0;
        while i < self.rules.len()
            invariant
                i <= self.rules.len(),
                self@.len() == self.rules.len(),
                forall|j: int| 0 <= j < i ==> field_names(self@)[j] != field@,
            decreases self.rules.len() - i,
        {
            if self.rules[i].0 == *field {
                assert(field_names(self@)[i as int] == field@);
                proof {
                    field_names(self@).index_of_first_ensures(field@);
                }
                return Some(i);
            }
            i = i + 1;
        }
        proof {
            field_names(self@).index_of_first_ensures(field@);
        }
        None
    }

    /// Return the number of distinct fields that have at least one rule.
    pub fn field_count(&self) -> (r: usize)
        ensures
            r == self@.len(),
            r == field_names(self@).to_set().len(),
            well_formed(self@),
    {
        proof {
            use_type_invariant(self);
            field_names(self@).unique_seq_to_set();
        }
        self.rules.len()
    }

    /// Sanitize a JSON object `args` for `tool_name`.
    ///
    /// Returns a new object with rules applied to matching fields. Fields that
    /// have no rules are passed through untouched, and a non-object `args`
    /// value is returned unchanged. Fails with the first rejection of a
    /// validation rule.
    pub fn sanitize(&self, _tool_name: &str, args: &JsonValue) -> (r: Result<JsonValue, SanitizeError>)
        ensures
            outcome_view(r) == sanitize_spec(self@, args@),
    {
        match args {
            JsonValue::Object(members) => {
                let mut result = copy_members(members);
                let ghost start = members_view(members@);
                let mut i: usize = 0;
                while i < self.rules.len()
                    invariant
                        i <= self.rules.len(),
                        self@.len() == self.rules.len(),
                        *args == JsonValue::Object(*members),
                        start == members_view(members@),
                        fields_outcome(self@.take(i as int), start) == Ok::<Seq<(Seq<char>, Json)>, ErrorView>(members_view(result@)),
                    decreases self.rules.len() - i,
                {
                    proof {
                        assert(self@.take(i + 1).drop_last() =~= self@.take(i as int));
                        assert(self@.take(i + 1).last() == self@[i as int]);
                    }
                    let field = &self.rules[i].0;
                    let rules = &self.rules[i].1;
                    match apply_field(&mut result, field, rules) {
                        Ok(_) => {},
                        Err(e) => {
                            proof {
                                lemma_fields_rejection_stays(self@, start, i + 1, e@);
                            }
                            return Err(e);
                        },
                    }
                    i = i + 1;
                }
                proof {
                    assert(self@.take(self.rules.len() as int) =~= self@);
                }
                Ok(JsonValue::Object(result))
            },
            _ => Ok(args.deep_copy()),
        }
    }
}

impl Default for InputSanitizer {
    fn default() -> (s: Self)
        ensures
            s@ == Seq::<(Seq<char>, Seq<SanitizeRule>)>::empty(),
    {
        InputSanitizer::new()
    }
}


/// Once the rules of a prefix of `rules` reject a value, so do all of them.
pub(crate) proof fn lemma_present_rejection_stays(field: Seq<char>, v: Json, rules: Seq<SanitizeRule>, k: int, e: ErrorView)
    requires
        0 <= k <= rules.len(),
        present_outcome(field, v, rules.take(k)) == Err::<Json, ErrorView>(e),
    ensures
        present_outcome(field, v, rules) == Err::<Json, ErrorView>(e),
    decreases rules.len() - k,
{
    if k < rules.len() {
        assert(rules.take(k + 1).drop_last() =~= rules.take(k));
        lemma_present_rejection_stays(field, v, rules, k + 1, e);
    } else {
        assert(rules.take(k) =~= rules);
    }
}

/// Once the rules of a prefix of `rules` reject an absent field, so do all
/// of them.
pub(crate) proof fn lemma_absent_rejection_stays(field: Seq<char>, rules: Seq<SanitizeRule>, k: int, e: ErrorView)
    requires
        0 <= k <= rules.len(),
        absent_outcome(field, rules.take(k)) == Err::<Option<Json>, ErrorView>(e),
    ensures
        absent_outcome(field, rules) == Err::<Option<Json>, ErrorView>(e),
    decreases rules.len() - k,
{
    if k < rules.len() {
        assert(rules.take(k + 1).drop_last() =~= rules.take(k));
        lemma_absent_rejection_stays(field, rules, k + 1, e);
    } else {
        assert(rules.take(k) =~= rules);
    }
}

/// Once the rules of a prefix of `fields` reject the arguments, so do all of
/// them.
pub(crate) proof fn lemma_fields_rejection_stays(fields: FieldRules, members: Seq<(Seq<char>, Json)>, k: int, e: ErrorView)
    requires
        0 <= k <= fields.len(),
        fields_outcome(fields.take(k), members) == Err::<Seq<(Seq<char>, Json)>, ErrorView>(e),
    ensures
        fields_outcome(fields, members) == Err::<Seq<(Seq<char>, Json)>, ErrorView>(e),
    decreases fields.len() - k,
{
    if k < fields.len() {
        assert(fields.take(k + 1).drop_last() =~= fields.take(k));
        lemma_fields_rejection_stays(fields, members, k + 1, e);
    } else {
        assert(fields.take(k) =~= fields);
    }
}

/// Applies `rules`, in order, to the value `val` of `field`.
fn apply_rules(field: &String, val: JsonValue, rules: &Vec<SanitizeRule>) -> (r: Result<JsonValue, SanitizeError>)
    ensures
        outcome_view(r) == present_outcome(field@, val@, rules@),
{
    let ghost start = val@;
    let mut current = val;
    let mut j: usize = 0;
    while j < rules.len()
        invariant
            j <= rules.len(),
            start == val@,
            present_outcome(field@, start, rules@.take(j as int)) == Ok::<Json, ErrorView>(current@),
        decreases rules.len() - j,
    {
        proof {
            assert(rules@.take(j + 1).drop_last() =~= rules@.take(j as int));
            assert(rules@.take(j + 1).last() == rules@[j as int]);
        }
        match apply_rule(field, &current, &rules[j]) {
            Ok(next) => {
                current = next;
            },
            Err(e) => {
                proof {
                    assert(rules@.take(j + 1).last() == rules@[j as int]);
                    assert(present_outcome(field@, start, rules@.take(j + 1)) == Err::<Json, ErrorView>(e@));
                    lemma_present_rejection_stays(field@, start, rules@, j + 1, e@);
                }
                return Err(e);
            },
        }
        j = j + 1;
    }
    proof {
        assert(rules@.take(rules.len() as int) =~= rules@);
    }
    Ok(current)
}

/// The model of an optional default.
spec fn default_view(d: Option<JsonValue>) -> Option<Json> {
    match d {
        Some(v) => Some(v@),
        None => None,
    }
}

/// What `rules` put in place of an absent `field`: `None` when nothing.
fn absent_default(field: &String, rules: &Vec<SanitizeRule>) -> (r: Result<Option<JsonValue>, SanitizeError>)
    ensures
        match r {
            Ok(d) => absent_outcome(field@, rules@) == Ok::<Option<Json>, ErrorView>(default_view(d)),
            Err(e) => absent_outcome(field@, rules@) == Err::<Option<Json>, ErrorView>(e@),
        },
{
    let mut current: Option<JsonValue> = None;
    let mut j: usize = 0;
    while j < rules.len()
        invariant
            j <= rules.len(),
            absent_outcome(field@, rules@.take(j as int)) == Ok::<Option<Json>, ErrorView>(default_view(current)),
        decreases rules.len() - j,
    {
        proof {
            assert(rules@.take(j + 1).drop_last() =~= rules@.take(j as int));
            assert(rules@.take(j + 1).last() == rules@[j as int]);
        }
        match current {
            Some(v) => {
                match apply_rule(field, &v, &rules[j]) {
                    Ok(w) => {
                        current = Some(w);
                    },
                    Err(e) => {
                        proof {
                            assert(absent_outcome(field@, rules@.take(j + 1)) == Err::<Option<Json>, ErrorView>(e@));
                            lemma_absent_rejection_stays(field@, rules@, j + 1, e@);
                        }
                        return Err(e);
                    },
                }
            },
            None => {
                match &rules[j] {
                    SanitizeRule::DefaultOnNull(d) => {
                        current = Some(d.deep_copy());
                    },
                    SanitizeRule::Required => {
                        let e = SanitizeError {
                            field: field.clone(),
                            message: String::from_str("required field is missing"),
                        };
                        proof {
                            assert(absent_outcome(field@, rules@.take(j + 1)) == Err::<Option<Json>, ErrorView>(e@));
                            lemma_absent_rejection_stays(field@, rules@, j + 1, e@);
                        }
                        return Err(e);
                    },
                    _ => {
                        current = None;
                    },
                }
            },
        }
        j = j + 1;
    }
    proof {
        assert(rules@.take(rules.len() as int) =~= rules@);
    }
    Ok(current)
}

/// Applies the rules of `field` to the members of an object.
fn apply_field(members: &mut Vec<(String, JsonValue)>, field: &String, rules: &Vec<SanitizeRule>) -> (r: Result<(), SanitizeError>)
    ensures
        match r {
            Ok(_) => field_outcome(members_view(old(members)@), field@, rules@) == Ok::<Seq<(Seq<char>, Json)>, ErrorView>(members_view(final(members)@)),
            Err(e) => field_outcome(members_view(old(members)@), field@, rules@) == Err::<Seq<(Seq<char>, Json)>, ErrorView>(e@),
        },
{
    let ghost before = members_view(members@);
    match find_member(members, field) {
        Some(i) => {
            proof {
                lemma_find_key(before, field@);
            }
            let current = members[i].1.deep_copy();
            match apply_rules(field, current, rules) {
                Ok(next) => {
                    let (key, _previous) = members.remove(i);
                    members.insert(i, (key, next));
                    assert(members_view(members@) =~= before.update(i as int, (before[i as int].0, next@)));
                    Ok(())
                },
                Err(e) => Err(e),
            }
        },
        None => match absent_default(field, rules) {
            Ok(Some(d)) => {
                let ghost dv = d@;
                members.push((field.clone(), d));
                assert(members_view(members@) =~= before.push((field@, dv)));
                Ok(())
            },
            Ok(None) => Ok(()),
            Err(e) => Err(e),
        },
    }
}

} // verus!
