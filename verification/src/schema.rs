//! The two profiles that a parameter set is checked against before a launch,
//! and the check itself.
//!
//! Keys that begin with `antithesis.` are reserved: both profiles accept any of
//! them, and ask that its value be a string, or an object with string fields
//! where the key names the integrations of one provider. The profile for test
//! runs requires `antithesis.duration`, a string of decimal digits; wants
//! `antithesis.is_ephemeral`, where given, to be `"true"` or `"false"`; and lets
//! every key outside the reserved ones through, whatever its value. The profile
//! for debugging sessions requires the three keys that identify a moment and
//! refuses every key outside the reserved ones.

use vstd::prelude::*;
use vstd::string::StringExecFns;

use crate::error::texts;
use crate::json::entry_keys;
use crate::json::object_entries;
use crate::json::object_get;
use crate::json::object_model;
use crate::json::object_order;
use crate::json::value_as_object;
use crate::json::value_as_text;
use crate::json::value_model;
use crate::json::Entries;
use crate::json::Json;
use crate::json::JsonObject;
use crate::params::find_dot;
use crate::params::first_dot;
use crate::params::tokens_of;
use crate::text::all_digits;
use crate::text::chars_of;
use crate::text::is_all_digits;
use crate::text::matches_at;
use crate::text::starts_with;
use crate::text::str_eq;

verus! {

/// What a parameter set is checked against.
#[derive(Debug, Clone, Copy)]
pub enum Profile {
    /// The parameters of a test run.
    TestParams,
    /// The parameters of a debugging session.
    DebuggingParams,
}

/// What a profile asks of the value under a key.
pub enum Rule {
    /// A string.
    Text,
    /// A string of decimal digits.
    Integer,
    /// The string `true` or the string `false`.
    Boolean,
    /// An object whose fields are strings.
    Block,
    /// Nothing: any value passes.
    Free,
    /// The key is not allowed at all.
    Refused,
}

/// Whether a key lies in the reserved namespace.
pub open spec fn reserved(key: Seq<char>) -> bool {
    "antithesis."@.is_prefix_of(key)
}

/// Whether a key has the form `<namespace>.integrations.<provider>`, with
/// namespace and provider not empty and no dot in the provider.
pub open spec fn integration_group(key: Seq<char>) -> bool {
    let d1 = first_dot(key, 0);
    let d2 = first_dot(key, d1 + 1);
    0 < d1 && d1 < d2 && d2 + 1 < key.len() && first_dot(key, d2 + 1) == key.len() && key.subrange(
        d1 + 1,
        d2,
    ) == "integrations"@
}

/// The keys that a profile requires, in the order in which their absence is
/// reported.
pub open spec fn required_keys(profile: Profile) -> Seq<Seq<char>> {
    match profile {
        Profile::TestParams => seq!["antithesis.duration"@],
        Profile::DebuggingParams => seq![
            "antithesis.debugging.input_hash"@,
            "antithesis.debugging.session_id"@,
            "antithesis.debugging.vtime"@,
        ],
    }
}

/// What `profile` asks of the value under `key`.
pub open spec fn rule_for(profile: Profile, key: Seq<char>) -> Rule {
    if profile is TestParams && key == "antithesis.duration"@ {
        Rule::Integer
    } else if profile is TestParams && key == "antithesis.is_ephemeral"@ {
        Rule::Boolean
    } else if profile is DebuggingParams && (key == "antithesis.debugging.input_hash"@ || key
        == "antithesis.debugging.session_id"@ || key == "antithesis.debugging.vtime"@) {
        Rule::Text
    } else if reserved(key) {
        if integration_group(key) {
            Rule::Block
        } else {
            Rule::Text
        }
    } else if profile is TestParams {
        Rule::Free
    } else {
        Rule::Refused
    }
}

/// Whether a value meets a rule.
pub open spec fn meets(value: Json, rule: Rule) -> bool {
    match rule {
        Rule::Text => value is Text,
        Rule::Integer => value is Text && all_digits(value->Text_0),
        Rule::Boolean => value == Json::Text("true"@) || value == Json::Text("false"@),
        Rule::Block => value is Object && forall|field: Seq<char>|
            value->Object_0.dom().contains(field) ==> (#[trigger] value->Object_0[field]) is Text,
        Rule::Free => true,
        Rule::Refused => false,
    }
}

/// The message for a required key that is absent.
pub open spec fn missing_message(key: Seq<char>) -> Seq<char> {
    "missing required property '"@ + key + "'"@
}

/// The message for a key whose value does not meet `rule`.
pub open spec fn rule_message(rule: Rule, key: Seq<char>) -> Seq<char> {
    match rule {
        Rule::Text => "property '"@ + key + "' must be a string"@,
        Rule::Integer => "property '"@ + key + "' must be a string of decimal digits"@,
        Rule::Boolean => "property '"@ + key + "' must be \"true\" or \"false\""@,
        Rule::Block => "property '"@ + key + "' must be an object with string fields"@,
        Rule::Free => Seq::empty(),
        Rule::Refused => "additional property '"@ + key + "' not allowed"@,
    }
}

/// The messages for the keys among `required` that `entries` lacks.
pub open spec fn missing_among(required: Seq<Seq<char>>, entries: Entries) -> Seq<Seq<char>>
    decreases required.len(),
{
    if required.len() == 0 {
        Seq::empty()
    } else if entries.dom().contains(required.last()) {
        missing_among(required.drop_last(), entries)
    } else {
        missing_among(required.drop_last(), entries).push(missing_message(required.last()))
    }
}

/// The messages for the keys among `keys` whose value breaks the profile's
/// rule, in the order of `keys`.
pub open spec fn broken_among(profile: Profile, keys: Seq<Seq<char>>, entries: Entries) -> Seq<
    Seq<char>,
>
    decreases keys.len(),
{
    if keys.len() == 0 {
        Seq::empty()
    } else if meets(entries[keys.last()], rule_for(profile, keys.last())) {
        broken_among(profile, keys.drop_last(), entries)
    } else {
        broken_among(profile, keys.drop_last(), entries).push(
            rule_message(rule_for(profile, keys.last()), keys.last()),
        )
    }
}

/// Every violation of `profile` by `entries`: first the required keys that
/// are absent, then the keys whose value breaks a rule, in the order `keys`.
pub open spec fn violations(profile: Profile, entries: Entries, keys: Seq<Seq<char>>) -> Seq<
    Seq<char>,
> {
    missing_among(required_keys(profile), entries) + broken_among(profile, keys, entries)
}

/// Whether `entries` meet `profile`: every required key is there, and every
/// value meets the rule for its key.
pub open spec fn conforms(profile: Profile, entries: Entries) -> bool {
    &&& forall|i: int|
        0 <= i < required_keys(profile).len() ==> entries.dom().contains(
            #[trigger] required_keys(profile)[i],
        )
    &&& forall|key: Seq<char>| #[trigger]
        entries.dom().contains(key) ==> meets(entries[key], rule_for(profile, key))
}

/// No required key is reported exactly when every required key is there.
pub proof fn lemma_missing_none(required: Seq<Seq<char>>, entries: Entries)
    ensures
        missing_among(required, entries).len() == 0 <==> forall|i: int|
            0 <= i < required.len() ==> entries.dom().contains(#[trigger] required[i]),
    decreases required.len(),
{
    if required.len() > 0 {
        let rest = required.drop_last();
        lemma_missing_none(rest, entries);
        if missing_among(required, entries).len() == 0 {
            assert forall|i: int| 0 <= i < required.len() implies entries.dom().contains(
                #[trigger] required[i],
            ) by {
                if i < rest.len() {
                    assert(rest[i] == required[i]);
                }
            }
        } else if entries.dom().contains(required.last()) {
            let i = choose|i: int| 0 <= i < rest.len() && !entries.dom().contains(#[trigger] rest[i]);
            assert(rest[i] == required[i]);
        }
    }
}

/// No value is reported exactly when every listed key's value meets its rule.
pub proof fn lemma_broken_none(profile: Profile, keys: Seq<Seq<char>>, entries: Entries)
    ensures
        broken_among(profile, keys, entries).len() == 0 <==> forall|i: int|
            0 <= i < keys.len() ==> meets(entries[#[trigger] keys[i]], rule_for(profile, keys[i])),
    decreases keys.len(),
{
    if keys.len() > 0 {
        let rest = keys.drop_last();
        lemma_broken_none(profile, rest, entries);
        if broken_among(profile, keys, entries).len() == 0 {
            assert forall|i: int| 0 <= i < keys.len() implies meets(
                entries[#[trigger] keys[i]],
                rule_for(profile, keys[i]),
            ) by {
                if i < rest.len() {
                    assert(rest[i] == keys[i]);
                }
            }
        } else if meets(entries[keys.last()], rule_for(profile, keys.last())) {
            let i = choose|i: int|
                0 <= i < rest.len() && !meets(entries[#[trigger] rest[i]], rule_for(profile, rest[i]));
            assert(rest[i] == keys[i]);
        }
    }
}

/// A parameter set has no violation exactly when it conforms to the profile,
/// in whatever order its keys are listed.
pub proof fn lemma_no_violation_iff_conforms(profile: Profile, entries: Entries, keys: Seq<Seq<char>>)
    requires
        keys.to_set() == entries.dom(),
    ensures
        violations(profile, entries, keys).len() == 0 <==> conforms(profile, entries),
{
    lemma_missing_none(required_keys(profile), entries);
    lemma_broken_none(profile, keys, entries);
    if violations(profile, entries, keys).len() == 0 {
        assert forall|key: Seq<char>| #[trigger] entries.dom().contains(key) implies meets(
            entries[key],
            rule_for(profile, key),
        ) by {
            assert(keys.to_set().contains(key));
            let i = choose|i: int| 0 <= i < keys.len() && keys[i] == key;
            assert(meets(entries[keys[i]], rule_for(profile, keys[i])));
        }
    }
    if conforms(profile, entries) {
        assert forall|i: int| 0 <= i < keys.len() implies meets(
            entries[#[trigger] keys[i]],
            rule_for(profile, keys[i]),
        ) by {
            assert(keys.to_set().contains(keys[i]));
        }
    }
}

/// Every key that a profile names lies in the reserved namespace.
pub proof fn lemma_named_keys_are_reserved()
    ensures
        reserved("antithesis.duration"@),
        reserved("antithesis.is_ephemeral"@),
        reserved("antithesis.debugging.input_hash"@),
        reserved("antithesis.debugging.session_id"@),
        reserved("antithesis.debugging.vtime"@),
{
    reveal_strlit("antithesis.");
    reveal_strlit("antithesis.duration");
    reveal_strlit("antithesis.is_ephemeral");
    reveal_strlit("antithesis.debugging.input_hash");
    reveal_strlit("antithesis.debugging.session_id");
    reveal_strlit("antithesis.debugging.vtime");
    let prefix = "antithesis."@;
    assert("antithesis.duration"@.subrange(0, 11) =~= prefix);
    assert("antithesis.is_ephemeral"@.subrange(0, 11) =~= prefix);
    assert("antithesis.debugging.input_hash"@.subrange(0, 11) =~= prefix);
    assert("antithesis.debugging.session_id"@.subrange(0, 11) =~= prefix);
    assert("antithesis.debugging.vtime"@.subrange(0, 11) =~= prefix);
}

/// A required key that is absent is among the messages for the absent keys.
proof fn lemma_missing_listed(required: Seq<Seq<char>>, entries: Entries, i: int)
    requires
        0 <= i < required.len(),
        !entries.dom().contains(required[i]),
    ensures
        missing_among(required, entries).contains(missing_message(required[i])),
    decreases required.len(),
{
    let rest = required.drop_last();
    if i == required.len() - 1 {
        let all = missing_among(required, entries);
        assert(all[all.len() - 1] == missing_message(required[i]));
    } else {
        lemma_missing_listed(rest, entries, i);
        assert(rest[i] == required[i]);
        let at = choose|at: int|
            0 <= at < missing_among(rest, entries).len() && missing_among(rest, entries)[at]
                == missing_message(required[i]);
        assert(missing_among(required, entries)[at] == missing_message(required[i]));
    }
}

/// A listed key whose value breaks its rule is among the messages for the
/// broken rules.
proof fn lemma_broken_listed(profile: Profile, keys: Seq<Seq<char>>, entries: Entries, i: int)
    requires
        0 <= i < keys.len(),
        !meets(entries[keys[i]], rule_for(profile, keys[i])),
    ensures
        broken_among(profile, keys, entries).contains(
            rule_message(rule_for(profile, keys[i]), keys[i]),
        ),
    decreases keys.len(),
{
    let rest = keys.drop_last();
    let message = rule_message(rule_for(profile, keys[i]), keys[i]);
    if i == keys.len() - 1 {
        let all = broken_among(profile, keys, entries);
        assert(all[all.len() - 1] == message);
    } else {
        lemma_broken_listed(profile, rest, entries, i);
        assert(rest[i] == keys[i]);
        let at = choose|at: int|
            0 <= at < broken_among(profile, rest, entries).len() && broken_among(
                profile,
                rest,
                entries,
            )[at] == message;
        assert(broken_among(profile, keys, entries)[at] == message);
    }
}

/// Where a required key is absent, the violations hold the message that names
/// it, whatever else the parameters hold.
pub proof fn lemma_absent_key_is_reported(
    profile: Profile,
    entries: Entries,
    keys: Seq<Seq<char>>,
    i: int,
)
    requires
        0 <= i < required_keys(profile).len(),
        !entries.dom().contains(required_keys(profile)[i]),
    ensures
        violations(profile, entries, keys).contains(missing_message(required_keys(profile)[i])),
{
    let missing = missing_among(required_keys(profile), entries);
    lemma_missing_listed(required_keys(profile), entries, i);
    let at = choose|at: int|
        0 <= at < missing.len() && missing[at] == missing_message(required_keys(profile)[i]);
    assert(violations(profile, entries, keys)[at] == missing[at]);
}

/// Where the value under a key breaks the rule for it, the violations hold
/// the message that names the key and the rule.
pub proof fn lemma_broken_rule_is_reported(
    profile: Profile,
    entries: Entries,
    keys: Seq<Seq<char>>,
    key: Seq<char>,
)
    requires
        keys.to_set() == entries.dom(),
        entries.dom().contains(key),
        !meets(entries[key], rule_for(profile, key)),
    ensures
        violations(profile, entries, keys).contains(rule_message(rule_for(profile, key), key)),
{
    assert(keys.to_set().contains(key));
    let i = choose|i: int| 0 <= i < keys.len() && keys[i] == key;
    let missing = missing_among(required_keys(profile), entries);
    let broken = broken_among(profile, keys, entries);
    lemma_broken_listed(profile, keys, entries, i);
    let at = choose|at: int|
        0 <= at < broken.len() && broken[at] == rule_message(rule_for(profile, key), key);
    assert(violations(profile, entries, keys)[missing.len() + at] == broken[at]);
}

/// The three keys of a moment, each with a string, and no other key: these
/// parameters conform to the profile for debugging sessions.
pub proof fn lemma_moment_keys_conform(entries: Entries)
    requires
        forall|key: Seq<char>|
            entries.dom().contains(key) <==> required_keys(Profile::DebuggingParams).contains(key),
        forall|key: Seq<char>| entries.dom().contains(key) ==> (#[trigger] entries[key]) is Text,
    ensures
        conforms(Profile::DebuggingParams, entries),
{
    let required = required_keys(Profile::DebuggingParams);
    assert forall|i: int| 0 <= i < required.len() implies entries.dom().contains(
        #[trigger] required[i],
    ) by {
        assert(required.contains(required[i]));
    }
    assert forall|key: Seq<char>| #[trigger] entries.dom().contains(key) implies meets(
        entries[key],
        rule_for(Profile::DebuggingParams, key),
    ) by {
        assert(required.contains(key));
        let i = choose|i: int| 0 <= i < required.len() && required[i] == key;
        assert(entries[key] is Text);
    }
}

/// The profile for debugging sessions refuses every key outside the reserved
/// namespace: the violations name it as an additional property.
pub proof fn lemma_debugging_refuses_other_keys(
    entries: Entries,
    keys: Seq<Seq<char>>,
    key: Seq<char>,
)
    requires
        keys.to_set() == entries.dom(),
        entries.dom().contains(key),
        !reserved(key),
    ensures
        violations(Profile::DebuggingParams, entries, keys).contains(
            "additional property '"@ + key + "' not allowed"@,
        ),
{
    lemma_named_keys_are_reserved();
    lemma_broken_rule_is_reported(Profile::DebuggingParams, entries, keys, key);
}

/// The profile for test runs lets every key outside the reserved namespace
/// through: with the duration given as digits, and nothing else under a
/// reserved key, the parameters conform.
pub proof fn lemma_test_run_passes_other_keys(entries: Entries)
    requires
        entries.dom().contains("antithesis.duration"@),
        entries["antithesis.duration"@] is Text,
        all_digits(entries["antithesis.duration"@]->Text_0),
        forall|key: Seq<char>|
            entries.dom().contains(key) && key != "antithesis.duration"@ ==> !reserved(key),
    ensures
        conforms(Profile::TestParams, entries),
{
    lemma_named_keys_are_reserved();
}

/// Whether a key lies in the reserved namespace.
fn is_reserved(key: &str) -> (r: bool)
    ensures
        r == reserved(key@),
{
    starts_with(key, "antithesis.")
}

/// Whether a key names the integrations of one provider.
fn is_integration_group(key: &str) -> (r: bool)
    ensures
        r == integration_group(key@),
{
    let chars = chars_of(key);
    let d1 = find_dot(&chars, 0);
    if d1 == 0 || d1 >= chars.len() {
        return false;
    }
    let d2 = find_dot(&chars, d1 + 1);
    if d2 >= chars.len() || chars.len() - d2 < 2 {
        return false;
    }
    let d3 = find_dot(&chars, d2 + 1);
    if d3 != chars.len() {
        return false;
    }
    let word = chars_of("integrations");
    d2 - d1 - 1 == word.len() && matches_at(&chars, d1 + 1, &word)
}

/// What `profile` asks of the value under `key`.
fn find_rule(profile: Profile, key: &str) -> (rule: Rule)
    ensures
        rule == rule_for(profile, key@),
{
    let test = match profile {
        Profile::TestParams => true,
        Profile::DebuggingParams => false,
    };
    if test && str_eq(key, "antithesis.duration") {
        Rule::Integer
    } else if test && str_eq(key, "antithesis.is_ephemeral") {
        Rule::Boolean
    } else if !test && (str_eq(key, "antithesis.debugging.input_hash") || str_eq(
        key,
        "antithesis.debugging.session_id",
    ) || str_eq(key, "antithesis.debugging.vtime")) {
        Rule::Text
    } else if is_reserved(key) {
        if is_integration_group(key) {
            Rule::Block
        } else {
            Rule::Text
        }
    } else if test {
        Rule::Free
    } else {
        Rule::Refused
    }
}

/// Whether every field of an object is a string.
fn all_text_fields(object: &JsonObject) -> (r: bool)
    ensures
        r == forall|field: Seq<char>|
            object_model(*object).dom().contains(field) ==> (#[trigger] object_model(
                *object,
            )[field]) is Text,
{
    let entries = object_entries(object);
    let ghost keys = entry_keys(entries@);
    let mut i: usize = 0;
    while i < entries.len()
        invariant
            i <= entries.len(),
            keys == entry_keys(entries@),
            keys.to_set() == object_model(*object).dom(),
            forall|j: int|
                0 <= j < entries@.len() ==> value_model(*(#[trigger] entries@[j]).1)
                    == object_model(*object)[entries@[j].0@],
            forall|j: int| 0 <= j < i ==> object_model(*object)[#[trigger] keys[j]] is Text,
        decreases entries.len() - i,
    {
        if value_as_text(entries[i].1).is_none() {
            assert(keys.to_set().contains(keys[i as int]));
            assert(!(object_model(*object)[keys[i as int]] is Text));
            return false;
        }
        i += 1;
    }
    assert forall|field: Seq<char>| object_model(*object).dom().contains(field) implies (
    #[trigger] object_model(*object)[field]) is Text by {
        assert(keys.to_set().contains(field));
        let j = choose|j: int| 0 <= j < keys.len() && keys[j] == field;
        assert(object_model(*object)[keys[j]] is Text);
    }
    true
}

/// Whether a value meets a rule.
fn value_meets(value: &serde_json::Value, rule: &Rule) -> (r: bool)
    ensures
        r == meets(value_model(*value), *rule),
{
    match rule {
        Rule::Text => value_as_text(value).is_some(),
        Rule::Integer => match value_as_text(value) {
            Some(text) => is_all_digits(text),
            None => false,
        },
        Rule::Boolean => match value_as_text(value) {
            Some(text) => str_eq(text, "true") || str_eq(text, "false"),
            None => false,
        },
        Rule::Block => match value_as_object(value) {
            Some(object) => all_text_fields(object),
            None => false,
        },
        Rule::Free => true,
        Rule::Refused => false,
    }
}

/// The message for a required key that is absent.
fn describe_missing(key: &str) -> (message: String)
    ensures
        message@ == missing_message(key@),
{
    String::from_str("missing required property '").concat(key).concat("'")
}

/// The message for a key whose value does not meet `rule`.
fn describe_broken(rule: &Rule, key: &str) -> (message: String)
    ensures
        message@ == rule_message(*rule, key@),
{
    match rule {
        Rule::Text => String::from_str("property '").concat(key).concat("' must be a string"),
        Rule::Integer => String::from_str("property '").concat(key).concat(
            "' must be a string of decimal digits",
        ),
        Rule::Boolean => String::from_str("property '").concat(key).concat(
            "' must be \"true\" or \"false\"",
        ),
        Rule::Block => String::from_str("property '").concat(key).concat(
            "' must be an object with string fields",
        ),
        Rule::Free => String::new(),
        Rule::Refused => String::from_str("additional property '").concat(key).concat(
            "' not allowed",
        ),
    }
}

/// The keys that a profile requires.
fn required_list(profile: Profile) -> (list: Vec<&'static str>)
    ensures
        tokens_of(list@) == required_keys(profile),
{
    let mut list: Vec<&'static str> = Vec::new();
    match profile {
        Profile::TestParams => {
            list.push("antithesis.duration");
        },
        Profile::DebuggingParams => {
            list.push("antithesis.debugging.input_hash");
            list.push("antithesis.debugging.session_id");
            list.push("antithesis.debugging.vtime");
        },
    }
    assert(tokens_of(list@) =~= required_keys(profile));
    list
}

/// Checks an object against a profile and lists every violation: first the
/// required keys that are absent, then the keys whose value breaks a rule, in
/// the order in which the object hands its keys out. The list is empty exactly
/// when the object conforms.
pub fn validate(object: &JsonObject, profile: Profile) -> (out: Vec<String>)
    ensures
        texts(out@) == violations(profile, object_model(*object), object_order(*object)),
        out@.len() == 0 <==> conforms(profile, object_model(*object)),
        object_order(*object).to_set() == object_model(*object).dom(),
{
    let ghost own = object_model(*object);
    let mut out: Vec<String> = Vec::new();
    let required = required_list(profile);
    let mut i: usize = 0;
    assert(texts(out@) =~= missing_among(tokens_of(required@).take(0), own));
    while i < required.len()
        invariant
            i <= required.len(),
            own == object_model(*object),
            texts(out@) == missing_among(tokens_of(required@).take(i as int), own),
        decreases required.len() - i,
    {
        let key = required[i];
        let ghost now = tokens_of(required@).take(i + 1);
        assert(now.drop_last() =~= tokens_of(required@).take(i as int));
        assert(now.last() == key@);
        if object_get(object, key).is_none() {
            let message = describe_missing(key);
            let ghost before = out@;
            out.push(message);
            assert(texts(out@) =~= texts(before).push(message@));
        }
        i += 1;
    }
    assert(tokens_of(required@).take(required@.len() as int) =~= required_keys(profile));
    let ghost missing = texts(out@);
    let entries = object_entries(object);
    let ghost keys = entry_keys(entries@);
    let mut j: usize = 0;
    assert(texts(out@) =~= missing + broken_among(profile, keys.take(0), own));
    while j < entries.len()
        invariant
            j <= entries.len(),
            own == object_model(*object),
            keys == entry_keys(entries@),
            forall|k: int|
                0 <= k < entries@.len() ==> value_model(*(#[trigger] entries@[k]).1)
                    == own[entries@[k].0@],
            texts(out@) == missing + broken_among(profile, keys.take(j as int), own),
        decreases entries.len() - j,
    {
        let key = entries[j].0.as_str();
        let ghost now = keys.take(j + 1);
        assert(now.drop_last() =~= keys.take(j as int));
        assert(now.last() == key@);
        let rule = find_rule(profile, key);
        if !value_meets(entries[j].1, &rule) {
            let message = describe_broken(&rule, key);
            let ghost before = out@;
            out.push(message);
            assert(texts(out@) =~= texts(before).push(message@));
        }
        j += 1;
    }
    proof {
        assert(keys.take(entries@.len() as int) =~= keys);
        lemma_no_violation_iff_conforms(profile, own, keys);
    }
    out
}

} // verus!
