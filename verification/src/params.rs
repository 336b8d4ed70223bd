//! Parameter sets: reading them from `--key value` tokens or from a JSON
//! object, merging two of them, and masking secrets for display.
//!
//! Tokens can be read in two ways. The flat reading, [`Params::from_args`],
//! stores every key as it was written. The grouped reading,
//! [`Params::from_args_grouped`], collects the keys of the form
//! `<namespace>.integrations.<provider>.<field>` into one object per provider,
//! stored under `<namespace>.integrations.<provider>`, and stores every other
//! key as the flat reading does. In both, every value is kept as the string
//! that was given: what a value must look like is the validator's concern.
//! The launching commands read their tokens flat, so that every key reaches
//! the service as it was written and a key that ends in `.token` stays masked
//! when the parameters are displayed.

use vstd::prelude::*;
use vstd::string::StrSliceExecFns;
use vstd::string::StringExecFns;

use crate::error::texts;
use crate::error::Error;
use crate::json::entry_keys;
use crate::json::object_clone;
use crate::json::object_entries;
use crate::json::object_get;
use crate::json::object_insert;
use crate::json::object_len;
use crate::json::object_model;
use crate::json::object_new;
use crate::json::object_order;
use crate::json::value_as_object;
use crate::json::value_clone;
use crate::json::value_from_object;
use crate::json::value_from_text;
use crate::json::value_model;
use crate::json::Entries;
use crate::json::Json;
use crate::json::JsonObject;
use crate::schema::conforms;
use crate::schema::validate;
use crate::schema::violations;
use crate::schema::Profile;
use crate::text::chars_of;
use crate::text::ends_with;
use crate::text::matches_at;
use crate::text::str_eq;

verus! {

/// The texts of a list of tokens.
pub open spec fn tokens_of(args: Seq<&str>) -> Seq<Seq<char>> {
    Seq::new(args.len(), |i: int| args[i]@)
}

/// Whether a token designates a key: it begins with `--`.
pub open spec fn is_flag(token: Seq<char>) -> bool {
    token.len() >= 2 && token[0] == '-' && token[1] == '-'
}

/// The key that a flag token designates.
pub open spec fn flag_key(token: Seq<char>) -> Seq<char> {
    token.skip(2)
}

/// The position of the first `.` in `s` at or after `from`; the length of `s`
/// where there is none.
pub open spec fn first_dot(s: Seq<char>, from: int) -> int
    decreases s.len() - from,
{
    if from < 0 || from >= s.len() {
        s.len() as int
    } else if s[from] == '.' {
        from
    } else {
        first_dot(s, from + 1)
    }
}

/// Where the key of an integration field ends its group: the position of the
/// third dot of `<namespace>.integrations.<provider>.<field>`, with namespace,
/// provider and field not empty. `None` for any other key.
pub open spec fn integration_cut(key: Seq<char>) -> Option<int> {
    let d1 = first_dot(key, 0);
    let d2 = first_dot(key, d1 + 1);
    let d3 = first_dot(key, d2 + 1);
    if 0 < d1 && d1 < d2 && d2 + 1 < d3 && d3 + 1 < key.len() && key.subrange(d1 + 1, d2)
        == "integrations"@ {
        Some(d3)
    } else {
        None
    }
}

/// The fields already collected under `group`: those of the object stored
/// there, none where the key is absent or leads to something else.
pub open spec fn members_at(entries: Entries, group: Seq<char>) -> Entries {
    if entries.dom().contains(group) && entries[group] is Object {
        entries[group]->Object_0
    } else {
        Map::empty()
    }
}

/// The entries after `key` was given `value`.
pub open spec fn stored(entries: Entries, key: Seq<char>, value: Seq<char>, grouped: bool) -> Entries {
    match integration_cut(key) {
        Some(cut) if grouped => {
            let group = key.take(cut);
            let field = key.skip(cut + 1);
            entries.insert(group, Json::Object(members_at(entries, group).insert(field, Json::Text(value))))
        },
        _ => entries.insert(key, Json::Text(value)),
    }
}

/// What reading `tokens` from left to right gives, starting from `entries`:
/// the entries at the end, or the message for the first token that is out of
/// place.
pub open spec fn read_tokens(tokens: Seq<Seq<char>>, entries: Entries, grouped: bool) -> Result<
    Entries,
    Seq<char>,
>
    decreases tokens.len(),
{
    if tokens.len() == 0 {
        Ok(entries)
    } else if !is_flag(tokens[0]) {
        Err("unexpected argument: "@ + tokens[0])
    } else if tokens[0].len() == 2 {
        Err("empty key after --"@)
    } else if tokens.len() == 1 {
        Err("missing value for --"@ + flag_key(tokens[0]))
    } else {
        read_tokens(tokens.skip(2), stored(entries, flag_key(tokens[0]), tokens[1], grouped), grouped)
    }
}

/// Whether the value under `key` is hidden when parameters are displayed.
pub open spec fn sensitive(key: Seq<char>) -> bool {
    ".token"@.is_suffix_of(key) || key == "antithesis.report.recipients"@
}

/// The entries as they are displayed: the same keys, with the value of every
/// sensitive key replaced by the marker.
pub open spec fn redacted(entries: Entries) -> Entries {
    Map::new(
        |k: Seq<char>| entries.dom().contains(k),
        |k: Seq<char>|
            if sensitive(k) {
                Json::Text("[REDACTED]"@)
            } else {
                entries[k]
            },
    )
}

/// Whether the value under `key` is hidden when parameters are displayed: the
/// key ends in `.token` or is the key of the report's recipients.
pub fn is_sensitive_key(key: &str) -> (r: bool)
    ensures
        r == sensitive(key@),
{
    ends_with(key, ".token") || str_eq(key, "antithesis.report.recipients")
}

/// The position of the first `.` in `text` at or after `from`.
pub(crate) fn find_dot(text: &Vec<char>, from: usize) -> (at: usize)
    ensures
        at == first_dot(text@, from as int),
        at <= text@.len(),
        from <= text@.len() ==> from <= at,
{
    let mut i: usize = from;
    while i < text.len() && text[i] != '.'
        invariant
            from <= i,
            first_dot(text@, from as int) == first_dot(text@, i as int),
        decreases text.len() - i,
    {
        i += 1;
    }
    if i >= text.len() {
        text.len()
    } else {
        i
    }
}

/// Where the key of an integration field ends its group.
fn find_integration_cut(key: &Vec<char>) -> (r: Option<usize>)
    ensures
        r matches Some(cut) ==> integration_cut(key@) == Some(cut as int) && cut + 1 < key@.len(),
        r is None ==> integration_cut(key@) is None,
{
    let d1 = find_dot(key, 0);
    if d1 == 0 || d1 >= key.len() {
        return None;
    }
    let d2 = find_dot(key, d1 + 1);
    if d2 >= key.len() {
        return None;
    }
    let d3 = find_dot(key, d2 + 1);
    if d3 >= key.len() || d3 - d2 < 2 || key.len() - d3 < 2 {
        return None;
    }
    let word = chars_of("integrations");
    if d2 - d1 - 1 == word.len() && matches_at(key, d1 + 1, &word) {
        Some(d3)
    } else {
        None
    }
}

/// The key of the `j`-th pair of tokens.
pub open spec fn pair_key(tokens: Seq<Seq<char>>, j: int) -> Seq<char> {
    flag_key(tokens[2 * j])
}

/// The value of the `j`-th pair of tokens.
pub open spec fn pair_value(tokens: Seq<Seq<char>>, j: int) -> Seq<char> {
    tokens[2 * j + 1]
}

/// Whether the `j`-th pair of tokens starts with a flag that names a key.
pub open spec fn pair_keyed(tokens: Seq<Seq<char>>, j: int) -> bool {
    is_flag(tokens[2 * j]) && tokens[2 * j].len() > 2
}

/// Whether tokens alternate keys and values: there is an even number of them,
/// and every pair starts with a flag that names a key.
pub open spec fn alternating(tokens: Seq<Seq<char>>) -> bool {
    tokens.len() % 2 == 0 && forall|j: int|
        0 <= j < tokens.len() / 2 ==> #[trigger] pair_keyed(tokens, j)
}

/// Whether some pair of tokens has the key.
pub open spec fn names_key(tokens: Seq<Seq<char>>, key: Seq<char>) -> bool {
    exists|j: int| 0 <= j < tokens.len() / 2 && #[trigger] pair_key(tokens, j) == key
}

/// Whether no pair after the `j`-th has the key of the `j`-th.
pub open spec fn last_of_its_key(tokens: Seq<Seq<char>>, j: int) -> bool {
    forall|l: int| j < l < tokens.len() / 2 ==> #[trigger] pair_key(tokens, l) != pair_key(tokens, j)
}

/// The flat reading succeeds exactly on tokens that alternate keys and values.
/// It then holds one entry for each key that a pair names, whose value is the
/// token after the last flag with that key, kept as it was written; and what
/// the reading started from stays under every other key.
pub proof fn lemma_flat_reading(tokens: Seq<Seq<char>>, start: Entries)
    ensures
        read_tokens(tokens, start, false) is Ok <==> alternating(tokens),
        read_tokens(tokens, start, false) matches Ok(entries) ==> {
            &&& forall|key: Seq<char>| #[trigger]
                entries.dom().contains(key) <==> start.dom().contains(key) || names_key(tokens, key)
            &&& forall|j: int|
                0 <= j < tokens.len() / 2 && #[trigger] last_of_its_key(tokens, j) ==> entries[pair_key(
                    tokens,
                    j,
                )] == Json::Text(pair_value(tokens, j))
            &&& forall|key: Seq<char>|
                !names_key(tokens, key) ==> #[trigger] entries[key] == start[key]
        },
    decreases tokens.len(),
{
    if tokens.len() == 0 {
    } else if !is_flag(tokens[0]) || tokens[0].len() == 2 || tokens.len() == 1 {
        if alternating(tokens) {
            assert(pair_keyed(tokens, 0));
        }
    } else {
        let rest = tokens.skip(2);
        let key0 = pair_key(tokens, 0);
        let next = start.insert(key0, Json::Text(tokens[1]));
        assert(stored(start, key0, tokens[1], false) == next);
        lemma_flat_reading(rest, next);
        assert(rest.len() / 2 == tokens.len() / 2 - 1);
        assert forall|j: int| 0 <= j < rest.len() / 2 implies pair_key(rest, j) == pair_key(
            tokens,
            j + 1,
        ) && pair_value(rest, j) == pair_value(tokens, j + 1) && pair_keyed(rest, j) == pair_keyed(
            tokens,
            j + 1,
        ) by {
            assert(rest[2 * j] == tokens[2 * (j + 1)]);
            assert(rest[2 * j + 1] == tokens[2 * (j + 1) + 1]);
        }
        if alternating(tokens) {
            assert forall|j: int| 0 <= j < rest.len() / 2 implies #[trigger] pair_keyed(rest, j) by {
                assert(pair_keyed(tokens, j + 1));
            }
        }
        if alternating(rest) {
            assert forall|j: int| 0 <= j < tokens.len() / 2 implies #[trigger] pair_keyed(
                tokens,
                j,
            ) by {
                if j > 0 {
                    assert(pair_keyed(rest, j - 1));
                }
            }
        }
        if let Ok(entries) = read_tokens(tokens, start, false) {
            assert forall|key: Seq<char>| names_key(tokens, key) <==> key == key0 || names_key(
                rest,
                key,
            ) by {
                if names_key(tokens, key) {
                    let j = choose|j: int|
                        0 <= j < tokens.len() / 2 && #[trigger] pair_key(tokens, j) == key;
                    if j > 0 {
                        assert(pair_key(rest, j - 1) == key);
                    }
                }
                if names_key(rest, key) {
                    let j = choose|j: int|
                        0 <= j < rest.len() / 2 && #[trigger] pair_key(rest, j) == key;
                    assert(pair_key(tokens, j + 1) == key);
                }
                if key == key0 {
                    assert(pair_key(tokens, 0) == key);
                }
            }
            assert forall|j: int|
                0 <= j < tokens.len() / 2 && #[trigger] last_of_its_key(tokens, j) implies entries[pair_key(
                tokens,
                j,
            )] == Json::Text(pair_value(tokens, j)) by {
                if j == 0 {
                    assert(!names_key(rest, key0)) by {
                        if names_key(rest, key0) {
                            let l = choose|l: int|
                                0 <= l < rest.len() / 2 && #[trigger] pair_key(rest, l) == key0;
                            assert(pair_key(tokens, l + 1) == key0);
                        }
                    }
                    assert(entries[key0] == next[key0]);
                } else {
                    assert(last_of_its_key(rest, j - 1)) by {
                        assert forall|l: int| j - 1 < l < rest.len() / 2 implies #[trigger] pair_key(
                            rest,
                            l,
                        ) != pair_key(rest, j - 1) by {
                            assert(pair_key(tokens, l + 1) != pair_key(tokens, j));
                        }
                    }
                    assert(pair_key(rest, j - 1) == pair_key(tokens, j));
                }
            }
            assert forall|key: Seq<char>| !names_key(tokens, key) implies #[trigger] entries[key]
                == start[key] by {
                assert(entries[key] == next[key]);
            }
        }
    }
}

/// Whether no two pairs of tokens have the same key.
pub open spec fn distinct_keys(tokens: Seq<Seq<char>>) -> bool {
    forall|i: int, j: int|
        0 <= i < j < tokens.len() / 2 ==> #[trigger] pair_key(tokens, i) != #[trigger] pair_key(
            tokens,
            j,
        )
}

/// Whether no pair of tokens has the key of an integration field.
pub open spec fn no_integration_keys(tokens: Seq<Seq<char>>) -> bool {
    forall|j: int|
        0 <= j < tokens.len() / 2 ==> integration_cut(#[trigger] pair_key(tokens, j)) is None
}

/// With no integration field among the keys, the grouped reading gives what
/// the flat reading gives.
pub proof fn lemma_grouped_reading_is_flat(tokens: Seq<Seq<char>>, start: Entries)
    requires
        no_integration_keys(tokens),
    ensures
        read_tokens(tokens, start, true) == read_tokens(tokens, start, false),
    decreases tokens.len(),
{
    if tokens.len() >= 2 && is_flag(tokens[0]) && tokens[0].len() != 2 {
        let rest = tokens.skip(2);
        assert(integration_cut(pair_key(tokens, 0)) is None);
        assert forall|j: int| 0 <= j < rest.len() / 2 implies integration_cut(
            #[trigger] pair_key(rest, j),
        ) is None by {
            assert(rest[2 * j] == tokens[2 * (j + 1)]);
            assert(pair_key(rest, j) == pair_key(tokens, j + 1));
        }
        lemma_grouped_reading_is_flat(
            rest,
            stored(start, flag_key(tokens[0]), tokens[1], false),
        );
    }
}

/// Alternating tokens whose keys differ from each other and from the keys
/// that the reading starts from add one entry for each pair.
proof fn lemma_flat_reading_count(tokens: Seq<Seq<char>>, start: Entries)
    requires
        alternating(tokens),
        distinct_keys(tokens),
        start.dom().finite(),
        forall|j: int| 0 <= j < tokens.len() / 2 ==> !start.dom().contains(#[trigger] pair_key(tokens, j)),
    ensures
        read_tokens(tokens, start, false) matches Ok(entries) && entries.dom().finite()
            && entries.len() == start.len() + tokens.len() / 2,
    decreases tokens.len(),
{
    if tokens.len() > 0 {
        assert(pair_keyed(tokens, 0));
        let rest = tokens.skip(2);
        let key0 = pair_key(tokens, 0);
        let next = start.insert(key0, Json::Text(tokens[1]));
        assert(stored(start, key0, tokens[1], false) == next);
        assert(rest.len() / 2 == tokens.len() / 2 - 1);
        assert forall|j: int| 0 <= j < rest.len() / 2 implies pair_key(rest, j) == pair_key(
            tokens,
            j + 1,
        ) && pair_keyed(rest, j) == pair_keyed(tokens, j + 1) by {
            assert(rest[2 * j] == tokens[2 * (j + 1)]);
        }
        assert forall|j: int| 0 <= j < rest.len() / 2 implies #[trigger] pair_keyed(rest, j) by {
            assert(pair_keyed(tokens, j + 1));
        }
        assert forall|i: int, j: int| 0 <= i < j < rest.len() / 2 implies #[trigger] pair_key(
            rest,
            i,
        ) != #[trigger] pair_key(rest, j) by {
            assert(pair_key(tokens, i + 1) != pair_key(tokens, j + 1));
        }
        assert forall|j: int| 0 <= j < rest.len() / 2 implies !next.dom().contains(
            #[trigger] pair_key(rest, j),
        ) by {
            assert(pair_key(tokens, 0) != pair_key(tokens, j + 1));
            assert(!start.dom().contains(pair_key(tokens, j + 1)));
        }
        assert(!start.dom().contains(pair_key(tokens, 0)));
        assert(next.dom() =~= start.dom().insert(key0));
        lemma_flat_reading_count(rest, next);
    }
}

/// Alternating tokens with keys that all differ are read into exactly one
/// entry for each pair, whose value is the token after the key, kept as the
/// string that it is. This holds of the flat reading, and of the grouped
/// reading where no key is that of an integration field.
pub proof fn lemma_reading_of_distinct_keys(tokens: Seq<Seq<char>>, grouped: bool)
    requires
        alternating(tokens),
        distinct_keys(tokens),
        grouped ==> no_integration_keys(tokens),
    ensures
        read_tokens(tokens, Map::empty(), grouped) matches Ok(entries) && entries.dom().finite()
            && entries.len() == tokens.len() / 2 && (forall|j: int|
            0 <= j < tokens.len() / 2 ==> entries.dom().contains(#[trigger] pair_key(tokens, j))
                && entries[pair_key(tokens, j)] == Json::Text(pair_value(tokens, j))),
{
    let start = Entries::empty();
    if grouped {
        lemma_grouped_reading_is_flat(tokens, start);
    }
    lemma_flat_reading_count(tokens, start);
    lemma_flat_reading(tokens, start);
    let entries = read_tokens(tokens, start, false)->Ok_0;
    assert forall|j: int| 0 <= j < tokens.len() / 2 implies entries.dom().contains(
        #[trigger] pair_key(tokens, j),
    ) && entries[pair_key(tokens, j)] == Json::Text(pair_value(tokens, j)) by {
        assert(names_key(tokens, pair_key(tokens, j)));
        assert(last_of_its_key(tokens, j));
    }
}

/// Merging is biased to the right: a key of the overlay has the overlay's
/// value, a key of the base alone keeps its value, no other key appears, and
/// the result has at most as many keys as both together.
pub proof fn lemma_merge_is_right_biased(base: Entries, overlay: Entries)
    requires
        base.dom().finite(),
        overlay.dom().finite(),
    ensures
        forall|key: Seq<char>| #[trigger]
            overlay.dom().contains(key) ==> base.union_prefer_right(overlay).dom().contains(key)
                && base.union_prefer_right(overlay)[key] == overlay[key],
        forall|key: Seq<char>| #[trigger]
            base.dom().contains(key) && !overlay.dom().contains(key) ==> base.union_prefer_right(
                overlay,
            ).dom().contains(key) && base.union_prefer_right(overlay)[key] == base[key],
        forall|key: Seq<char>| #[trigger]
            base.union_prefer_right(overlay).dom().contains(key) ==> base.dom().contains(key)
                || overlay.dom().contains(key),
        base.union_prefer_right(overlay).dom().finite(),
        base.union_prefer_right(overlay).len() <= base.len() + overlay.len(),
{
    let merged = base.union_prefer_right(overlay);
    assert(merged.dom() =~= base.dom().union(overlay.dom()));
    vstd::set_lib::lemma_len_union(base.dom(), overlay.dom());
}

/// Masking keeps the keys, replaces exactly the values of the sensitive keys,
/// and changes nothing when it is done a second time.
pub proof fn lemma_redaction(entries: Entries)
    ensures
        redacted(entries).dom() == entries.dom(),
        forall|key: Seq<char>| #[trigger]
            entries.dom().contains(key) && !sensitive(key) ==> redacted(entries)[key] == entries[key],
        forall|key: Seq<char>| #[trigger]
            entries.dom().contains(key) && sensitive(key) ==> redacted(entries)[key] == Json::Text(
                "[REDACTED]"@,
            ),
        redacted(redacted(entries)) == redacted(entries),
{
    assert(redacted(entries).dom() =~= entries.dom());
    assert(redacted(redacted(entries)) =~= redacted(entries));
}

/// The set of the first `i + 1` items is that of the first `i` with one more.
proof fn lemma_take_next<A>(items: Seq<A>, i: int)
    requires
        0 <= i < items.len(),
    ensures
        items.take(i + 1).to_set() == items.take(i).to_set().insert(items[i]),
{
    assert(items.take(i + 1) =~= items.take(i).push(items[i]));
    items.take(i).lemma_push_to_set_commute(items[i]);
}

/// Gives `key` the string `value`, as [`stored`] says.
fn store(map: &mut JsonObject, key: &str, value: &str, grouped: bool)
    requires
        object_model(*old(map)).dom().finite(),
    ensures
        object_model(*final(map)) == stored(object_model(*old(map)), key@, value@, grouped),
        object_model(*final(map)).dom().finite(),
{
    if grouped {
        let chars = chars_of(key);
        if let Some(cut) = find_integration_cut(&chars) {
            let group = key.substring_char(0, cut);
            let field = key.substring_char(cut + 1, chars.len());
            let mut members = object_new();
            if let Some(found) = object_get(map, group) {
                if let Some(object) = value_as_object(found) {
                    members = object_clone(object);
                }
            }
            object_insert(
                &mut members,
                String::from_str(field),
                value_from_text(String::from_str(value)),
            );
            object_insert(map, String::from_str(group), value_from_object(members));
            return ;
        }
    }
    object_insert(map, String::from_str(key), value_from_text(String::from_str(value)));
}

/// Reads `--key value` tokens from left to right into a new map, flat or
/// grouped.
pub fn parse_args(args: &[&str], grouped: bool) -> (r: Result<JsonObject, Error>)
    ensures
        (match read_tokens(tokens_of(args@), Entries::empty(), grouped) {
            Ok(entries) => r matches Ok(map) && object_model(map) == entries && entries.dom().finite(),
            Err(reason) => r matches Err(Error::InvalidArgs(text)) && text@ == reason,
        }),
{
    let mut map = object_new();
    let mut i: usize = 0;
    assert(tokens_of(args@).skip(0) =~= tokens_of(args@));
    while i < args.len()
        invariant
            i <= args.len(),
            object_model(map).dom().finite(),
            read_tokens(tokens_of(args@), Entries::empty(), grouped) == read_tokens(
                tokens_of(args@).skip(i as int),
                object_model(map),
                grouped,
            ),
        decreases args.len() - i,
    {
        let arg = args[i];
        let chars = chars_of(arg);
        let ghost rest = tokens_of(args@).skip(i as int);
        assert(rest[0] == arg@);
        if !(chars.len() >= 2 && chars[0] == '-' && chars[1] == '-') {
            return Err(Error::InvalidArgs(String::from_str("unexpected argument: ").concat(arg)));
        }
        if chars.len() == 2 {
            return Err(Error::InvalidArgs(String::from_str("empty key after --")));
        }
        let key = arg.substring_char(2, chars.len());
        assert(key@ =~= flag_key(arg@));
        if i + 1 >= args.len() {
            return Err(Error::InvalidArgs(String::from_str("missing value for --").concat(key)));
        }
        let value = args[i + 1];
        assert(rest[1] == value@);
        assert(rest.skip(2) =~= tokens_of(args@).skip(i + 2));
        store(&mut map, key, value, grouped);
        i += 2;
    }
    Ok(map)
}

/// Checks an object against a profile; the error lists every violation.
fn validate_against_def(params: &JsonObject, profile: Profile) -> (r: Result<(), Error>)
    ensures
        r is Ok <==> conforms(profile, object_model(*params)),
        r matches Err(e) ==> e matches Error::ValidationFailed(list) && list@.len() > 0 && texts(
            list@,
        ) == violations(profile, object_model(*params), object_order(*params)),
        object_order(*params).to_set() == object_model(*params).dom(),
{
    let errors = validate(params, profile);
    if errors.len() > 0 {
        Err(Error::ValidationFailed(errors))
    } else {
        Ok(())
    }
}

/// A parameter set: dotted keys, each with a JSON value.
#[derive(Debug)]
pub struct Params {
    inner: JsonObject,
}

impl Clone for Params {
    fn clone(&self) -> (copy: Self)
        ensures
            copy@ == self@,
            copy.key_order() == self.key_order(),
    {
        Params { inner: object_clone(&self.inner) }
    }
}

impl View for Params {
    type V = Entries;

    closed spec fn view(&self) -> Entries {
        object_model(self.inner)
    }
}

impl Params {
    #[verifier::type_invariant]
    spec fn well_formed(&self) -> bool {
        object_model(self.inner).dom().finite()
    }

    /// The keys in the order in which the set hands them out.
    pub closed spec fn key_order(&self) -> Seq<Seq<char>> {
        object_order(self.inner)
    }

    /// The parameter set that holds the entries of `inner`.
    pub(crate) fn from_object(inner: JsonObject) -> (params: Params)
        requires
            object_model(inner).dom().finite(),
        ensures
            params@ == object_model(inner),
    {
        Params { inner }
    }

    /// Reads `--key value` tokens, storing every key as it was written.
    ///
    /// Fails on the first token that is out of place: one that should be a key
    /// and does not begin with `--`, a bare `--`, or a key with no token after
    /// it.
    pub fn from_args(args: &[&str]) -> (r: Result<Params, Error>)
        ensures
            (match read_tokens(tokens_of(args@), Entries::empty(), false) {
                Ok(entries) => r matches Ok(params) && params@ == entries,
                Err(reason) => r matches Err(Error::InvalidArgs(text)) && text@ == reason,
            }),
    {
        match parse_args(args, false) {
            Ok(inner) => Ok(Params { inner }),
            Err(e) => Err(e),
        }
    }

    /// Reads `--key value` tokens, collecting integration fields into one
    /// object per provider.
    ///
    /// Fails where [`Params::from_args`] fails.
    pub fn from_args_grouped(args: &[&str]) -> (r: Result<Params, Error>)
        ensures
            (match read_tokens(tokens_of(args@), Entries::empty(), true) {
                Ok(entries) => r matches Ok(params) && params@ == entries,
                Err(reason) => r matches Err(Error::InvalidArgs(text)) && text@ == reason,
            }),
    {
        match parse_args(args, true) {
            Ok(inner) => Ok(Params { inner }),
            Err(e) => Err(e),
        }
    }

    /// Takes the parameters from a JSON value, which must be an object.
    pub fn from_json(value: &serde_json::Value) -> (r: Result<Params, Error>)
        ensures
            (match value_model(*value) {
                Json::Object(entries) => r matches Ok(params) && params@ == entries,
                _ => r matches Err(Error::InvalidArgs(text)) && text@ == "expected JSON object"@,
            }),
    {
        match value_as_object(value) {
            Some(object) => Ok(Params { inner: object_clone(object) }),
            None => Err(Error::InvalidArgs(String::from_str("expected JSON object"))),
        }
    }

    /// The number of keys.
    pub fn len(&self) -> (n: usize)
        ensures
            self@.dom().finite(),
            n == self@.len(),
    {
        proof {
            use_type_invariant(self);
        }
        object_len(&self.inner)
    }

    /// The underlying map.
    pub fn as_map(&self) -> (map: &JsonObject)
        ensures
            object_model(*map) == self@,
            object_order(*map) == self.key_order(),
    {
        &self.inner
    }

    /// The JSON object that is sent as the request's `params`: every entry, none
    /// of them masked.
    pub fn to_value(&self) -> (value: serde_json::Value)
        ensures
            value_model(value) == Json::Object(self@),
    {
        value_from_object(object_clone(&self.inner))
    }

    /// Adds the entries of `other`. Where both have a key, the value of `other`
    /// replaces the one held here, whatever the two values are.
    pub fn merge(&mut self, other: Params)
        ensures
            final(self)@ == old(self)@.union_prefer_right(other@),
            final(self)@.dom().finite(),
    {
        proof {
            use_type_invariant(&*self);
        }
        let ghost base = object_model(self.inner);
        let ghost over = object_model(other.inner);
        let entries = object_entries(&other.inner);
        let ghost keys = entry_keys(entries@);
        let mut i: usize = 0;
        assert(over.restrict(keys.take(0).to_set()) =~= Entries::empty());
        assert(base.union_prefer_right(Entries::empty()) =~= base);
        while i < entries.len()
            invariant
                i <= entries.len(),
                keys == entry_keys(entries@),
                keys.to_set() == over.dom(),
                forall|j: int|
                    0 <= j < entries@.len() ==> value_model(*(#[trigger] entries@[j]).1)
                        == over[entries@[j].0@],
                object_model(self.inner).dom().finite(),
                object_model(self.inner) == base.union_prefer_right(
                    over.restrict(keys.take(i as int).to_set()),
                ),
            decreases entries.len() - i,
        {
            let key = entries[i].0.clone();
            let value = value_clone(entries[i].1);
            proof {
                let seen = keys.take(i as int).to_set();
                let next = keys.take(i + 1).to_set();
                lemma_take_next(keys, i as int);
                assert(keys.to_set().contains(keys[i as int]));
                assert(key@ == keys[i as int]);
                assert(base.union_prefer_right(over.restrict(seen)).insert(key@, over[key@])
                    =~= base.union_prefer_right(over.restrict(next)));
            }
            object_insert(&mut self.inner, key, value);
            i += 1;
        }
        proof {
            assert(keys.take(entries@.len() as int) =~= keys);
            assert(over.restrict(over.dom()) =~= over);
        }
    }

    /// A copy for display: the same keys, with the value of every sensitive key
    /// replaced by `[REDACTED]`.
    pub fn to_redacted_map(&self) -> (map: JsonObject)
        ensures
            object_model(map) == redacted(self@),
    {
        let ghost own = object_model(self.inner);
        let entries = object_entries(&self.inner);
        let ghost keys = entry_keys(entries@);
        let mut map = object_new();
        let mut i: usize = 0;
        assert(redacted(own).restrict(keys.take(0).to_set()) =~= Entries::empty());
        while i < entries.len()
            invariant
                i <= entries.len(),
                keys == entry_keys(entries@),
                keys.to_set() == own.dom(),
                forall|j: int|
                    0 <= j < entries@.len() ==> value_model(*(#[trigger] entries@[j]).1)
                        == own[entries@[j].0@],
                object_model(map) == redacted(own).restrict(keys.take(i as int).to_set()),
            decreases entries.len() - i,
        {
            let key = entries[i].0.clone();
            let value = if is_sensitive_key(key.as_str()) {
                value_from_text(String::from_str("[REDACTED]"))
            } else {
                value_clone(entries[i].1)
            };
            proof {
                let seen = keys.take(i as int).to_set();
                let next = keys.take(i + 1).to_set();
                lemma_take_next(keys, i as int);
                assert(keys.to_set().contains(keys[i as int]));
                assert(key@ == keys[i as int]);
                assert(redacted(own).restrict(seen).insert(key@, value_model(value)) =~= redacted(
                    own,
                ).restrict(next));
            }
            object_insert(&mut map, key, value);
            i += 1;
        }
        proof {
            assert(keys.take(entries@.len() as int) =~= keys);
            assert(redacted(own).restrict(own.dom()) =~= redacted(own));
        }
        map
    }

    /// Checks the parameters against the profile for test runs. Fails with
    /// every violation, and succeeds exactly when there is none.
    pub fn validate_test_params(&self) -> (r: Result<(), Error>)
        ensures
            r is Ok <==> conforms(Profile::TestParams, self@),
            r matches Err(e) ==> e matches Error::ValidationFailed(list) && list@.len() > 0
                && texts(list@) == violations(Profile::TestParams, self@, self.key_order()),
            self.key_order().to_set() == self@.dom(),
    {
        validate_against_def(&self.inner, Profile::TestParams)
    }

    /// Checks the parameters against the profile for debugging sessions. Fails
    /// with every violation, and succeeds exactly when there is none.
    pub fn validate_debugging_params(&self) -> (r: Result<(), Error>)
        ensures
            r is Ok <==> conforms(Profile::DebuggingParams, self@),
            r matches Err(e) ==> e matches Error::ValidationFailed(list) && list@.len() > 0
                && texts(list@) == violations(Profile::DebuggingParams, self@, self.key_order()),
            self.key_order().to_set() == self@.dom(),
    {
        validate_against_def(&self.inner, Profile::DebuggingParams)
    }
}

} // verus!
