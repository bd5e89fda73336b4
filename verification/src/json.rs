use vstd::prelude::*;

verus! {

#[verifier::external_type_specification]
#[verifier::external_body]
pub struct ExSerdeJsonValue(serde_json::Value);

/// A JSON document, as far as the front end reads one.
#[derive(Debug)]
pub enum JsonValue {
    Null,
    Bool(bool),
    /// A number; holds its value where it is an integer that fits in `i64`.
    Number(Option<i64>),
    String(String),
    Array(Vec<JsonValue>),
    /// An object's members, in the order in which the parser hands them out.
    Object(Vec<(String, JsonValue)>),
}

/// The document that `serde_json` reads from `bytes`, or `None` where the bytes
/// are no valid JSON text.
pub uninterp spec fn parsed_json(bytes: Seq<u8>) -> Option<JsonValue>;

/// Calls `serde_json::from_slice::<serde_json::Value>` and converts the value it
/// returns into a [`JsonValue`]. The contract claims that the parse succeeds
/// exactly where `parsed_json(bytes)` is defined and that what it yields is that
/// value: a function of the bytes alone; and that no object in it has two
/// members of one name, as a `serde_json::Map` holds each key once. Which byte strings are valid JSON, and
/// what they hold, is not stated here: that is serde_json's grammar.
#[verifier::external_body]
pub(crate) fn parse_json(bytes: &[u8]) -> (res: Result<JsonValue, serde_json::Error>)
    ensures
        res is Ok <==> parsed_json(bytes@) is Some,
        res matches Ok(v) ==> parsed_json(bytes@) == Some(v),
        res matches Ok(v) ==> names_distinct(v),
{
    serde_json::from_slice::<serde_json::Value>(bytes).map(json_value_from_serde)
}

/// The conversion of `serde_json::Value` into [`JsonValue`] that `parse_json`
/// applies to the parser's result, one variant onto the other; of a number it
/// keeps what `serde_json::Number::as_i64` returns. Nothing is claimed of it on
/// its own: only `parse_json` calls it.
#[verifier::external_body]
fn json_value_from_serde(value: serde_json::Value) -> JsonValue {
    match value {
        serde_json::Value::Null => JsonValue::Null,
        serde_json::Value::Bool(b) => JsonValue::Bool(b),
        serde_json::Value::Number(n) => JsonValue::Number(n.as_i64()),
        serde_json::Value::String(s) => JsonValue::String(s),
        serde_json::Value::Array(items) => JsonValue::Array(
            items.into_iter().map(json_value_from_serde).collect(),
        ),
        serde_json::Value::Object(members) => JsonValue::Object(
            members.into_iter().map(|(k, v)| (k, json_value_from_serde(v))).collect(),
        ),
    }
}

/// Whether no two members of an object share a name.
pub open spec fn distinct_member_names(members: Seq<(String, JsonValue)>) -> bool {
    forall|i: int, j: int|
        0 <= i < members.len() && 0 <= j < members.len() && i != j ==> #[trigger] members[i].0@
            != #[trigger] members[j].0@
}

/// Whether no object anywhere in `v` has two members of one name.
pub open spec fn names_distinct(v: JsonValue) -> bool
    decreases v,
{
    match v {
        JsonValue::Object(entries) => distinct_member_names(entries@) && forall|i: int|
            0 <= i < entries@.len() ==> names_distinct(#[trigger] entries@[i].1),
        JsonValue::Array(items) => forall|i: int|
            0 <= i < items@.len() ==> names_distinct(#[trigger] items@[i]),
        _ => true,
    }
}

/// The value of the first member named `key`.
pub open spec fn member_in(entries: Seq<(String, JsonValue)>, key: Seq<char>) -> Option<JsonValue>
    decreases entries.len(),
{
    if entries.len() == 0 {
        None
    } else if entries[0].0@ == key {
        Some(entries[0].1)
    } else {
        member_in(entries.drop_first(), key)
    }
}

/// Where member names are distinct, a member is found by its name wherever it
/// stands among the members.
pub proof fn lemma_member_found_anywhere(entries: Seq<(String, JsonValue)>, i: int)
    requires
        distinct_member_names(entries),
        0 <= i < entries.len(),
    ensures
        member_in(entries, entries[i].0@) == Some(entries[i].1),
    decreases entries.len(),
{
    if i > 0 {
        assert(entries[0].0@ != entries[i].0@);
        let rest = entries.drop_first();
        assert(rest[i - 1] == entries[i]);
        assert forall|a: int, b: int|
            0 <= a < rest.len() && 0 <= b < rest.len() && a != b implies #[trigger] rest[a].0@
            != #[trigger] rest[b].0@ by {
            assert(rest[a] == entries[a + 1] && rest[b] == entries[b + 1]);
        }
        lemma_member_found_anywhere(rest, i - 1);
    }
}

/// A name that no member has is not found.
pub proof fn lemma_member_absent(entries: Seq<(String, JsonValue)>, key: Seq<char>)
    requires
        forall|i: int| 0 <= i < entries.len() ==> (#[trigger] entries[i]).0@ != key,
    ensures
        member_in(entries, key) is None,
    decreases entries.len(),
{
    if entries.len() > 0 {
        assert(entries[0].0@ != key);
        let rest = entries.drop_first();
        assert forall|i: int| 0 <= i < rest.len() implies (#[trigger] rest[i]).0@ != key by {
            assert(rest[i] == entries[i + 1]);
        }
        lemma_member_absent(rest, key);
    }
}

/// The members of an object (empty for any other value).
pub open spec fn members_of(v: JsonValue) -> Seq<(String, JsonValue)> {
    match v {
        JsonValue::Object(entries) => entries@,
        _ => Seq::empty(),
    }
}

/// `v[key]` of an object, `None` of anything else.
pub open spec fn spec_member(v: JsonValue, key: Seq<char>) -> Option<JsonValue> {
    match v {
        JsonValue::Object(entries) => member_in(entries@, key),
        _ => None,
    }
}

/// The members of an object.
pub open spec fn spec_object(v: JsonValue) -> Option<Seq<(String, JsonValue)>> {
    match v {
        JsonValue::Object(entries) => Some(entries@),
        _ => None,
    }
}

/// The text of a string.
pub open spec fn spec_str(v: JsonValue) -> Option<Seq<char>> {
    match v {
        JsonValue::String(s) => Some(s@),
        _ => None,
    }
}

/// The integer value of a number that fits in `i64`.
pub open spec fn spec_i64(v: JsonValue) -> Option<i64> {
    match v {
        JsonValue::Number(n) => n,
        _ => None,
    }
}

impl JsonValue {
    /// The member named `key` of an object; `None` for a missing member or a
    /// value that is no object.
    pub fn member(&self, key: &String) -> (res: Option<&JsonValue>)
        ensures
            match res {
                Some(r) => spec_member(*self, key@) == Some(*r),
                None => spec_member(*self, key@) is None,
            },
    {
        match self {
            JsonValue::Object(entries) => {
                let mut i: usize = 0;
                assert(entries@.skip(0) =~= entries@);
                while i < entries.len()
                    invariant
                        0 <= i <= entries.len(),
                        spec_member(*self, key@) == member_in(entries@, key@),
                        member_in(entries@, key@) == member_in(entries@.skip(i as int), key@),
                    decreases entries.len() - i,
                {
                    assert(entries@.skip(i as int).drop_first() =~= entries@.skip(i + 1));
                    assert(entries@.skip(i as int)[0] == entries@[i as int]);
                    if entries[i].0 == *key {
                        return Some(&entries[i].1);
                    }
                    i += 1;
                }
                None
            },
            _ => None,
        }
    }

    /// The members of an object.
    pub fn as_object(&self) -> (res: Option<&Vec<(String, JsonValue)>>)
        ensures
            match res {
                Some(r) => spec_object(*self) == Some(r@),
                None => spec_object(*self) is None,
            },
    {
        match self {
            JsonValue::Object(entries) => Some(entries),
            _ => None,
        }
    }

    /// The text of a string.
    pub fn as_str(&self) -> (res: Option<&String>)
        ensures
            match res {
                Some(r) => spec_str(*self) == Some(r@),
                None => spec_str(*self) is None,
            },
    {
        match self {
            JsonValue::String(s) => Some(s),
            _ => None,
        }
    }

    /// The value of an integer number that fits in `i64`.
    pub fn as_i64(&self) -> (res: Option<i64>)
        ensures
            res == spec_i64(*self),
    {
        match self {
            JsonValue::Number(n) => *n,
            _ => None,
        }
    }
}

} // verus!
