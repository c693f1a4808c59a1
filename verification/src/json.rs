//! JSON values.

use vstd::prelude::*;

use crate::text::str_eq;

verus! {

/// A number as it is written.
pub struct JsonNumber {
    pub text: String,
    pub is_integer: bool,
}

/// A JSON value. The keys of an object come in the order in which they are
/// walked.
pub enum Json {
    Null,
    Bool(bool),
    Number(JsonNumber),
    Text(String),
    Array(Vec<Json>),
    Object(Vec<JsonField>),
}

/// One entry of an object.
pub struct JsonField {
    pub key: String,
    pub value: Json,
}

/// The position of the first entry with the key, from `from` on.
pub open spec fn key_position(fields: Seq<JsonField>, key: Seq<char>, from: int) -> Option<int>
    decreases fields.len() - from,
{
    if from < 0 || from >= fields.len() {
        None
    } else if fields[from].key@ == key {
        Some(from)
    } else {
        key_position(fields, key, from + 1)
    }
}

/// The value of a key of an object.
pub open spec fn field_of(value: Json, key: Seq<char>) -> Option<Json> {
    match value {
        Json::Object(fields) => match key_position(fields@, key, 0) {
            Some(i) => Some(fields@[i].value),
            None => None,
        },
        _ => None,
    }
}

/// The text that a value is.
pub open spec fn text_of(value: Option<Json>) -> Option<Seq<char>> {
    match value {
        Some(Json::Text(s)) => Some(s@),
        _ => None,
    }
}

/// The items that a value is a list of; none where it is no list.
pub open spec fn items_of(value: Option<Json>) -> Seq<Json> {
    match value {
        Some(Json::Array(items)) => items@,
        _ => Seq::empty(),
    }
}

/// An item of a list is smaller than the list.
pub proof fn lemma_item_smaller(value: Json, i: int)
    requires
        value is Array,
        0 <= i < value->Array_0@.len(),
    ensures
        decreases_to!(value => value->Array_0@[i]),
{
    assert(decreases_to!(value => value->Array_0));
    assert(decreases_to!(value->Array_0 => value->Array_0@));
    assert(decreases_to!(value->Array_0@ => value->Array_0@[i]));
}

impl Json {
    /// The value of a key, where this is an object that has it.
    pub fn get(&self, key: &str) -> (r: Option<&Json>)
        ensures
            (match r {
                Some(v) => Some(*v),
                None => None,
            }) == field_of(*self, key@),
    {
        match self {
            Json::Object(fields) => {
                let mut i: usize = 0;
                while i < fields.len()
                    invariant
                        i <= fields@.len(),
                        *self == Json::Object(*fields),
                        key_position(fields@, key@, 0) == key_position(fields@, key@, i as int),
                    decreases fields@.len() - i,
                {
                    if str_eq(fields[i].key.as_str(), key) {
                        return Some(&fields[i].value);
                    }
                    i += 1;
                }
                None
            },
            _ => None,
        }
    }
}

/// The entries of an object; none where the value is no object.
pub open spec fn fields_of(value: Json) -> Seq<JsonField> {
    match value {
        Json::Object(fields) => fields@,
        _ => Seq::empty(),
    }
}

/// The entries with the value set for the key: in the place of the value that
/// the key had, or at the end.
pub open spec fn is_field_set(
    before: Seq<JsonField>,
    after: Seq<JsonField>,
    key: Seq<char>,
    value: Json,
) -> bool {
    match key_position(before, key, 0) {
        Some(i) => {
            &&& after.len() == before.len()
            &&& after[i].key@ == key
            &&& after[i].value == value
            &&& forall|j: int| 0 <= j < before.len() && j != i ==> #[trigger] after[j] == before[j]
        },
        None => {
            &&& after.len() == before.len() + 1
            &&& after.drop_last() == before
            &&& after.last().key@ == key
            &&& after.last().value == value
        },
    }
}

/// The first entry with a key has it, and no entry before it does.
pub proof fn lemma_key_position(fields: Seq<JsonField>, key: Seq<char>, from: int)
    requires
        0 <= from <= fields.len(),
    ensures
        match key_position(fields, key, from) {
            Some(i) => from <= i < fields.len() && fields[i].key@ == key && forall|j: int|
                from <= j < i ==> (#[trigger] fields[j]).key@ != key,
            None => forall|j: int|
                from <= j < fields.len() ==> (#[trigger] fields[j]).key@ != key,
        },
    decreases fields.len() - from,
{
    if from < fields.len() && fields[from].key@ != key {
        lemma_key_position(fields, key, from + 1);
    }
}

/// The first entry that has a key, and before which none does, is where the key is.
proof fn lemma_first_key(fields: Seq<JsonField>, key: Seq<char>, from: int, at: int)
    requires
        0 <= from <= at < fields.len(),
        fields[at].key@ == key,
        forall|j: int| from <= j < at ==> (#[trigger] fields[j]).key@ != key,
    ensures
        key_position(fields, key, from) == Some(at),
    decreases at - from,
{
    if from < at {
        assert(fields[from].key@ != key);
        lemma_first_key(fields, key, from + 1, at);
    }
}

/// No entry has a key that none has.
proof fn lemma_no_key(fields: Seq<JsonField>, key: Seq<char>, from: int)
    requires
        0 <= from <= fields.len(),
        forall|j: int| from <= j < fields.len() ==> (#[trigger] fields[j]).key@ != key,
    ensures
        key_position(fields, key, from) is None,
    decreases fields.len() - from,
{
    if from < fields.len() {
        assert(fields[from].key@ != key);
        lemma_no_key(fields, key, from + 1);
    }
}

/// A key has the value that was set for it, and every other key has the value
/// that it had.
pub proof fn law_field_set(before: Json, after: Json, key: Seq<char>, value: Json, other: Seq<char>)
    requires
        after is Object,
        is_field_set(fields_of(before), fields_of(after), key, value),
    ensures
        field_of(after, key) == Some(value),
        other != key ==> field_of(after, other) == field_of(before, other),
{
    let old_fields = fields_of(before);
    let new_fields = fields_of(after);
    lemma_key_position(old_fields, key, 0);
    lemma_key_position(old_fields, other, 0);
    let at = match key_position(old_fields, key, 0) {
        Some(i) => i,
        None => old_fields.len() as int,
    };
    assert forall|j: int| 0 <= j < old_fields.len() && j != at implies new_fields[j]
        == old_fields[j] by {
        if key_position(old_fields, key, 0) is None {
            assert(new_fields.drop_last()[j] == old_fields[j]);
        }
    }
    assert forall|j: int| 0 <= j < at implies (#[trigger] new_fields[j]).key@ != key by {
        assert(new_fields[j] == old_fields[j]);
    }
    lemma_first_key(new_fields, key, 0, at);
    if other != key {
        match key_position(old_fields, other, 0) {
            Some(i) => {
                assert(i != at);
                assert(new_fields[i] == old_fields[i]);
                assert forall|j: int| 0 <= j < i implies (#[trigger] new_fields[j]).key@ != other by {
                    if j != at {
                        assert(new_fields[j] == old_fields[j]);
                    }
                }
                lemma_first_key(new_fields, other, 0, i);
            },
            None => {
                assert forall|j: int| 0 <= j < new_fields.len() implies (
                #[trigger] new_fields[j]).key@ != other by {
                    if j != at {
                        assert(new_fields[j] == old_fields[j]);
                    }
                }
                lemma_no_key(new_fields, other, 0);
            },
        }
    }
}

/// Makes an object of a value that is none.
pub fn ensure_object(value: &mut Json)
    ensures
        *final(value) is Object,
        fields_of(*final(value)) == fields_of(*old(value)),
        *old(value) is Object ==> *final(value) == *old(value),
{
    let is_object = match &*value {
        Json::Object(_) => true,
        _ => false,
    };
    if !is_object {
        *value = Json::Object(Vec::new());
        assert(fields_of(*value) =~= Seq::<JsonField>::empty());
    }
}

/// Sets the value of a key, in what is made an object where it is none.
pub fn insert_object_field(target: &mut Json, key: &str, value: Json)
    ensures
        *final(target) is Object,
        is_field_set(fields_of(*old(target)), fields_of(*final(target)), key@, value),
        field_of(*final(target), key@) == Some(value),
        forall|other: Seq<char>|
            other != key@ ==> #[trigger] field_of(*final(target), other) == field_of(
                *old(target),
                other,
            ),
{
    let ghost given = *target;
    let ghost kept = value;
    ensure_object(target);
    let ghost before = fields_of(*target);
    if let Json::Object(fields) = target {
        let mut at: usize = 0;
        while at < fields.len() && !str_eq(fields[at].key.as_str(), key)
            invariant
                at <= fields@.len(),
                fields@ == before,
                key_position(before, key@, 0) == key_position(before, key@, at as int),
            decreases fields@.len() - at,
        {
            at += 1;
        }
        let field = JsonField { key: key.to_owned(), value };
        if at < fields.len() {
            fields.set(at, field);
        } else {
            fields.push(field);
            assert(fields@.drop_last() =~= before);
        }
        assert(is_field_set(before, fields@, key@, kept));
    }
    proof {
        law_field_set(given, *target, key@, kept, key@);
        assert forall|other: Seq<char>| other != key@ implies #[trigger] field_of(*target, other)
            == field_of(given, other) by {
            law_field_set(given, *target, key@, kept, other);
        }
    }
}

/// The text that a value is.
pub fn as_text(value: Option<&Json>) -> (r: Option<&str>)
    ensures
        (match r {
            Some(s) => Some(s@),
            None => None,
        }) == text_of(
            match value {
                Some(v) => Some(*v),
                None => None,
            },
        ),
{
    match value {
        Some(Json::Text(s)) => Some(s.as_str()),
        _ => None,
    }
}

} // verus!
