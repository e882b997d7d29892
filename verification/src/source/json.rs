//! JSON documents as far as the listing of repositories reads them.

use vstd::prelude::*;

use crate::text::same_text;

verus! {

/// A JSON value. A number is kept as an unsigned 64-bit integer when it is one.
#[derive(Debug)]
pub enum JsonValue {
    Null,
    Bool(bool),
    Number(Option<u64>),
    Text(String),
    Array(Vec<JsonValue>),
    Object(Vec<JsonEntry>),
}

/// One member of a JSON object. The members of an object stand in the order in
/// which they are walked.
#[derive(Debug)]
pub struct JsonEntry {
    pub key: String,
    pub value: JsonValue,
}

/// The value under a key: that of the first member with this key.
pub open spec fn lookup(entries: Seq<JsonEntry>, key: Seq<char>) -> Option<JsonValue>
    decreases entries.len(),
{
    if entries.len() == 0 {
        None
    } else if entries[0].key@ == key {
        Some(entries[0].value)
    } else {
        lookup(entries.drop_first(), key)
    }
}

/// The text under a key, if a text is there.
pub open spec fn text_at(entries: Seq<JsonEntry>, key: Seq<char>) -> Option<Seq<char>> {
    match lookup(entries, key) {
        Some(JsonValue::Text(text)) => Some(text@),
        _ => None,
    }
}

/// The number under a key, if an unsigned 64-bit integer is there.
pub open spec fn number_at(entries: Seq<JsonEntry>, key: Seq<char>) -> Option<u64> {
    match lookup(entries, key) {
        Some(JsonValue::Number(number)) => number,
        _ => None,
    }
}

/// The texts of a list of string slices.
pub open spec fn names(list: Seq<&str>) -> Seq<Seq<char>> {
    Seq::new(list.len(), |i: int| list[i]@)
}

/// The text under the first of several keys that has one.
pub open spec fn first_text_at(entries: Seq<JsonEntry>, keys: Seq<Seq<char>>) -> Option<Seq<char>>
    decreases keys.len(),
{
    if keys.len() == 0 {
        None
    } else if text_at(entries, keys[0]) is Some {
        text_at(entries, keys[0])
    } else {
        first_text_at(entries, keys.drop_first())
    }
}

/// The number under the first of several keys that has one.
pub open spec fn first_number_at(entries: Seq<JsonEntry>, keys: Seq<Seq<char>>) -> Option<u64>
    decreases keys.len(),
{
    if keys.len() == 0 {
        None
    } else if number_at(entries, keys[0]) is Some {
        number_at(entries, keys[0])
    } else {
        first_number_at(entries, keys.drop_first())
    }
}

/// The value under a key.
pub fn find_value<'a>(entries: &'a Vec<JsonEntry>, key: &str) -> (r: Option<&'a JsonValue>)
    ensures
        match r {
            Some(value) => lookup(entries@, key@) == Some(*value),
            None => lookup(entries@, key@) is None,
        },
{
    let mut i: usize = 0;
    assert(entries@.skip(0) == entries@);
    while i < entries.len()
        invariant
            i <= entries.len(),
            lookup(entries@.skip(i as int), key@) == lookup(entries@, key@),
        decreases entries.len() - i,
    {
        let ghost rest = entries@.skip(i as int);
        assert(rest[0] == entries@[i as int]);
        assert(rest.drop_first() == entries@.skip(i + 1));
        if same_text(entries[i].key.as_str(), key) {
            return Some(&entries[i].value);
        }
        i += 1;
    }
    None
}

/// The text under a key, if a text is there.
pub fn find_text(entries: &Vec<JsonEntry>, key: &str) -> (r: Option<String>)
    ensures
        crate::text::text_of(r) == text_at(entries@, key@),
{
    match find_value(entries, key) {
        Some(JsonValue::Text(text)) => Some(text.clone()),
        _ => None,
    }
}

/// The text under the first of several keys that has one.
pub fn find_first_text(entries: &Vec<JsonEntry>, keys: &Vec<&str>) -> (r: Option<String>)
    ensures
        crate::text::text_of(r) == first_text_at(entries@, names(keys@)),
{
    let mut i: usize = 0;
    let ghost all = names(keys@);
    assert(all.skip(0) == all);
    while i < keys.len()
        invariant
            i <= keys.len(),
            all == names(keys@),
            first_text_at(entries@, all.skip(i as int)) == first_text_at(entries@, all),
        decreases keys.len() - i,
    {
        assert(all.skip(i as int)[0] == keys@[i as int]@);
        assert(all.skip(i as int).drop_first() == all.skip(i + 1));
        let found = find_text(entries, keys[i]);
        if found.is_some() {
            return found;
        }
        i += 1;
    }
    None
}

/// The number under the first of several keys that has one.
pub fn find_first_number(entries: &Vec<JsonEntry>, keys: &Vec<&str>) -> (r: Option<u64>)
    ensures
        r == first_number_at(entries@, names(keys@)),
{
    let mut i: usize = 0;
    let ghost all = names(keys@);
    assert(all.skip(0) == all);
    while i < keys.len()
        invariant
            i <= keys.len(),
            all == names(keys@),
            first_number_at(entries@, all.skip(i as int)) == first_number_at(entries@, all),
        decreases keys.len() - i,
    {
        assert(all.skip(i as int)[0] == keys@[i as int]@);
        assert(all.skip(i as int).drop_first() == all.skip(i + 1));
        if let Some(JsonValue::Number(Some(number))) = find_value(entries, keys[i]) {
            return Some(*number);
        }
        i += 1;
    }
    None
}

/// A key is looked up by its first member: that one's value is found, and nothing only where no
/// member has the key.
pub proof fn first_member_is_found(entries: Seq<JsonEntry>, key: Seq<char>, i: int)
    requires
        0 <= i < entries.len(),
        entries[i].key@ == key,
        forall|j: int| 0 <= j < i ==> (#[trigger] entries[j]).key@ != key,
    ensures
        lookup(entries, key) == Some(entries[i].value),
    decreases entries.len(),
{
    if i > 0 {
        assert(entries[0].key@ != key);
        let rest = entries.drop_first();
        assert forall|j: int| 0 <= j < i - 1 implies (#[trigger] rest[j]).key@ != key by {
            assert(rest[j] == entries[j + 1]);
        }
        first_member_is_found(rest, key, i - 1);
    }
}

/// What is found under a key is the value of a member with that key.
pub proof fn found_values_are_members(entries: Seq<JsonEntry>, key: Seq<char>)
    ensures
        lookup(entries, key) is Some <==> exists|i: int|
            0 <= i < entries.len() && (#[trigger] entries[i]).key@ == key,
        lookup(entries, key) matches Some(value) ==> exists|i: int|
            0 <= i < entries.len() && (#[trigger] entries[i]).key@ == key && entries[i].value
                == value,
    decreases entries.len(),
{
    if entries.len() > 0 {
        let rest = entries.drop_first();
        found_values_are_members(rest, key);
        if entries[0].key@ != key {
            if let Some(value) = lookup(rest, key) {
                let i = choose|i: int|
                    0 <= i < rest.len() && (#[trigger] rest[i]).key@ == key && rest[i].value
                        == value;
                assert(entries[i + 1].key@ == key && entries[i + 1].value == value);
            }
            if exists|i: int| 0 <= i < entries.len() && (#[trigger] entries[i]).key@ == key {
                let i = choose|i: int|
                    0 <= i < entries.len() && (#[trigger] entries[i]).key@ == key;
                assert(rest[i - 1].key@ == key);
            }
        }
    }
}

/// The text under a key is that of a text value, and the number that of a number; what is of
/// another kind counts as missing.
pub proof fn values_are_read_by_kind(entries: Seq<JsonEntry>, key: Seq<char>)
    ensures
        text_at(entries, key) is Some <==> lookup(entries, key) matches Some(JsonValue::Text(_)),
        lookup(entries, key) matches Some(JsonValue::Text(text)) ==> text_at(entries, key) == Some(
            text@,
        ),
        number_at(entries, key) is Some <==> lookup(entries, key) matches Some(
            JsonValue::Number(Some(_)),
        ),
        lookup(entries, key) matches Some(JsonValue::Number(number)) ==> number_at(entries, key)
            == number,
{
}

/// Of several keys the first that has a text counts, and likewise for numbers.
pub proof fn first_key_counts(entries: Seq<JsonEntry>, keys: Seq<Seq<char>>, i: int)
    requires
        0 <= i < keys.len(),
    ensures
        text_at(entries, keys[i]) is Some && (forall|j: int|
            0 <= j < i ==> text_at(entries, #[trigger] keys[j]) is None) ==> first_text_at(
            entries,
            keys,
        ) == text_at(entries, keys[i]),
        number_at(entries, keys[i]) is Some && (forall|j: int|
            0 <= j < i ==> number_at(entries, #[trigger] keys[j]) is None) ==> first_number_at(
            entries,
            keys,
        ) == number_at(entries, keys[i]),
    decreases keys.len(),
{
    if i > 0 {
        let rest = keys.drop_first();
        first_key_counts(entries, rest, i - 1);
        assert(rest[i - 1] == keys[i]);
        if forall|j: int| 0 <= j < i ==> text_at(entries, #[trigger] keys[j]) is None {
            assert(text_at(entries, keys[0]) is None);
            assert forall|j: int| 0 <= j < i - 1 implies text_at(
                entries,
                #[trigger] rest[j],
            ) is None by {
                assert(rest[j] == keys[j + 1]);
            }
        }
        if forall|j: int| 0 <= j < i ==> number_at(entries, #[trigger] keys[j]) is None {
            assert(number_at(entries, keys[0]) is None);
            assert forall|j: int| 0 <= j < i - 1 implies number_at(
                entries,
                #[trigger] rest[j],
            ) is None by {
                assert(rest[j] == keys[j + 1]);
            }
        }
    }
}

/// Where no key has a text nothing is found, and likewise for numbers.
pub proof fn missing_keys_give_nothing(entries: Seq<JsonEntry>, keys: Seq<Seq<char>>)
    ensures
        (forall|j: int| 0 <= j < keys.len() ==> text_at(entries, #[trigger] keys[j]) is None)
            ==> first_text_at(entries, keys) is None,
        (forall|j: int| 0 <= j < keys.len() ==> number_at(entries, #[trigger] keys[j]) is None)
            ==> first_number_at(entries, keys) is None,
    decreases keys.len(),
{
    if keys.len() > 0 {
        let rest = keys.drop_first();
        missing_keys_give_nothing(entries, rest);
        assert(forall|j: int| 0 <= j < rest.len() ==> #[trigger] rest[j] == keys[j + 1]);
        if forall|j: int| 0 <= j < keys.len() ==> text_at(entries, #[trigger] keys[j]) is None {
            assert(text_at(entries, keys[0]) is None);
        }
        if forall|j: int| 0 <= j < keys.len() ==> number_at(entries, #[trigger] keys[j]) is None {
            assert(number_at(entries, keys[0]) is None);
        }
    }
}

} // verus!
