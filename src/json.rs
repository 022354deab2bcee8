use vstd::prelude::*;

verus! {

/// A JSON document as the service reads it. A number is kept as the text
/// that a JSON writer gives for it, so that nothing is lost or rounded.
pub enum JsonValue {
    Null,
    Bool(bool),
    Number(String),
    Str(String),
    Array(Vec<JsonValue>),
    Object(Vec<(String, JsonValue)>),
}

/// The value of the last member named `key`: where a name is repeated, the
/// later member overrides the earlier, as in a JSON reader that fills a map.
pub open spec fn lookup(members: Seq<(String, JsonValue)>, key: Seq<char>) -> Option<JsonValue>
    decreases members.len(),
{
    if members.len() == 0 {
        None
    } else if members.last().0@ == key {
        Some(members.last().1)
    } else {
        lookup(members.drop_last(), key)
    }
}

/// The member `key` of `v`, where `v` is an object that has one.
pub open spec fn get(v: Option<JsonValue>, key: Seq<char>) -> Option<JsonValue> {
    match v {
        Some(JsonValue::Object(members)) => lookup(members@, key),
        _ => None,
    }
}

/// The text of `v`, where `v` is a string.
pub open spec fn str_of(v: Option<JsonValue>) -> Option<Seq<char>> {
    match v {
        Some(JsonValue::Str(s)) => Some(s@),
        _ => None,
    }
}

/// The text of `v`, where `v` is a number.
pub open spec fn number_of(v: Option<JsonValue>) -> Option<Seq<char>> {
    match v {
        Some(JsonValue::Number(t)) => Some(t@),
        _ => None,
    }
}

/// The elements of `v`, where `v` is an array.
pub open spec fn array_of(v: Option<JsonValue>) -> Option<Seq<JsonValue>> {
    match v {
        Some(JsonValue::Array(items)) => Some(items@),
        _ => None,
    }
}

/// Whether two texts are equal, character by character.
pub fn same_text(a: &str, b: &str) -> (r: bool)
    ensures
        r == (a@ == b@),
{
    let n = a.unicode_len();
    if n != b.unicode_len() {
        return false;
    }
    let mut i: usize = 0;
    while i < n
        invariant
            n == a@.len(),
            n == b@.len(),
            i <= n,
            forall|j: int| 0 <= j < i ==> a@[j] == b@[j],
        decreases n - i,
    {
        if a.get_char(i) != b.get_char(i) {
            return false;
        }
        i += 1;
    }
    assert(a@ =~= b@);
    true
}

/// The member `key` of `v`, where `v` is an object that has one.
pub fn field<'a>(v: &'a JsonValue, key: &str) -> (r: Option<&'a JsonValue>)
    ensures
        r.is_some() == get(Some(*v), key@).is_some(),
        r.is_some() ==> Some(*r.unwrap()) == get(Some(*v), key@),
{
    match v {
        JsonValue::Object(members) => {
            let mut i: usize = members.len();
            assert(members@.subrange(0, members@.len() as int) =~= members@);
            while i > 0
                invariant
                    i <= members@.len(),
                    get(Some(*v), key@) == lookup(members@, key@),
                    lookup(members@, key@) == lookup(members@.subrange(0, i as int), key@),
                decreases i,
            {
                proof {
                    let head = members@.subrange(0, i as int);
                    assert(head.drop_last() =~= members@.subrange(0, i - 1));
                    assert(head.last() == members@[i - 1]);
                }
                if same_text(members[i - 1].0.as_str(), key) {
                    return Some(&members[i - 1].1);
                }
                i -= 1;
            }
            None
        },
        _ => None,
    }
}

/// The member `key` of `v`, where `v` is present and an object that has one.
pub fn field_of<'a>(v: Option<&'a JsonValue>, key: &str) -> (r: Option<&'a JsonValue>)
    ensures
        r.is_some() == get(option_value(v), key@).is_some(),
        r.is_some() ==> Some(*r.unwrap()) == get(option_value(v), key@),
{
    match v {
        Some(x) => field(x, key),
        None => None,
    }
}

/// What a borrowed optional value holds.
pub open spec fn option_value(v: Option<&JsonValue>) -> Option<JsonValue> {
    match v {
        Some(x) => Some(*x),
        None => None,
    }
}

} // verus!
