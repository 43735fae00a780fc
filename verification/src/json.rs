//! A JSON value as the library reads it: the shape of the answer an LLM
//! gives, with numbers kept in the text form the JSON library prints them in.

use vstd::prelude::*;

verus! {

/// A JSON value. Objects keep their members in order; a number is held as
/// its decimal text.
#[derive(Debug)]
pub enum JsonValue {
    Null,
    Bool(bool),
    Number(String),
    Str(String),
    Array(Vec<JsonValue>),
    Object(Vec<(String, JsonValue)>),
}

/// The value of the first member named `key`.
pub open spec fn lookup(entries: Seq<(String, JsonValue)>, key: Seq<char>) -> Option<JsonValue>
    decreases entries.len(),
{
    if entries.len() == 0 {
        None
    } else if entries[0].0@ == key {
        Some(entries[0].1)
    } else {
        lookup(entries.drop_first(), key)
    }
}

/// A member of an object by name; nothing for a value that is no object.
pub open spec fn member(v: JsonValue, key: Seq<char>) -> Option<JsonValue> {
    match v {
        JsonValue::Object(entries) => lookup(entries@, key),
        _ => None,
    }
}

/// The characters of a string value.
pub open spec fn string_value(v: Option<JsonValue>) -> Option<Seq<char>> {
    match v {
        Some(JsonValue::Str(s)) => Some(s@),
        _ => None,
    }
}

/// The characters of an optional string.
pub open spec fn opt_chars(o: Option<String>) -> Option<Seq<char>> {
    match o {
        Some(s) => Some(s@),
        None => None,
    }
}

/// Looking a key up from entry `i` on: entry `i` when it has the key, else
/// the lookup from entry `i + 1` on.
pub proof fn lemma_lookup_split(entries: Seq<(String, JsonValue)>, i: int, key: Seq<char>)
    requires
        0 <= i < entries.len(),
    ensures
        lookup(entries.subrange(i, entries.len() as int), key) == if entries[i].0@ == key {
            Some(entries[i].1)
        } else {
            lookup(entries.subrange(i + 1, entries.len() as int), key)
        },
{
    let s = entries.subrange(i, entries.len() as int);
    assert(s.drop_first() =~= entries.subrange(i + 1, entries.len() as int));
}

/// Whether two strings have the same characters.
pub fn same_text(a: &str, b: &str) -> (r: bool)
    ensures
        r == (a@ == b@),
{
    let x = crate::text::chars_of(a);
    let y = crate::text::chars_of(b);
    if x.len() != y.len() {
        return false;
    }
    let mut i: usize = 0;
    while i < x.len()
        invariant
            x@ == a@,
            y@ == b@,
            x@.len() == y@.len(),
            i <= x@.len(),
            forall|j: int| 0 <= j < i ==> x@[j] == y@[j],
        decreases x@.len() - i,
    {
        if x[i] != y[i] {
            assert(x@[i as int] != y@[i as int]);
            return false;
        }
        i = i + 1;
    }
    assert(x@ =~= y@);
    true
}

impl JsonValue {
    /// A member of an object by name (`serde_json::Value::get`).
    pub fn get(&self, key: &str) -> (r: Option<&JsonValue>)
        ensures
            r matches Some(x) ==> member(*self, key@) == Some(*x),
            r is None ==> member(*self, key@) is None,
    {
        match self {
            JsonValue::Object(entries) => {
                let mut i: usize = 0;
                assert(entries@.subrange(0, entries@.len() as int) =~= entries@);
                while i < entries.len()
                    invariant
                        i <= entries@.len(),
                        member(*self, key@) == lookup(entries@, key@),
                        lookup(entries@, key@) == lookup(
                            entries@.subrange(i as int, entries@.len() as int),
                            key@,
                        ),
                    decreases entries@.len() - i,
                {
                    proof {
                        lemma_lookup_split(entries@, i as int, key@);
                    }
                    if same_text(entries[i].0.as_str(), key) {
                        return Some(&entries[i].1);
                    }
                    i = i + 1;
                }
                None
            },
            _ => None,
        }
    }

    /// The text of a string value (`serde_json::Value::as_str`).
    pub fn as_str(&self) -> (r: Option<&String>)
        ensures
            opt_chars_ref(r) == string_value(Some(*self)),
    {
        match self {
            JsonValue::Str(s) => Some(s),
            _ => None,
        }
    }
}

/// The characters of an optional borrowed string.
pub open spec fn opt_chars_ref(o: Option<&String>) -> Option<Seq<char>> {
    match o {
        Some(s) => Some(s@),
        None => None,
    }
}

} // verus!
