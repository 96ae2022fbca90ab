//! The shape of a palette document: a tree of JSON values, held as plain
//! data.

use vstd::prelude::*;
use crate::text::same_text;

verus! {

/// A JSON number, as far as a colour channel is concerned.
#[derive(Debug, PartialEq, Eq)]
pub enum JsonNumber {
    /// A whole number that is not negative.
    Unsigned(u64),
    /// Any other number: negative, or written with a fraction or an
    /// exponent. It is kept as it was written.
    Other(String),
}

/// A JSON value. An object keeps its entries in the order of the document.
#[derive(Debug, PartialEq, Eq)]
pub enum JsonValue {
    Null,
    Bool(bool),
    Number(JsonNumber),
    String(String),
    Array(Vec<JsonValue>),
    Object(Vec<Entry>),
}

/// An entry of an object: a key and its value.
pub type Entry = (String, JsonValue);

/// Whether two numbers are written alike.
pub open spec fn same_number(a: JsonNumber, b: JsonNumber) -> bool {
    match (a, b) {
        (JsonNumber::Unsigned(x), JsonNumber::Unsigned(y)) => x == y,
        (JsonNumber::Other(x), JsonNumber::Other(y)) => x@ == y@,
        _ => false,
    }
}

/// Whether two values are the same tree: of the same shape, with the same
/// text in every string and key and the same entries in the same order.
pub open spec fn same_json(a: JsonValue, b: JsonValue) -> bool
    decreases a,
{
    match (a, b) {
        (JsonValue::Null, JsonValue::Null) => true,
        (JsonValue::Bool(x), JsonValue::Bool(y)) => x == y,
        (JsonValue::Number(x), JsonValue::Number(y)) => same_number(x, y),
        (JsonValue::String(x), JsonValue::String(y)) => x@ == y@,
        (JsonValue::Array(x), JsonValue::Array(y)) => x.len() == y.len() && forall|i: int|
            0 <= i < x.len() ==> same_json(#[trigger] x[i], y[i]),
        (JsonValue::Object(x), JsonValue::Object(y)) => same_entries(x@, y@),
        _ => false,
    }
}

/// Whether two lists of entries hold the same keys and values in the same
/// order.
pub open spec fn same_entries(a: Seq<Entry>, b: Seq<Entry>) -> bool
    decreases a,
{
    a.len() == b.len() && forall|i: int|
        0 <= i < a.len() ==> (#[trigger] a[i]).0@ == b[i].0@ && same_json(a[i].1, b[i].1)
}

impl Clone for JsonNumber {
    fn clone(&self) -> (out: JsonNumber)
        ensures
            same_number(*self, out),
    {
        match self {
            JsonNumber::Unsigned(n) => JsonNumber::Unsigned(*n),
            JsonNumber::Other(text) => JsonNumber::Other(text.clone()),
        }
    }
}

/// A copy of the entries of an object.
#[verifier::loop_isolation(false)]
pub fn clone_entries(entries: &Vec<Entry>) -> (out: Vec<Entry>)
    ensures
        same_entries(entries@, out@),
    decreases *entries,
{
    let mut out: Vec<Entry> = Vec::with_capacity(entries.len());
    let mut i: usize = 0;
    while i < entries.len()
        invariant
            0 <= i <= entries.len(),
            out.len() == i,
            forall|j: int|
                0 <= j < i ==> (#[trigger] entries[j]).0@ == out[j].0@ && same_json(
                    entries[j].1,
                    out[j].1,
                ),
        decreases entries.len() - i,
    {
        proof {
            assert(decreases_to!(*entries => entries[i as int]));
            assert(decreases_to!(entries[i as int] => entries[i as int].1));
        }
        out.push((entries[i].0.clone(), entries[i].1.clone()));
        i += 1;
    }
    out
}

impl Clone for JsonValue {
    #[verifier::loop_isolation(false)]
    fn clone(&self) -> (out: JsonValue)
        ensures
            same_json(*self, out),
        decreases *self,
    {
        match self {
            JsonValue::Null => JsonValue::Null,
            JsonValue::Bool(b) => JsonValue::Bool(*b),
            JsonValue::Number(n) => JsonValue::Number(n.clone()),
            JsonValue::String(s) => JsonValue::String(s.clone()),
            JsonValue::Array(items) => {
                let mut out: Vec<JsonValue> = Vec::with_capacity(items.len());
                let mut i: usize = 0;
                while i < items.len()
                    invariant
                        0 <= i <= items.len(),
                        out.len() == i,
                        forall|j: int| 0 <= j < i ==> same_json(#[trigger] items[j], out[j]),
                    decreases items.len() - i,
                {
                    proof {
                        assert(decreases_to!(JsonValue::Array(*items) => *items));
                        assert(decreases_to!(*items => items[i as int]));
                    }
                    out.push(items[i].clone());
                    i += 1;
                }
                JsonValue::Array(out)
            },
            JsonValue::Object(entries) => {
                proof {
                    assert(decreases_to!(JsonValue::Object(*entries) => *entries));
                }
                JsonValue::Object(clone_entries(entries))
            },
        }
    }
}

/// Whether `i` is the position of the first entry with the given key.
pub open spec fn is_first_with_key(entries: Seq<Entry>, key: Seq<char>, i: int) -> bool {
    &&& 0 <= i < entries.len()
    &&& entries[i].0@ == key
    &&& forall|j: int| 0 <= j < i ==> (#[trigger] entries[j]).0@ != key
}

/// The position of the first entry with the given key, if there is one.
pub open spec fn position_of_key(entries: Seq<Entry>, key: Seq<char>) -> Option<int> {
    if exists|i: int| is_first_with_key(entries, key, i) {
        Some(choose|i: int| is_first_with_key(entries, key, i))
    } else {
        None
    }
}

/// The first entry with a key is found at one position only.
pub proof fn lemma_position_of_key_is(entries: Seq<Entry>, key: Seq<char>, i: int)
    requires
        is_first_with_key(entries, key, i),
    ensures
        position_of_key(entries, key) == Some(i),
{
    let c = choose|c: int| is_first_with_key(entries, key, c);
    if c < i {
        assert(entries[c].0@ != key);
    } else if i < c {
        assert(entries[i].0@ != key);
    }
}

/// The position of the first entry of an object with the given key.
pub fn find_key(entries: &Vec<Entry>, key: &str) -> (r: Option<usize>)
    ensures
        match r {
            Some(i) => position_of_key(entries@, key@) == Some(i as int),
            None => position_of_key(entries@, key@) is None,
        },
{
    let mut i: usize = 0;
    while i < entries.len()
        invariant
            0 <= i <= entries.len(),
            forall|j: int| 0 <= j < i ==> (#[trigger] entries@[j]).0@ != key@,
        decreases entries.len() - i,
    {
        if same_text(entries[i].0.as_str(), key) {
            proof {
                lemma_position_of_key_is(entries@, key@, i as int);
            }
            return Some(i);
        }
        i += 1;
    }
    proof {
        if exists|k: int| is_first_with_key(entries@, key@, k) {
            let k = choose|k: int| is_first_with_key(entries@, key@, k);
            assert(entries@[k].0@ != key@);
        }
    }
    None
}

} // verus!
