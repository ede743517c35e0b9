//! JSON documents as plain values, their decoding and encoding, and edits on
//! objects.

use crate::ids::same_text;
use serde_json::Value as SerdeValue;
use vstd::prelude::*;
use vstd::string::StringExecFns;

verus! {

/// A JSON number: its text as `serde_json` prints it, and the unsigned and
/// signed 64-bit readings it admits (none for a float).
#[derive(Debug)]
pub struct JsonNumber {
    pub text: String,
    pub as_u64: Option<u64>,
    pub as_i64: Option<i64>,
}

/// A JSON value. An object keeps its members in order; a lookup takes the
/// first member with the key. Decoded documents hold each key of an object
/// once (see [`unique_keys`]), and the edits here keep it so.
#[derive(Debug)]
pub enum JsonValue {
    Null,
    Bool(bool),
    Number(JsonNumber),
    Str(String),
    Array(Vec<JsonValue>),
    Object(Vec<(String, JsonValue)>),
}

/// A JSON value as plain values: numbers by their text and readings,
/// strings by their characters, objects as (key, value) lists in order.
pub enum JsonView {
    JNull,
    JBool(bool),
    JNum(Seq<char>, Option<u64>, Option<i64>),
    JStr(Seq<char>),
    JArr(Seq<JsonView>),
    JObj(Seq<(Seq<char>, JsonView)>),
}

/// The plain view of a document.
pub open spec fn json_view(v: JsonValue) -> JsonView
    decreases v,
{
    match v {
        JsonValue::Null => JsonView::JNull,
        JsonValue::Bool(b) => JsonView::JBool(b),
        JsonValue::Number(n) => JsonView::JNum(n.text@, n.as_u64, n.as_i64),
        JsonValue::Str(s) => JsonView::JStr(s@),
        JsonValue::Array(a) => JsonView::JArr(
            Seq::new(
                a@.len(),
                |i: int|
                    if 0 <= i < a@.len() {
                        json_view(a@[i])
                    } else {
                        JsonView::JNull
                    },
            ),
        ),
        JsonValue::Object(es) => JsonView::JObj(
            Seq::new(
                es@.len(),
                |i: int|
                    if 0 <= i < es@.len() {
                        (es@[i].0@, json_view(es@[i].1))
                    } else {
                        (Seq::empty(), JsonView::JNull)
                    },
            ),
        ),
    }
}

/// An object's members as plain values, in order.
pub open spec fn members_view(es: Seq<(String, JsonValue)>) -> Seq<(Seq<char>, JsonView)> {
    Seq::new(es.len(), |i: int| (es[i].0@, json_view(es[i].1)))
}

/// The view of an object is the view of its members.
pub proof fn lemma_object_view(es: Vec<(String, JsonValue)>)
    ensures
        json_view(JsonValue::Object(es)) == JsonView::JObj(members_view(es@)),
{
    assert(json_view(JsonValue::Object(es))->JObj_0 =~= members_view(es@));
}

/// The keys of a member list are pairwise different.
pub open spec fn keys_distinct(es: Seq<(Seq<char>, JsonView)>) -> bool {
    forall|i: int, j: int| 0 <= i < j < es.len() ==> #[trigger] es[i].0 != #[trigger] es[j].0
}

/// Every object in the document, at any depth, has each key at most once,
/// as in a `serde_json` map.
pub open spec fn unique_keys(v: JsonView) -> bool
    decreases v,
{
    match v {
        JsonView::JArr(a) => forall|i: int| 0 <= i < a.len() ==> unique_keys(#[trigger] a[i]),
        JsonView::JObj(es) => keys_distinct(es) && forall|i: int|
            0 <= i < es.len() ==> unique_keys(#[trigger] es[i].1),
        _ => true,
    }
}

/// The position of the first member at or after `from` with the key.
pub open spec fn member_index(es: Seq<(Seq<char>, JsonView)>, key: Seq<char>, from: int) -> Option<int>
    decreases es.len() - from,
{
    if from < 0 || from >= es.len() {
        None
    } else if es[from].0 == key {
        Some(from)
    } else {
        member_index(es, key, from + 1)
    }
}

/// A member list with the key set to `val`: the first member with the key
/// takes it, or a member is appended.
pub open spec fn set_member(es: Seq<(Seq<char>, JsonView)>, key: Seq<char>, val: JsonView) -> Seq<
    (Seq<char>, JsonView),
> {
    match member_index(es, key, 0) {
        Some(i) => es.update(i, (key, val)),
        None => es.push((key, val)),
    }
}

/// The member found is at or after `from` and has the key; none is found
/// exactly when no member from `from` on has it.
pub proof fn lemma_member_index(es: Seq<(Seq<char>, JsonView)>, key: Seq<char>, from: int)
    requires
        0 <= from,
    ensures
        member_index(es, key, from) matches Some(i) ==> from <= i < es.len() && es[i].0 == key,
        member_index(es, key, from) is None <==> forall|j: int| from <= j < es.len() ==> #[trigger] es[j].0 != key,
    decreases es.len() - from,
{
    if from < es.len() && es[from].0 != key {
        lemma_member_index(es, key, from + 1);
    }
}

/// Looking a key up in an object and in its view finds the same position.
pub proof fn lemma_key_index_view(es: Seq<(String, JsonValue)>, key: Seq<char>, from: int)
    requires
        0 <= from,
    ensures
        key_index(es, key, from) == member_index(members_view(es), key, from),
    decreases es.len() - from,
{
    if from < es.len() {
        lemma_key_index_view(es, key, from + 1);
    }
}

/// Setting a member keeps keys distinct, and keeps every object in the
/// document free of repeated keys when the new value is.
pub proof fn lemma_set_member_unique(es: Seq<(Seq<char>, JsonView)>, key: Seq<char>, val: JsonView)
    requires
        unique_keys(JsonView::JObj(es)),
        unique_keys(val),
    ensures
        unique_keys(JsonView::JObj(set_member(es, key, val))),
{
    lemma_member_index(es, key, 0);
    let r = set_member(es, key, val);
    assert(keys_distinct(r));
    assert forall|i: int| 0 <= i < r.len() implies #[trigger] unique_keys(r[i].1) by {
        if i < es.len() && r[i] != (key, val) {
            assert(r[i] == es[i]);
        } else {
            assert(r[i] == (key, val));
        }
    }
}

/// Giving one member another value that holds no repeated keys keeps every
/// object in the document free of repeated keys.
pub proof fn lemma_replace_value_unique(es: Seq<(Seq<char>, JsonView)>, i: int, val: JsonView)
    requires
        unique_keys(JsonView::JObj(es)),
        0 <= i < es.len(),
        unique_keys(val),
    ensures
        unique_keys(JsonView::JObj(es.update(i, (es[i].0, val)))),
{
    let r = es.update(i, (es[i].0, val));
    assert forall|a: int, b: int| 0 <= a < b < r.len() implies #[trigger] r[a].0 != #[trigger] r[b].0 by {
        assert(r[a].0 == es[a].0 && r[b].0 == es[b].0);
    }
    assert forall|j: int| 0 <= j < r.len() implies unique_keys(#[trigger] r[j].1) by {
        if j != i {
            assert(r[j] == es[j]);
        }
    }
}

/// `serde_json::Value`, the document `serde_json` parses and prints.
#[verifier::external_type_specification]
#[verifier::external_body]
pub struct ExSerdeJsonValue(SerdeValue);

/// What `serde_json::from_slice::<serde_json::Value>` decodes from a byte
/// string, as a [`JsonValue`] (an object's members in key order, each key
/// once); `None` when the bytes are not one JSON document.
pub uninterp spec fn json_decode(bytes: Seq<u8>) -> Option<JsonValue>;

/// The text `serde_json::to_string` gives for a document, by its plain
/// view.
pub uninterp spec fn json_encode(v: JsonView) -> Seq<char>;

/// Converts a parsed document, variant by variant; its caller states the
/// result.
#[verifier::external_body]
fn json_from(v: &SerdeValue) -> JsonValue {
    match v {
        SerdeValue::Null => JsonValue::Null,
        SerdeValue::Bool(b) => JsonValue::Bool(*b),
        SerdeValue::Number(n) => JsonValue::Number(JsonNumber { text: n.to_string(), as_u64: n.as_u64(), as_i64: n.as_i64() }),
        SerdeValue::String(s) => JsonValue::Str(s.clone()),
        SerdeValue::Array(a) => JsonValue::Array(a.iter().map(json_from).collect()),
        SerdeValue::Object(o) => JsonValue::Object(o.iter().map(|(k, x)| (k.clone(), json_from(x))).collect()),
    }
}

/// Converts a document back, variant by variant; a number is read back from
/// its text. Its caller states the result.
#[verifier::external_body]
fn json_to(v: &JsonValue) -> SerdeValue {
    match v {
        JsonValue::Null => SerdeValue::Null,
        JsonValue::Bool(b) => SerdeValue::Bool(*b),
        JsonValue::Number(n) => n.text.parse().map(SerdeValue::Number).unwrap_or(SerdeValue::Null),
        JsonValue::Str(s) => SerdeValue::String(s.clone()),
        JsonValue::Array(a) => SerdeValue::Array(a.iter().map(json_to).collect()),
        JsonValue::Object(o) => SerdeValue::Object(o.iter().map(|(k, x)| (k.clone(), json_to(x))).collect()),
    }
}

/// `serde_json::from_slice::<serde_json::Value>`: decodes one JSON document;
/// the result is named [`json_decode`]. Its objects are `serde_json` maps,
/// which hold each key once.
#[verifier::external_body]
pub(crate) fn json_parse(bytes: &[u8]) -> (r: Option<JsonValue>)
    ensures
        r == json_decode(bytes@),
        r matches Some(v) ==> unique_keys(json_view(v)),
{
    serde_json::from_slice::<SerdeValue>(bytes).ok().map(|v| json_from(&v))
}

/// `serde_json::to_string`: prints a document; the result is named
/// [`json_encode`] of the document's view (the conversion reads nothing
/// else). Printing a `serde_json::Value` does not fail.
#[verifier::external_body]
pub(crate) fn json_print(v: &JsonValue) -> (r: String)
    ensures
        r@ == json_encode(json_view(*v)),
{
    serde_json::to_string(&json_to(v)).unwrap_or_default()
}

/// The position of the first member at or after `from` with the key.
pub open spec fn key_index(es: Seq<(String, JsonValue)>, key: Seq<char>, from: int) -> Option<int>
    decreases es.len() - from,
{
    if from < 0 || from >= es.len() {
        None
    } else if es[from].0@ == key {
        Some(from)
    } else {
        key_index(es, key, from + 1)
    }
}

/// The value of an object's member with the key (the first, if several).
pub open spec fn obj_get(es: Seq<(String, JsonValue)>, key: Seq<char>) -> Option<JsonValue> {
    match key_index(es, key, 0) {
        Some(i) => Some(es[i].1),
        None => None,
    }
}

pub proof fn lemma_key_index_range(es: Seq<(String, JsonValue)>, key: Seq<char>, from: int)
    requires
        0 <= from,
    ensures
        key_index(es, key, from) matches Some(i) ==> from <= i < es.len() && es[i].0@ == key,
    decreases es.len() - from,
{
    if from < es.len() && es[from].0@ != key {
        lemma_key_index_range(es, key, from + 1);
    }
}

proof fn lemma_key_index_same_keys(
    a: Seq<(String, JsonValue)>,
    b: Seq<(String, JsonValue)>,
    key: Seq<char>,
    from: int,
)
    requires
        0 <= from,
        a.len() == b.len(),
        forall|j: int| 0 <= j < a.len() ==> #[trigger] a[j].0@ == b[j].0@,
    ensures
        key_index(a, key, from) == key_index(b, key, from),
    decreases a.len() - from,
{
    if from < a.len() {
        assert(a[from].0@ == b[from].0@);
        lemma_key_index_same_keys(a, b, key, from + 1);
    }
}

proof fn lemma_key_index_push(a: Seq<(String, JsonValue)>, p: (String, JsonValue), key: Seq<char>, from: int)
    requires
        0 <= from <= a.len(),
    ensures
        key_index(a.push(p), key, from) == (match key_index(a, key, from) {
            Some(i) => Some(i),
            None => if p.0@ == key {
                Some(a.len() as int)
            } else {
                None
            },
        }),
    decreases a.len() - from,
{
    if from < a.len() {
        assert(a.push(p)[from] == a[from]);
        lemma_key_index_push(a, p, key, from + 1);
    } else {
        assert(a.push(p)[from] == p);
        assert(key_index(a.push(p), key, from + 1) is None);
        assert(key_index(a, key, from) is None);
    }
}

/// Replacing the first member with a key by a member with the same key
/// changes what that key reads and nothing else.
pub proof fn lemma_update_member(a: Seq<(String, JsonValue)>, i: int, p: (String, JsonValue))
    requires
        key_index(a, p.0@, 0) == Some(i),
    ensures
        obj_get(a.update(i, p), p.0@) == Some(p.1),
        forall|k: Seq<char>| k != p.0@ ==> #[trigger] obj_get(a.update(i, p), k) == obj_get(a, k),
{
    lemma_key_index_range(a, p.0@, 0);
    let b = a.update(i, p);
    assert forall|j: int| 0 <= j < a.len() implies #[trigger] a[j].0@ == b[j].0@ by {}
    assert forall|k2: Seq<char>| k2 != p.0@ implies #[trigger] obj_get(b, k2) == obj_get(a, k2) by {
        lemma_key_index_same_keys(a, b, k2, 0);
        lemma_key_index_range(a, k2, 0);
    }
    lemma_key_index_same_keys(a, b, p.0@, 0);
}

/// The position of an object's first member with the key.
pub fn find_key(es: &Vec<(String, JsonValue)>, key: &str) -> (r: Option<usize>)
    ensures
        match r {
            Some(i) => key_index(es@, key@, 0) == Some(i as int) && i < es@.len(),
            None => key_index(es@, key@, 0) is None,
        },
{
    let mut i: usize = 0;
    while i < es.len()
        invariant
            i <= es@.len(),
            key_index(es@, key@, i as int) == key_index(es@, key@, 0),
        decreases es@.len() - i,
    {
        if same_text(es[i].0.as_str(), key) {
            return Some(i);
        }
        i += 1;
    }
    None
}

/// Sets an object member: the first member with the key takes the value, or
/// a new member is appended. Every other key reads as before.
pub fn set_entry(es: &mut Vec<(String, JsonValue)>, key: &str, value: JsonValue)
    ensures
        members_view(final(es)@) == set_member(members_view(old(es)@), key@, json_view(value)),
        unique_keys(JsonView::JObj(members_view(old(es)@))) && unique_keys(json_view(value)) ==> unique_keys(
            JsonView::JObj(members_view(final(es)@)),
        ),
        obj_get(final(es)@, key@) == Some(value),
        forall|k: Seq<char>| k != key@ ==> #[trigger] obj_get(final(es)@, k) == obj_get(old(es)@, k),
{
    let ghost a = es@;
    proof {
        if unique_keys(JsonView::JObj(members_view(a))) && unique_keys(json_view(value)) {
            lemma_set_member_unique(members_view(a), key@, json_view(value));
        }
    }
    match find_key(es, key) {
        Some(i) => {
            proof {
                lemma_key_index_range(a, key@, 0);
            }
            let k = key.to_owned();
            es[i] = (k, value);
            proof {
                let b = es@;
                assert(b =~= a.update(i as int, b[i as int]));
                assert forall|j: int| 0 <= j < a.len() implies #[trigger] a[j].0@ == b[j].0@ by {}
                assert forall|k2: Seq<char>| k2 != key@ implies #[trigger] obj_get(b, k2) == obj_get(a, k2) by {
                    lemma_key_index_same_keys(a, b, k2, 0);
                    lemma_key_index_range(a, k2, 0);
                }
                lemma_key_index_same_keys(a, b, key@, 0);
                lemma_key_index_view(a, key@, 0);
                assert(members_view(b) =~= members_view(a).update(i as int, (key@, json_view(value))));
            }
        },
        None => {
            let p = (key.to_owned(), value);
            es.push(p);
            proof {
                assert forall|k2: Seq<char>| k2 != key@ implies #[trigger] obj_get(es@, k2) == obj_get(a, k2) by {
                    lemma_key_index_push(a, p, k2, 0);
                    lemma_key_index_range(a, k2, 0);
                }
                lemma_key_index_push(a, p, key@, 0);
                lemma_key_index_view(a, key@, 0);
                assert(members_view(es@) =~= members_view(a).push((key@, json_view(value))));
            }
        },
    }
}

/// The decimal digit `d`.
pub open spec fn digit_char(d: int) -> char {
    (48 + d) as char
}

/// The decimal text of a natural number.
pub open spec fn decimal(n: nat) -> Seq<char>
    decreases n,
{
    if n < 10 {
        seq![digit_char(n as int)]
    } else {
        decimal(n / 10).push(digit_char((n % 10) as int))
    }
}

fn digit_str(d: u64) -> (r: &'static str)
    requires
        d < 10,
    ensures
        r@ == seq![digit_char(d as int)],
{
    proof {
        reveal_strlit("0");
        reveal_strlit("1");
        reveal_strlit("2");
        reveal_strlit("3");
        reveal_strlit("4");
        reveal_strlit("5");
        reveal_strlit("6");
        reveal_strlit("7");
        reveal_strlit("8");
        reveal_strlit("9");
    }
    let r = match d {
        0 => "0",
        1 => "1",
        2 => "2",
        3 => "3",
        4 => "4",
        5 => "5",
        6 => "6",
        7 => "7",
        8 => "8",
        _ => "9",
    };
    assert(r@ =~= seq![digit_char(d as int)]);
    r
}

/// The decimal text of `n`.
pub fn decimal_text(n: u64) -> (r: String)
    ensures
        r@ == decimal(n as nat),
    decreases n,
{
    if n < 10 {
        digit_str(n).to_owned()
    } else {
        let mut s = decimal_text(n / 10);
        s.append(digit_str(n % 10));
        assert(s@ =~= decimal(n as nat));
        s
    }
}

/// `v` is the JSON number `n` as `serde_json` makes it from an unsigned
/// integer.
pub open spec fn is_u64_number(v: JsonValue, n: u64) -> bool {
    v matches JsonValue::Number(x) && x.text@ == decimal(n as nat) && x.as_u64 == Some(n) && x.as_i64 == (if n
        <= i64::MAX {
        Some(n as i64)
    } else {
        None::<i64>
    })
}

/// The view of the JSON number `n`.
pub open spec fn u64_view(n: u64) -> JsonView {
    JsonView::JNum(
        decimal(n as nat),
        Some(n),
        if n <= i64::MAX {
            Some(n as i64)
        } else {
            None
        },
    )
}

/// The JSON number `n`.
pub fn json_u64(n: u64) -> (r: JsonValue)
    ensures
        is_u64_number(r, n),
        json_view(r) == u64_view(n),
{
    let as_i64 = if n <= 0x7fff_ffff_ffff_ffff {
        Some(n as i64)
    } else {
        None
    };
    JsonValue::Number(JsonNumber { text: decimal_text(n), as_u64: Some(n), as_i64 })
}

} // verus!
