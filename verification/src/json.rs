//! JSON objects as the protocol carries them.
//!
//! `Meta` and `Data` are serde_json objects. The protocol reads only their
//! keys and, for some keys, whether the value is a JSON string and which one;
//! `object_entries` names exactly that much of an object.
use vstd::prelude::*;

verus! {

#[verifier::external_type_specification]
#[verifier::external_body]
#[verifier::reject_recursive_types(K)]
#[verifier::reject_recursive_types(V)]
pub struct ExJsonMap<K, V>(serde_json::Map<K, V>);

#[verifier::external_type_specification]
#[verifier::external_body]
pub struct ExJsonValue(serde_json::Value);

/// Envelope metadata: a JSON object.
pub type Meta = serde_json::Map<String, serde_json::Value>;

/// Envelope payload: a JSON object owned by the application.
pub type Data = serde_json::Map<String, serde_json::Value>;

/// A JSON value: `null`, a boolean, a number (by the text serde_json writes
/// for it), a string, an array, or an object.
pub enum JsonView {
    Null,
    Bool(bool),
    Number(Seq<char>),
    Str(Seq<char>),
    Array(Seq<JsonView>),
    Object(Map<Seq<char>, JsonView>),
}

/// What a JSON object holds: each key's text with its value.
pub uninterp spec fn object_content(m: Meta) -> Map<Seq<char>, JsonView>;

/// The text of a JSON string value; any other value has none.
pub open spec fn text_of(v: JsonView) -> Option<Seq<char>> {
    match v {
        JsonView::Str(s) => Some(s),
        _ => None,
    }
}

/// What a JSON object holds, as far as the protocol reads it: its keys, each
/// with `Some(text)` when the value is the JSON string `text` and `None` when
/// the value is any other JSON value.
pub open spec fn object_entries(m: Meta) -> Map<Seq<char>, Option<Seq<char>>> {
    object_content(m).map_values(|v: JsonView| text_of(v))
}

/// Setting a key to a string sets its text and leaves the other entries.
pub proof fn lemma_entries_insert_text(c: Map<Seq<char>, JsonView>, key: Seq<char>, text: Seq<char>)
    ensures
        c.insert(key, JsonView::Str(text)).map_values(|v: JsonView| text_of(v)) == c.map_values(
            |v: JsonView| text_of(v),
        ).insert(key, Some(text)),
{
    assert(c.insert(key, JsonView::Str(text)).map_values(|v: JsonView| text_of(v)) =~= c.map_values(
        |v: JsonView| text_of(v),
    ).insert(key, Some(text)));
}

/// Strict lexicographic order on character sequences, comparing code points.
/// For `String` keys this is the order of std's `Ord` (byte-wise UTF-8
/// comparison orders strings by code points).
pub open spec fn text_lt(a: Seq<char>, b: Seq<char>) -> bool
    decreases a.len(),
{
    if a.len() == 0 {
        b.len() > 0
    } else if b.len() == 0 {
        false
    } else if a[0] != b[0] {
        (a[0] as u32) < (b[0] as u32)
    } else {
        text_lt(a.drop_first(), b.drop_first())
    }
}

/// `text_lt` is irreflexive.
pub proof fn lemma_text_lt_irreflexive(a: Seq<char>)
    ensures
        !text_lt(a, a),
    decreases a.len(),
{
    if a.len() > 0 {
        lemma_text_lt_irreflexive(a.drop_first());
    }
}

/// `text_lt` is asymmetric.
pub proof fn lemma_text_lt_asymmetric(a: Seq<char>, b: Seq<char>)
    ensures
        text_lt(a, b) ==> !text_lt(b, a),
    decreases a.len(),
{
    if a.len() > 0 && b.len() > 0 {
        lemma_text_lt_asymmetric(a.drop_first(), b.drop_first());
    }
}

/// The keys of an object as a sequence of character sequences.
pub open spec fn key_views(keys: Seq<String>) -> Seq<Seq<char>> {
    keys.map_values(|k: String| k@)
}

/// A sequence of keys in strictly ascending order.
pub open spec fn strictly_ascending(keys: Seq<Seq<char>>) -> bool {
    forall|i: int, j: int| 0 <= i < j < keys.len() ==> text_lt(#[trigger] keys[i], #[trigger] keys[j])
}

/// `Clone` for serde_json objects: a deep copy of the underlying map, so
/// the copy holds the same keys with the same values.
pub assume_specification[ <serde_json::Map<String, serde_json::Value> as Clone>::clone ](
    m: &serde_json::Map<String, serde_json::Value>,
) -> (r: serde_json::Map<String, serde_json::Value>)
    ensures
        object_content(r) == object_content(*m),
;

/// A new, empty JSON object (`serde_json::Map::new`).
#[verifier::external_body]
pub(crate) fn object_new() -> (m: Meta)
    ensures
        object_content(m).is_empty(),
{
    serde_json::Map::new()
}

/// The keys of an object (`serde_json::Map::keys`), cloned.
///
/// Without serde_json's `preserve_order` feature (this crate does not enable
/// it) the map is a `BTreeMap`, so the keys come in ascending order, each
/// once; together they are the object's keys.
#[verifier::external_body]
pub(crate) fn object_keys(m: &Meta) -> (keys: Vec<String>)
    ensures
        key_views(keys@).to_set() == object_entries(*m).dom(),
        key_views(keys@).no_duplicates(),
        strictly_ascending(key_views(keys@)),
{
    m.keys().cloned().collect()
}

/// Looks a key up (`serde_json::Map::get`): `None` when the key is absent,
/// `Some(Some(text))` when its value is the JSON string `text`, `Some(None)`
/// for any other JSON value.
#[verifier::external_body]
pub(crate) fn object_lookup_text(m: &Meta, key: &str) -> (r: Option<Option<String>>)
    ensures
        r is None <==> !object_entries(*m).contains_key(key@),
        r matches Some(t) ==> object_entries(*m)[key@] == (match t {
            Some(s) => Some(s@),
            None => None::<Seq<char>>,
        }),
{
    match m.get(key) {
        None => None,
        Some(serde_json::Value::Null) => Some(None),
        Some(serde_json::Value::Bool(_)) => Some(None),
        Some(serde_json::Value::Number(_)) => Some(None),
        Some(serde_json::Value::String(s)) => Some(Some(s.clone())),
        Some(serde_json::Value::Array(_)) => Some(None),
        Some(serde_json::Value::Object(_)) => Some(None),
    }
}

/// Sets a key to a JSON string value (`serde_json::Map::insert`), replacing
/// any previous value of that key; every other key keeps its value.
#[verifier::external_body]
pub(crate) fn object_insert_text(m: &mut Meta, key: String, text: String)
    ensures
        object_content(*final(m)) == object_content(*old(m)).insert(key@, JsonView::Str(text@)),
{
    m.insert(key, serde_json::Value::String(text));
}

} // verus!
