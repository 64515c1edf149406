//! The part of a JSON document that project detection reads: the members of
//! a top-level object, and for members that are objects, their keys.
use vstd::prelude::*;
use crate::text::same_text;

verus! {

/// The value of a top-level member: an object (its keys) or anything else.
#[derive(Clone, Debug, PartialEq, Eq)]
pub enum MemberValue {
    Object(Vec<String>),
    Other,
}

/// A member of a top-level object.
#[derive(Clone, Debug, PartialEq, Eq)]
pub struct JsonMember {
    pub key: String,
    pub value: MemberValue,
}

/// A parsed JSON document: an object with its members, or another value.
#[derive(Clone, Debug, PartialEq, Eq)]
pub enum JsonDocument {
    Object(Vec<JsonMember>),
    Other,
}

impl View for MemberValue {
    type V = Option<Seq<Seq<char>>>;

    open spec fn view(&self) -> Option<Seq<Seq<char>>> {
        match self {
            MemberValue::Object(keys) => Some(keys@.map_values(|k: String| k@)),
            MemberValue::Other => None,
        }
    }
}

impl View for JsonMember {
    type V = (Seq<char>, Option<Seq<Seq<char>>>);

    open spec fn view(&self) -> (Seq<char>, Option<Seq<Seq<char>>>) {
        (self.key@, self.value@)
    }
}

impl View for JsonDocument {
    type V = Option<Seq<(Seq<char>, Option<Seq<Seq<char>>>)>>;

    open spec fn view(&self) -> Option<Seq<(Seq<char>, Option<Seq<Seq<char>>>)>> {
        match self {
            JsonDocument::Object(ms) => Some(ms@.map_values(|m: JsonMember| m@)),
            JsonDocument::Other => None,
        }
    }
}

/// The view of a parsed document: the members of a top-level object (each
/// with the keys of its value where that is an object), or `None` for a
/// document that is not an object.
pub type DocumentView = Option<Seq<(Seq<char>, Option<Seq<Seq<char>>>)>>;

/// What `serde_json::from_str::<serde_json::Value>` gives for `text`, as far
/// as the members of a top-level object and their keys go: `None` where the
/// text is not JSON; `Some(None)` for JSON that is not an object.
pub uninterp spec fn json_document(text: Seq<char>) -> Option<
    Option<Seq<(Seq<char>, Option<Seq<Seq<char>>>)>>,
>;

/// Parses `text` with `serde_json::from_str` into a `serde_json::Value` and
/// keeps the members of a top-level object (with the keys of members that
/// are objects); the result is named by `json_document`.
#[verifier::external_body]
pub fn parse_json_document(text: &str) -> (r: Option<JsonDocument>)
    ensures
        match r {
            Some(d) => json_document(text@) == Some(d@),
            None => json_document(text@) is None,
        },
{
    match serde_json::from_str::<serde_json::Value>(text) {
        Ok(serde_json::Value::Object(map)) => Some(JsonDocument::Object(map.into_iter().map(|(key, value)| JsonMember {
            key,
            value: match value {
                serde_json::Value::Object(inner) => MemberValue::Object(inner.into_iter().map(|(k, _)| k).collect()),
                _ => MemberValue::Other,
            },
        }).collect())),
        Ok(_) => Some(JsonDocument::Other),
        Err(_) => None,
    }
}

/// The value of the first member named `key` (what `Value::get` finds).
pub open spec fn member_named(
    ms: Seq<(Seq<char>, Option<Seq<Seq<char>>>)>,
    key: Seq<char>,
) -> Option<Option<Seq<Seq<char>>>>
    decreases ms.len(),
{
    if ms.len() == 0 {
        None
    } else if ms[0].0 == key {
        Some(ms[0].1)
    } else {
        member_named(ms.drop_first(), key)
    }
}

/// `doc.get(member).get(key).is_some()`: the document is an object whose
/// member `member` is an object holding `key`.
pub open spec fn has_member_key(
    doc: Option<Seq<(Seq<char>, Option<Seq<Seq<char>>>)>>,
    member: Seq<char>,
    key: Seq<char>,
) -> bool {
    match doc {
        Some(ms) => match member_named(ms, member) {
            Some(Some(keys)) => keys.contains(key),
            _ => false,
        },
        None => false,
    }
}

/// Whether `keys` holds `key`.
fn holds_key(keys: &Vec<String>, key: &str) -> (r: bool)
    ensures
        r == keys@.map_values(|k: String| k@).contains(key@),
{
    let ghost kv = keys@.map_values(|k: String| k@);
    let mut i: usize = 0;
    while i < keys.len()
        invariant
            i <= keys.len(),
            kv == keys@.map_values(|k: String| k@),
            forall|j: int| 0 <= j < i ==> kv[j] != key@,
        decreases keys.len() - i,
    {
        if same_text(keys[i].as_str(), key) {
            assert(kv[i as int] == key@);
            return true;
        }
        i = i + 1;
    }
    false
}

/// Whether the document is an object whose member `member` is an object
/// holding `key`.
pub fn document_has_key(doc: &JsonDocument, member: &str, key: &str) -> (r: bool)
    ensures
        r == has_member_key(doc@, member@, key@),
{
    match doc {
        JsonDocument::Object(ms) => {
            let ghost mv = ms@.map_values(|m: JsonMember| m@);
            let mut i: usize = 0;
            assert(mv.skip(0) =~= mv);
            while i < ms.len()
                invariant
                    i <= ms.len(),
                    doc@ == Some(mv),
                    mv == ms@.map_values(|m: JsonMember| m@),
                    member_named(mv, member@) == member_named(mv.skip(i as int), member@),
                decreases ms.len() - i,
            {
                assert(mv.skip(i as int).drop_first() =~= mv.skip(i + 1));
                if same_text(ms[i].key.as_str(), member) {
                    assert(mv.skip(i as int)[0] == ms@[i as int]@);
                    assert(member_named(mv, member@) == Some(ms@[i as int].value@));
                    return match &ms[i].value {
                        MemberValue::Object(keys) => holds_key(keys, key),
                        MemberValue::Other => false,
                    };
                }
                i = i + 1;
            }
            false
        },
        JsonDocument::Other => false,
    }
}

} // verus!
