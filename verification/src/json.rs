//! JSON documents as plain values, decoded by `serde_json`.
use vstd::prelude::*;
use vstd::string::*;

verus! {

/// A JSON document. A number keeps its text; an object keeps its keys and, at
/// the same positions, their values, in the order the decoder yields them.
#[derive(Debug)]
pub enum Json {
    Null,
    Bool(bool),
    Number(String),
    Str(String),
    Array(Vec<Json>),
    Object(Vec<String>, Vec<Json>),
}

/// The value at the first position of `keys` that holds `key`.
pub open spec fn lookup(keys: Seq<String>, values: Seq<Json>, key: Seq<char>) -> Option<Json>
    decreases keys.len(),
{
    if keys.len() == 0 || values.len() == 0 {
        None
    } else if keys[0]@ == key {
        Some(values[0])
    } else {
        lookup(keys.drop_first(), values.drop_first(), key)
    }
}

proof fn lemma_lookup_found(keys: Seq<String>, values: Seq<Json>, key: Seq<char>, i: int)
    requires
        0 <= i < keys.len(),
        i < values.len(),
        keys[i]@ == key,
        forall|j: int| 0 <= j < i ==> keys[j]@ != key,
    ensures
        lookup(keys, values, key) == Some(values[i]),
    decreases i,
{
    if i > 0 {
        lemma_lookup_found(keys.drop_first(), values.drop_first(), key, i - 1);
    }
}

proof fn lemma_lookup_missing(keys: Seq<String>, values: Seq<Json>, key: Seq<char>, n: int)
    requires
        n == if keys.len() < values.len() { keys.len() as int } else { values.len() as int },
        forall|j: int| 0 <= j < n ==> keys[j]@ != key,
    ensures
        lookup(keys, values, key) is None,
    decreases keys.len(),
{
    if keys.len() > 0 && values.len() > 0 {
        lemma_lookup_missing(keys.drop_first(), values.drop_first(), key, n - 1);
    }
}

impl Json {
    /// The member `key` of an object; nothing for any other value.
    pub open spec fn field(self, key: Seq<char>) -> Option<Json> {
        match self {
            Json::Object(keys, values) => lookup(keys@, values@, key),
            _ => None,
        }
    }

    /// The text of a string value.
    pub open spec fn text(self) -> Option<Seq<char>> {
        match self {
            Json::Str(s) => Some(s@),
            _ => None,
        }
    }

    /// The text of the member `key`, when it is a string.
    pub open spec fn field_text(self, key: Seq<char>) -> Option<Seq<char>> {
        match self.field(key) {
            Some(v) => v.text(),
            None => None,
        }
    }

    /// The items of the member `key`, when it is an array.
    pub open spec fn field_items(self, key: Seq<char>) -> Option<Seq<Json>> {
        match self.field(key) {
            Some(Json::Array(items)) => Some(items@),
            _ => None,
        }
    }

    /// `Value::get` with a string key.
    pub fn get(&self, key: &str) -> (r: Option<&Json>)
        ensures
            match r {
                Some(v) => self.field(key@) == Some(*v),
                None => self.field(key@) is None,
            },
    {
        match self {
            Json::Object(keys, values) => {
                let k = String::from_str(key);
                let n = if keys.len() < values.len() {
                    keys.len()
                } else {
                    values.len()
                };
                let mut i: usize = 0;
                while i < n
                    invariant
                        i <= n,
                        n == if keys@.len() < values@.len() {
                            keys@.len() as int
                        } else {
                            values@.len() as int
                        },
                        k@ == key@,
                        self.field(key@) == lookup(keys@, values@, key@),
                        forall|j: int| 0 <= j < i ==> keys@[j]@ != key@,
                    decreases n - i,
                {
                    if keys[i] == k {
                        proof {
                            lemma_lookup_found(keys@, values@, key@, i as int);
                        }
                        return Some(&values[i]);
                    }
                    i = i + 1;
                }
                proof {
                    lemma_lookup_missing(keys@, values@, key@, n as int);
                }
                None
            },
            _ => None,
        }
    }

    /// `Value::as_str`.
    pub fn as_str(&self) -> (r: Option<&String>)
        ensures
            match r {
                Some(s) => self.text() == Some(s@),
                None => self.text() is None,
            },
    {
        match self {
            Json::Str(s) => Some(s),
            _ => None,
        }
    }

    /// `Value::as_array`.
    pub fn as_array(&self) -> (r: Option<&Vec<Json>>)
        ensures
            match r {
                Some(items) => self is Array && self->Array_0 == *items,
                None => !(self is Array),
            },
    {
        match self {
            Json::Array(items) => Some(items),
            _ => None,
        }
    }

    /// The text of the member `key`, when it is a string.
    pub fn get_str(&self, key: &str) -> (r: Option<&String>)
        ensures
            match r {
                Some(s) => self.field_text(key@) == Some(s@),
                None => self.field_text(key@) is None,
            },
    {
        match self.get(key) {
            Some(v) => v.as_str(),
            None => None,
        }
    }

    /// The items of the member `key`, when it is an array.
    pub fn get_array(&self, key: &str) -> (r: Option<&Vec<Json>>)
        ensures
            match r {
                Some(items) => self.field_items(key@) == Some(items@),
                None => self.field_items(key@) is None,
            },
    {
        match self.get(key) {
            Some(v) => v.as_array(),
            None => None,
        }
    }
}

/// `serde_json::Value`, the decoder's document, opaque here: it is only moved
/// into a `Json`.
#[verifier::external_type_specification]
#[verifier::external_body]
pub struct ExJsonValue(serde_json::Value);

/// What `serde_json::from_str` makes of a text: the document, or the decoder's
/// error message.
pub uninterp spec fn json_decode(text: Seq<char>) -> core::result::Result<Json, Seq<char>>;

/// Moves a `serde_json::Value` into a `Json`, variant by variant; a number
/// keeps its `Display` text (`serde_json::Number::to_string`). Nothing is claimed
/// of the result here: `parse_json` names what the two together yield.
#[verifier::external_body]
fn json_from_serde(v: serde_json::Value) -> Json {
    match v {
        serde_json::Value::Null => Json::Null,
        serde_json::Value::Bool(b) => Json::Bool(b),
        serde_json::Value::Number(n) => Json::Number(n.to_string()),
        serde_json::Value::String(s) => Json::Str(s),
        serde_json::Value::Array(xs) => Json::Array(xs.into_iter().map(json_from_serde).collect()),
        serde_json::Value::Object(m) => {
            let (keys, values): (Vec<String>, Vec<serde_json::Value>) = m.into_iter().unzip();
            Json::Object(keys, values.into_iter().map(json_from_serde).collect())
        },
    }
}

/// `serde_json::from_str::<serde_json::Value>`: decodes a JSON text. The contract
/// names the result and does not describe JSON syntax; the error is the decoder's
/// message.
#[verifier::external_body]
pub fn parse_json(text: &str) -> (r: core::result::Result<Json, String>)
    ensures
        match r {
            Ok(j) => json_decode(text@) == Ok::<Json, Seq<char>>(j),
            Err(e) => json_decode(text@) == Err::<Json, Seq<char>>(e@),
        },
{
    match serde_json::from_str::<serde_json::Value>(text) {
        Ok(v) => Ok(json_from_serde(v)),
        Err(e) => Err(e.to_string()),
    }
}

} // verus!
