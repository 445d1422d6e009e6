//! JSON documents as plain values.
use vstd::prelude::*;
use vstd::string::*;

verus! {

/// A JSON value. A number is held by the bit pattern of the double-precision
/// number that it stands for, if it stands for one.
pub enum Json {
    Null,
    Bool(bool),
    Number(Option<u64>),
    Text(String),
    Array(Vec<Json>),
    Object(Vec<(String, Json)>),
}

/// The contents of a [`Json`] value.
pub enum JsonView {
    Null,
    Bool(bool),
    Number(Option<u64>),
    Text(Seq<char>),
    Array(Seq<JsonView>),
    Object(Seq<(Seq<char>, JsonView)>),
}

impl Json {
    /// The contents of the value.
    pub open spec fn contents(self) -> JsonView
        decreases self,
    {
        match self {
            Json::Null => JsonView::Null,
            Json::Bool(b) => JsonView::Bool(b),
            Json::Number(n) => JsonView::Number(n),
            Json::Text(s) => JsonView::Text(s@),
            Json::Array(items) => JsonView::Array(
                Seq::new(
                    items@.len(),
                    |i: int|
                        if 0 <= i < items@.len() {
                            items@[i].contents()
                        } else {
                            JsonView::Null
                        },
                ),
            ),
            Json::Object(fields) => JsonView::Object(
                Seq::new(
                    fields@.len(),
                    |i: int|
                        if 0 <= i < fields@.len() {
                            (fields@[i].0@, fields@[i].1.contents())
                        } else {
                            (Seq::empty(), JsonView::Null)
                        },
                ),
            ),
        }
    }
}

/// `serde_json::Value`, a parsed JSON document.
#[verifier::external_type_specification]
#[verifier::external_body]
pub struct ExValue(serde_json::Value);

/// What a `serde_json::Value` holds: its kind and its parts, the fields of an
/// object in the order in which the value hands them out, a number as the
/// double-precision number that `serde_json::Number::as_f64` gives.
pub uninterp spec fn value_contents(value: serde_json::Value) -> JsonView;

/// What `serde_json` reads in these bytes: a value, or the text of its error.
pub uninterp spec fn json_document(bytes: Seq<u8>) -> Result<JsonView, Seq<char>>;

/// `serde_json::from_slice` into a `serde_json::Value`: the document in the
/// bytes, or the error's `Display` text; both depend on the bytes alone. Which
/// texts are documents is left to the JSON grammar as `serde_json` reads it.
#[verifier::external_body]
fn read_value(bytes: &[u8]) -> (r: Result<serde_json::Value, String>)
    ensures
        match r {
            Ok(v) => json_document(bytes@) == Ok::<JsonView, Seq<char>>(value_contents(v)),
            Err(e) => json_document(bytes@) == Err::<JsonView, Seq<char>>(e@),
        },
{
    serde_json::from_slice::<serde_json::Value>(bytes).map_err(|e| e.to_string())
}

/// Takes a `serde_json::Value` apart, part by part: the same document as plain
/// values. `serde_json::Number::as_f64` gives the value of a number.
#[verifier::external_body]
fn json_of(value: serde_json::Value) -> (r: Json)
    ensures
        r.contents() == value_contents(value),
{
    match value {
        serde_json::Value::Null => Json::Null,
        serde_json::Value::Bool(b) => Json::Bool(b),
        serde_json::Value::Number(n) => Json::Number(n.as_f64().map(|x| x.to_bits())),
        serde_json::Value::String(s) => Json::Text(s),
        serde_json::Value::Array(a) => Json::Array(a.into_iter().map(json_of).collect()),
        serde_json::Value::Object(o) => {
            Json::Object(o.into_iter().map(|(k, v)| (k, json_of(v))).collect())
        },
    }
}

impl JsonView {
    /// The field of an object.
    pub open spec fn field(self, key: Seq<char>) -> Option<JsonView> {
        match self {
            JsonView::Object(fields) => first_field(fields, key),
            _ => None,
        }
    }

    /// The item of an array.
    pub open spec fn item(self, i: int) -> Option<JsonView> {
        match self {
            JsonView::Array(items) => if 0 <= i < items.len() {
                Some(items[i])
            } else {
                None
            },
            _ => None,
        }
    }
}

/// The first field with the given name.
pub open spec fn first_field(fields: Seq<(Seq<char>, JsonView)>, key: Seq<char>) -> Option<
    JsonView,
>
    decreases fields.len(),
{
    if fields.len() == 0 {
        None
    } else if fields[0].0 == key {
        Some(fields[0].1)
    } else {
        first_field(fields.skip(1), key)
    }
}

/// The numbers among the items of an array, in order.
pub open spec fn numbers(items: Seq<JsonView>) -> Seq<u64>
    decreases items.len(),
{
    if items.len() == 0 {
        Seq::empty()
    } else {
        let before = numbers(items.drop_last());
        match items.last() {
            JsonView::Number(Some(n)) => before.push(n),
            _ => before,
        }
    }
}

impl Json {
    /// The field of an object.
    pub fn field(&self, key: &str) -> (r: Option<&Json>)
        ensures
            match r {
                Some(v) => self.contents().field(key@) == Some(v.contents()),
                None => self.contents().field(key@) is None,
            },
    {
        match self {
            Json::Object(fields) => {
                let wanted = key.to_string();
                let ghost all = self.contents()->Object_0;
                assert(all.skip(0) =~= all);
                let mut i: usize = 0;
                while i < fields.len()
                    invariant
                        i <= fields.len(),
                        wanted@ == key@,
                        *self == Json::Object(*fields),
                        all == self.contents()->Object_0,
                        all.len() == fields@.len(),
                        first_field(all, key@) == first_field(all.skip(i as int), key@),
                    decreases fields.len() - i,
                {
                    assert(all.skip(i as int)[0] == (
                        fields@[i as int].0@,
                        fields@[i as int].1.contents(),
                    ));
                    assert(all.skip(i as int).skip(1) =~= all.skip(i + 1));
                    if fields[i].0 == wanted {
                        return Some(&fields[i].1);
                    }
                    i += 1;
                }
                None
            },
            _ => None,
        }
    }

    /// The item of an array.
    pub fn item(&self, i: usize) -> (r: Option<&Json>)
        ensures
            match r {
                Some(v) => self.contents().item(i as int) == Some(v.contents()),
                None => self.contents().item(i as int) is None,
            },
    {
        match self {
            Json::Array(items) => if i < items.len() {
                Some(&items[i])
            } else {
                None
            },
            _ => None,
        }
    }

    /// The numbers among the items of an array; `None` if this is no array.
    pub fn numbers(&self) -> (r: Option<Vec<u64>>)
        ensures
            match r {
                Some(v) => self.contents() is Array && v@ == numbers(self.contents()->Array_0),
                None => !(self.contents() is Array),
            },
    {
        match self {
            Json::Array(items) => {
                let ghost all = self.contents()->Array_0;
                let mut r: Vec<u64> = Vec::new();
                let mut i: usize = 0;
                while i < items.len()
                    invariant
                        i <= items.len(),
                        *self == Json::Array(*items),
                        all == self.contents()->Array_0,
                        all.len() == items@.len(),
                        r@ == numbers(all.take(i as int)),
                    decreases items.len() - i,
                {
                    assert(all[i as int] == items@[i as int].contents());
                    assert(all.take(i + 1).drop_last() =~= all.take(i as int));
                    match &items[i] {
                        Json::Number(Some(n)) => {
                            r.push(*n);
                        },
                        _ => {},
                    }
                    i += 1;
                }
                assert(all.take(all.len() as int) =~= all);
                Some(r)
            },
            _ => None,
        }
    }
}

/// Reads a JSON document.
pub fn parse_json(bytes: &[u8]) -> (r: Result<Json, String>)
    ensures
        match r {
            Ok(v) => json_document(bytes@) == Ok::<JsonView, Seq<char>>(v.contents()),
            Err(e) => json_document(bytes@) == Err::<JsonView, Seq<char>>(e@),
        },
{
    match read_value(bytes) {
        Ok(v) => Ok(json_of(v)),
        Err(e) => Err(e),
    }
}

} // verus!
