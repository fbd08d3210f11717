//! JSON values, as plain data.

use serde_json::Value;
use vstd::prelude::*;

use crate::text::same;

verus! {

/// A JSON value. Of a number only the kind is kept.
#[derive(Debug)]
pub enum Json {
    Null,
    Flag(bool),
    Number,
    Text(String),
    List(Vec<Json>),
    /// The members in the order in which they are walked.
    Object(Vec<(String, Json)>),
}

/// A [`Json`] with its texts as character sequences.
pub enum JsonView {
    Null,
    Flag(bool),
    Number,
    Text(Seq<char>),
    List(Seq<JsonView>),
    Object(Seq<(Seq<char>, JsonView)>),
}

impl Json {
    pub open spec fn shape(self) -> JsonView
        decreases self,
    {
        match self {
            Json::Null => JsonView::Null,
            Json::Flag(b) => JsonView::Flag(b),
            Json::Number => JsonView::Number,
            Json::Text(s) => JsonView::Text(s@),
            Json::List(v) => JsonView::List(
                Seq::new(
                    v@.len(),
                    |i: int|
                        if 0 <= i < v@.len() {
                            v@[i].shape()
                        } else {
                            JsonView::Null
                        },
                ),
            ),
            Json::Object(v) => JsonView::Object(
                Seq::new(
                    v@.len(),
                    |i: int|
                        if 0 <= i < v@.len() {
                            (v@[i].0@, v@[i].1.shape())
                        } else {
                            (Seq::empty(), JsonView::Null)
                        },
                ),
            ),
        }
    }
}

/// `serde_json::Value`, the type that JSON is parsed into.
#[verifier::external_type_specification]
#[verifier::external_body]
pub struct ExValue(serde_json::Value);

/// What `serde_json::from_slice` reads from some bytes, where they are one JSON value.
pub uninterp spec fn json_value(bytes: Seq<u8>) -> Option<JsonView>;

/// What a `serde_json::Value` holds, all the way down.
pub uninterp spec fn contents(v: Value) -> JsonView;

/// The outermost layer of a parsed value.
enum Layer<'a> {
    Null,
    Flag(bool),
    Number,
    Text(&'a String),
    List(&'a Vec<Value>),
    Object(Vec<(&'a String, &'a Value)>),
}

/// What a value with the given outermost layer holds.
spec fn layered(l: Layer) -> JsonView {
    match l {
        Layer::Null => JsonView::Null,
        Layer::Flag(b) => JsonView::Flag(b),
        Layer::Number => JsonView::Number,
        Layer::Text(s) => JsonView::Text(s@),
        Layer::List(v) => JsonView::List(Seq::new(v@.len(), |i: int| contents(v@[i]))),
        Layer::Object(m) => JsonView::Object(
            Seq::new(m@.len(), |i: int| (m@[i].0@, contents(*m@[i].1))),
        ),
    }
}

/// The variants of `serde_json::Value`, with `Map::iter` for the members of an object: a value
/// holds what its outermost layer holds, the members in the order in which they are walked.
#[verifier::external_body]
fn layer<'a>(v: &'a Value) -> (r: Layer<'a>)
    ensures
        layered(r) == contents(*v),
{
    match v {
        Value::Null => Layer::Null,
        Value::Bool(b) => Layer::Flag(*b),
        Value::Number(_) => Layer::Number,
        Value::String(s) => Layer::Text(s),
        Value::Array(a) => Layer::List(a),
        Value::Object(m) => Layer::Object(m.iter().collect()),
    }
}

/// `serde_json::from_slice` for a `Value`: nothing where the bytes are not JSON. The contract
/// gives what the value holds a name; it says nothing of how JSON is read.
#[verifier::external_body]
fn from_slice(bytes: &Vec<u8>) -> (r: Option<Value>)
    ensures
        match r {
            Some(v) => json_value(bytes@) == Some(contents(v)),
            None => json_value(bytes@) is None,
        },
{
    serde_json::from_slice::<Value>(bytes).ok()
}

/// A parsed value as plain data.
fn convert(v: &Value) -> (r: Json)
    ensures
        r.shape() == contents(*v),
    decreases contents(*v),
{
    match layer(v) {
        Layer::Null => Json::Null,
        Layer::Flag(b) => Json::Flag(b),
        Layer::Number => Json::Number,
        Layer::Text(s) => Json::Text(s.clone()),
        Layer::List(a) => {
            let ghost all = contents(*v)->List_0;
            let mut out: Vec<Json> = Vec::new();
            for i in 0..a.len()
                invariant
                    contents(*v) == JsonView::List(all),
                    all == Seq::new(a@.len(), |k: int| contents(a@[k])),
                    out@.len() == i,
                    forall|k: int| 0 <= k < i ==> (#[trigger] out@[k]).shape() == all[k],
            {
                assert(decreases_to!(contents(*v) => contents(*v)->List_0[i as int]));
                out.push(convert(&a[i]));
            }
            let r: Json = Json::List(out);
            assert(r.shape()->List_0 =~= all);
            r
        },
        Layer::Object(m) => {
            let ghost all = contents(*v)->Object_0;
            let mut out: Vec<(String, Json)> = Vec::new();
            for i in 0..m.len()
                invariant
                    contents(*v) == JsonView::Object(all),
                    all == Seq::new(m@.len(), |k: int| (m@[k].0@, contents(*m@[k].1))),
                    out@.len() == i,
                    forall|k: int|
                        0 <= k < i ==> ((#[trigger] out@[k]).0@, out@[k].1.shape()) == all[k],
            {
                assert(decreases_to!(contents(*v) => contents(*v)->Object_0[i as int].1));
                out.push((m[i].0.clone(), convert(m[i].1)));
            }
            let r: Json = Json::Object(out);
            assert(r.shape()->Object_0 =~= all);
            r
        },
    }
}

/// The JSON value that some bytes write: nothing where they are not JSON.
pub fn parse(bytes: &Vec<u8>) -> (r: Option<Json>)
    ensures
        match r {
            Some(j) => json_value(bytes@) == Some(j.shape()),
            None => json_value(bytes@) is None,
        },
{
    match from_slice(bytes) {
        Some(v) => Some(convert(&v)),
        None => None,
    }
}

/// The first of some members with the given key, counted from 0; the number of members where
/// there is none.
pub open spec fn member_at(m: Seq<(Seq<char>, JsonView)>, key: Seq<char>) -> int
    decreases m.len(),
{
    if m.len() == 0 || m[0].0 == key {
        0
    } else {
        1 + member_at(m.drop_first(), key)
    }
}

/// What an object holds under a key.
pub open spec fn member(j: JsonView, key: Seq<char>) -> Option<JsonView> {
    match j {
        JsonView::Object(m) => if member_at(m, key) < m.len() {
            Some(m[member_at(m, key)].1)
        } else {
            None
        },
        _ => None,
    }
}

/// The text that an object holds under a key.
pub open spec fn text_member(j: JsonView, key: Seq<char>) -> Option<Seq<char>> {
    match member(j, key) {
        Some(JsonView::Text(s)) => Some(s),
        _ => None,
    }
}

impl Json {
    /// What an object holds under a key.
    pub fn get(&self, key: &str) -> (r: Option<&Json>)
        ensures
            match r {
                Some(j) => member(self.shape(), key@) == Some(j.shape()),
                None => member(self.shape(), key@) is None,
            },
    {
        match self {
            Json::Object(v) => {
                let ghost m = self.shape()->Object_0;
                let mut i: usize = 0;
                assert(m.skip(0) =~= m);
                while i < v.len()
                    invariant
                        i <= v@.len(),
                        self.shape() == JsonView::Object(m),
                        m.len() == v@.len(),
                        forall|k: int|
                            0 <= k < v@.len() ==> #[trigger] m[k] == (v@[k].0@, v@[k].1.shape()),
                        member_at(m, key@) == i + member_at(m.skip(i as int), key@),
                    decreases v@.len() - i,
                {
                    assert(m.skip(i as int)[0] == m[i as int]);
                    if same(&v[i].0, key) {
                        return Some(&v[i].1);
                    }
                    assert(m.skip(i as int).drop_first() =~= m.skip(i + 1));
                    i = i + 1;
                }
                None
            },
            _ => None,
        }
    }

    /// The text that an object holds under a key.
    pub fn get_text(&self, key: &str) -> (r: Option<&String>)
        ensures
            match r {
                Some(s) => text_member(self.shape(), key@) == Some(s@),
                None => text_member(self.shape(), key@) is None,
            },
    {
        match self.get(key) {
            Some(Json::Text(s)) => Some(s),
            _ => None,
        }
    }
}

} // verus!
