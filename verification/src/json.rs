//! JSON values: reading them from text, and looking things up in them.

use crate::num::Num;
use crate::text::same_text;
use vstd::prelude::*;
use vstd::string::*;

verus! {

/// A JSON value. A number has the text it is written as, and the double it
/// stands for where there is one; a number that was not read has no text yet.
#[derive(Debug)]
pub enum Json {
    Null,
    Bool(bool),
    Number(String, Option<Num>),
    Text(String),
    Array(Vec<Json>),
    Object(Vec<(String, Json)>),
}

/// What a JSON value is.
pub enum JsonView {
    Null,
    Bool(bool),
    Number(Seq<char>, Option<Num>),
    Text(Seq<char>),
    Array(Seq<JsonView>),
    Object(Seq<(Seq<char>, JsonView)>),
}

impl Json {
    pub open spec fn view(self) -> JsonView
        decreases self,
    {
        match self {
            Json::Null => JsonView::Null,
            Json::Bool(b) => JsonView::Bool(b),
            Json::Number(t, n) => JsonView::Number(t@, n),
            Json::Text(t) => JsonView::Text(t@),
            Json::Array(a) => JsonView::Array(
                Seq::new(
                    a@.len(),
                    |i: int|
                        if 0 <= i < a@.len() {
                            a@[i].view()
                        } else {
                            JsonView::Null
                        },
                ),
            ),
            Json::Object(f) => JsonView::Object(
                Seq::new(
                    f@.len(),
                    |i: int|
                        if 0 <= i < f@.len() {
                            (f@[i].0@, f@[i].1.view())
                        } else {
                            (Seq::empty(), JsonView::Null)
                        },
                ),
            ),
        }
    }
}

/// The views of a list of values.
pub open spec fn views(a: Seq<Json>) -> Seq<JsonView> {
    a.map_values(|j: Json| j.view())
}

/// The views of a list of members.
pub open spec fn member_views(f: Seq<(String, Json)>) -> Seq<(Seq<char>, JsonView)> {
    f.map_values(|p: (String, Json)| (p.0@, p.1.view()))
}

/// The value of the first member of that name.
pub open spec fn field(f: Seq<(Seq<char>, JsonView)>, key: Seq<char>) -> Option<JsonView>
    decreases f.len(),
{
    if f.len() == 0 {
        None
    } else if f[0].0 == key {
        Some(f[0].1)
    } else {
        field(f.drop_first(), key)
    }
}

/// The member of an object; nothing else has members.
pub open spec fn member(v: JsonView, key: Seq<char>) -> Option<JsonView> {
    match v {
        JsonView::Object(f) => field(f, key),
        _ => None,
    }
}

/// What a reference to a value, if there is one, refers to.
pub open spec fn seen(r: Option<&Json>) -> Option<JsonView> {
    match r {
        Some(j) => Some(j.view()),
        None => None,
    }
}

impl Json {
    pub proof fn lemma_array(a: Vec<Json>)
        ensures
            Json::Array(a).view() == JsonView::Array(views(a@)),
    {
        assert(Json::Array(a).view()->Array_0 =~= views(a@));
    }

    pub proof fn lemma_object(f: Vec<(String, Json)>)
        ensures
            Json::Object(f).view() == JsonView::Object(member_views(f@)),
    {
        assert(Json::Object(f).view()->Object_0 =~= member_views(f@));
    }

    /// The member of that name, where this is an object that has one.
    pub fn get(&self, key: &str) -> (r: Option<&Json>)
        ensures
            seen(r) == member(self.view(), key@),
    {
        match self {
            Json::Object(fields) => {
                proof {
                    Json::lemma_object(*fields);
                }
                let ghost all = member_views(fields@);
                assert(all.skip(0) =~= all);
                for i in 0..fields.len()
                    invariant
                        all == member_views(fields@),
                        self.view() == JsonView::Object(all),
                        field(all, key@) == field(all.skip(i as int), key@),
                {
                    assert(all.skip(i as int)[0] == all[i as int]);
                    assert(all.skip(i as int).drop_first() =~= all.skip(i + 1));
                    if same_text(fields[i].0.as_str(), key) {
                        return Some(&fields[i].1);
                    }
                }
                None
            },
            _ => None,
        }
    }

    pub fn is_null(&self) -> (r: bool)
        ensures
            r == (self.view() == JsonView::Null),
    {
        matches!(self, Json::Null)
    }

    /// The truth value, where this is one.
    pub fn as_bool(&self) -> (r: Option<bool>)
        ensures
            r == (match self.view() {
                JsonView::Bool(b) => Some(b),
                _ => None,
            }),
    {
        match self {
            Json::Bool(b) => Some(*b),
            _ => None,
        }
    }

    /// The text, where this is one.
    pub fn as_str(&self) -> (r: Option<&str>)
        ensures
            (match r {
                Some(s) => self.view() == JsonView::Text(s@),
                None => !(self.view() is Text),
            }),
    {
        match self {
            Json::Text(s) => Some(s.as_str()),
            _ => None,
        }
    }

    /// The elements, where this is an array.
    pub fn as_array(&self) -> (r: Option<&Vec<Json>>)
        ensures
            (match r {
                Some(a) => self.view() == JsonView::Array(views(a@)),
                None => !(self.view() is Array),
            }),
    {
        match self {
            Json::Array(a) => {
                proof {
                    Json::lemma_array(*a);
                }
                Some(a)
            },
            _ => None,
        }
    }

    /// Another value like this one.
    pub fn copy(&self) -> (r: Json)
        ensures
            r.view() == self.view(),
        decreases self,
    {
        match self {
            Json::Null => Json::Null,
            Json::Bool(b) => Json::Bool(*b),
            Json::Number(t, n) => Json::Number(t.clone(), *n),
            Json::Text(t) => Json::Text(t.clone()),
            Json::Array(a) => {
                let mut out: Vec<Json> = Vec::new();
                for i in 0..a.len()
                    invariant
                        self == Json::Array(*a),
                        out@.len() == i,
                        forall|k: int| 0 <= k < i ==> (#[trigger] out@[k]).view() == a@[k].view(),
                {
                    proof {
                        assert(decreases_to!(self->Array_0@ => self->Array_0@[i as int]));
                    }
                    let e = a[i].copy();
                    out.push(e);
                }
                proof {
                    Json::lemma_array(out);
                    Json::lemma_array(*a);
                    assert(views(out@) =~= views(a@));
                }
                Json::Array(out)
            },
            Json::Object(f) => {
                let mut out: Vec<(String, Json)> = Vec::new();
                for i in 0..f.len()
                    invariant
                        self == Json::Object(*f),
                        out@.len() == i,
                        forall|k: int|
                            0 <= k < i ==> (#[trigger] out@[k]).0@ == f@[k].0@ && out@[k].1.view()
                                == f@[k].1.view(),
                {
                    proof {
                        assert(decreases_to!(self->Object_0@ => self->Object_0@[i as int]));
                    }
                    let e = f[i].1.copy();
                    out.push((f[i].0.clone(), e));
                }
                proof {
                    Json::lemma_object(out);
                    Json::lemma_object(*f);
                    assert(member_views(out@) =~= member_views(f@));
                }
                Json::Object(out)
            },
        }
    }
}

impl Clone for Json {
    fn clone(&self) -> (r: Json)
        ensures
            r.view() == self.view(),
    {
        self.copy()
    }
}

/// A copy of a list of values.
pub fn copy_all(a: &Vec<Json>) -> (r: Vec<Json>)
    ensures
        views(r@) == views(a@),
{
    let mut out: Vec<Json> = Vec::new();
    for i in 0..a.len()
        invariant
            out@.len() == i,
            forall|k: int| 0 <= k < i ==> (#[trigger] out@[k]).view() == a@[k].view(),
    {
        let e = a[i].copy();
        out.push(e);
    }
    assert(views(out@) =~= views(a@));
    out
}

/// `serde_json::Value`, opaque.
#[verifier::external_type_specification]
#[verifier::external_body]
pub struct ExValue(serde_json::Value);

/// What a `serde_json::Value` holds.
pub uninterp spec fn value_view(v: serde_json::Value) -> JsonView;

/// One level of a `serde_json::Value`.
pub enum Shape {
    Null,
    Bool(bool),
    Number(String, Option<u64>),
    Text(String),
    Array(Vec<serde_json::Value>),
    Object(Vec<(String, serde_json::Value)>),
}

pub open spec fn shape_view(s: Shape) -> JsonView {
    match s {
        Shape::Null => JsonView::Null,
        Shape::Bool(b) => JsonView::Bool(b),
        Shape::Number(t, n) => JsonView::Number(
            t@,
            match n {
                Some(bits) => Some(Num { bits }),
                None => None,
            },
        ),
        Shape::Text(t) => JsonView::Text(t@),
        Shape::Array(a) => JsonView::Array(a@.map_values(|v: serde_json::Value| value_view(v))),
        Shape::Object(f) => JsonView::Object(
            f@.map_values(|p: (String, serde_json::Value)| (p.0@, value_view(p.1))),
        ),
    }
}

/// The variants of `serde_json::Value`, told apart and with their contents moved
/// over: a number as its `to_string` and its `as_f64`, an object as its members
/// in the order of its map. Claims that the parts together are what the value
/// holds, which is what `value_view` names.
#[verifier::external_body]
fn open_value(v: &serde_json::Value) -> (r: Shape)
    ensures
        shape_view(r) == value_view(*v),
{
    match v.clone() {
        serde_json::Value::Null => Shape::Null,
        serde_json::Value::Bool(b) => Shape::Bool(b),
        serde_json::Value::Number(n) => Shape::Number(n.to_string(), n.as_f64().map(|x| x.to_bits())),
        serde_json::Value::String(s) => Shape::Text(s),
        serde_json::Value::Array(a) => Shape::Array(a),
        serde_json::Value::Object(m) => Shape::Object(m.into_iter().collect()),
    }
}

/// What reading a text as JSON gives: the value, or the text of the error.
pub uninterp spec fn parse_outcome(text: Seq<char>) -> Result<JsonView, Seq<char>>;

/// `serde_json::from_str` into a `Value`. Its result, the error taken as its
/// text, depends on the text alone, and `parse_outcome` is the name of it.
#[verifier::external_body]
fn parse_value(text: &str) -> (r: Result<serde_json::Value, String>)
    ensures
        (match r {
            Ok(v) => parse_outcome(text@) == Ok::<JsonView, Seq<char>>(value_view(v)),
            Err(e) => parse_outcome(text@) == Err::<JsonView, Seq<char>>(e@),
        }),
{
    serde_json::from_str(text).map_err(|e| e.to_string())
}

/// The value in the library's own type.
fn read(v: &serde_json::Value) -> (r: Json)
    ensures
        r.view() == value_view(*v),
    decreases value_view(*v),
{
    match open_value(v) {
        Shape::Null => Json::Null,
        Shape::Bool(b) => Json::Bool(b),
        Shape::Number(t, Some(bits)) => Json::Number(t, Some(Num { bits })),
        Shape::Number(t, None) => Json::Number(t, None),
        Shape::Text(t) => Json::Text(t),
        Shape::Array(a) => {
            let ghost s = value_view(*v)->Array_0;
            let mut out: Vec<Json> = Vec::new();
            for i in 0..a.len()
                invariant
                    value_view(*v) == JsonView::Array(s),
                    s == a@.map_values(|v: serde_json::Value| value_view(v)),
                    out@.len() == i,
                    forall|k: int| 0 <= k < i ==> (#[trigger] out@[k]).view() == s[k],
            {
                proof {
                    assert(s[i as int] == value_view(a@[i as int]));
                    assert(decreases_to!(value_view(*v)->Array_0 => value_view(*v)->Array_0[i as int]));
                }
                let e = read(&a[i]);
                out.push(e);
            }
            proof {
                Json::lemma_array(out);
                assert(views(out@) =~= s);
            }
            Json::Array(out)
        },
        Shape::Object(f) => {
            let ghost s = value_view(*v)->Object_0;
            let mut out: Vec<(String, Json)> = Vec::new();
            for i in 0..f.len()
                invariant
                    value_view(*v) == JsonView::Object(s),
                    s == f@.map_values(|p: (String, serde_json::Value)| (p.0@, value_view(p.1))),
                    out@.len() == i,
                    forall|k: int|
                        0 <= k < i ==> (#[trigger] out@[k]).0@ == s[k].0 && out@[k].1.view()
                            == s[k].1,
            {
                proof {
                    assert(s[i as int].1 == value_view(f@[i as int].1));
                    assert(decreases_to!(value_view(*v)->Object_0 => value_view(*v)->Object_0[i as int]));
                }
                let e = read(&f[i].1);
                out.push((f[i].0.clone(), e));
            }
            proof {
                Json::lemma_object(out);
                assert(member_views(out@) =~= s);
            }
            Json::Object(out)
        },
    }
}

/// Reads a text as JSON.
pub fn parse(text: &str) -> (r: Result<Json, String>)
    ensures
        (match r {
            Ok(j) => parse_outcome(text@) == Ok::<JsonView, Seq<char>>(j.view()),
            Err(e) => parse_outcome(text@) == Err::<JsonView, Seq<char>>(e@),
        }),
{
    match parse_value(text) {
        Ok(v) => Ok(read(&v)),
        Err(e) => Err(e),
    }
}

} // verus!
