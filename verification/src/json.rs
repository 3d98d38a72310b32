//! JSON documents.
use crate::split::{decimal, number};
use crate::types::opt;
use vstd::prelude::*;
use vstd::string::*;

verus! {

/// A JSON value.
pub enum Json {
    Null,
    Bool(bool),
    /// A number, as it is written.
    Number(String),
    Text(String),
    List(Vec<Json>),
    Object(Vec<(String, Json)>),
}

/// What a [`Json`] says.
pub enum JsonView {
    Null,
    Bool(bool),
    Number(Seq<char>),
    Text(Seq<char>),
    List(Seq<JsonView>),
    Object(Seq<(Seq<char>, JsonView)>),
}

/// What a value says.
pub open spec fn json_view(j: Json) -> JsonView
    decreases j,
{
    match j {
        Json::Null => JsonView::Null,
        Json::Bool(b) => JsonView::Bool(b),
        Json::Number(n) => JsonView::Number(n@),
        Json::Text(t) => JsonView::Text(t@),
        Json::List(v) => JsonView::List(
            Seq::new(
                v@.len(),
                |i: int|
                    if 0 <= i < v@.len() {
                        json_view(v@[i])
                    } else {
                        JsonView::Null
                    },
            ),
        ),
        Json::Object(v) => JsonView::Object(
            Seq::new(
                v@.len(),
                |i: int|
                    if 0 <= i < v@.len() {
                        (v@[i].0@, json_view(v@[i].1))
                    } else {
                        (Seq::empty(), JsonView::Null)
                    },
            ),
        ),
    }
}

impl View for Json {
    type V = JsonView;

    open spec fn view(&self) -> JsonView {
        json_view(*self)
    }
}

/// What several values say.
pub open spec fn json_views(v: Seq<Json>) -> Seq<JsonView> {
    v.map_values(|j: Json| j@)
}

/// What the fields of an object say.
pub open spec fn fields(v: Seq<(String, Json)>) -> Seq<(Seq<char>, JsonView)> {
    v.map_values(|f: (String, Json)| (f.0@, f.1@))
}

/// A list.
pub fn list(v: Vec<Json>) -> (r: Json)
    ensures
        r@ == JsonView::List(json_views(v@)),
{
    let r = Json::List(v);
    assert(r@->List_0 =~= json_views(v@));
    r
}

/// An object.
pub fn object(v: Vec<(String, Json)>) -> (r: Json)
    ensures
        r@ == JsonView::Object(fields(v@)),
{
    let r = Json::Object(v);
    assert(r@->Object_0 =~= fields(v@));
    r
}

/// A number.
pub fn json_number(n: u64) -> (r: Json)
    ensures
        r@ == JsonView::Number(decimal(n as nat)),
{
    Json::Number(number(n))
}

/// A text.
pub fn json_text(t: &str) -> (r: Json)
    ensures
        r@ == JsonView::Text(t@),
{
    Json::Text(t.to_owned())
}

/// A text, or nothing.
pub open spec fn text_or_null(t: Option<Seq<char>>) -> JsonView {
    match t {
        Some(t) => JsonView::Text(t),
        None => JsonView::Null,
    }
}

/// A number, or nothing.
pub open spec fn number_or_null(n: Option<u64>) -> JsonView {
    match n {
        Some(n) => JsonView::Number(decimal(n as nat)),
        None => JsonView::Null,
    }
}

/// A truth value, or nothing.
pub open spec fn bool_or_null(b: Option<bool>) -> JsonView {
    match b {
        Some(b) => JsonView::Bool(b),
        None => JsonView::Null,
    }
}

/// A text, or nothing.
pub fn json_opt_text(t: &Option<String>) -> (r: Json)
    ensures
        r@ == text_or_null(opt(*t)),
{
    match t {
        Some(t) => Json::Text(t.clone()),
        None => Json::Null,
    }
}

/// A number, or nothing.
pub fn json_opt_number(n: Option<u64>) -> (r: Json)
    ensures
        r@ == number_or_null(n),
{
    match n {
        Some(n) => json_number(n),
        None => Json::Null,
    }
}

/// A truth value, or nothing.
pub fn json_opt_bool(b: Option<bool>) -> (r: Json)
    ensures
        r@ == bool_or_null(b),
{
    match b {
        Some(b) => Json::Bool(b),
        None => Json::Null,
    }
}

/// Adds a field behind the others.
pub fn put(v: &mut Vec<(String, Json)>, key: &str, value: Json)
    ensures
        fields(final(v)@) == fields(old(v)@).push((key@, value@)),
{
    let ghost before = v@;
    v.push((key.to_owned(), value));
    assert(fields(v@) =~= fields(before).push((key@, value@)));
}

/// No field yet.
pub fn no_fields() -> (r: Vec<(String, Json)>)
    ensures
        fields(r@) == Seq::<(Seq<char>, JsonView)>::empty(),
{
    let r: Vec<(String, Json)> = Vec::new();
    assert(fields(r@) =~= Seq::<(Seq<char>, JsonView)>::empty());
    r
}

/// No value yet.
pub fn no_values() -> (r: Vec<Json>)
    ensures
        json_views(r@) == Seq::<JsonView>::empty(),
{
    let r: Vec<Json> = Vec::new();
    assert(json_views(r@) =~= Seq::<JsonView>::empty());
    r
}

/// Adds a value behind the others.
pub fn put_value(v: &mut Vec<Json>, value: Json)
    ensures
        json_views(final(v)@) == json_views(old(v)@).push(value@),
{
    let ghost before = v@;
    v.push(value);
    assert(json_views(v@) =~= json_views(before).push(value@));
}

// ---------------------------------------------------------------------------
// Reading
// ---------------------------------------------------------------------------

/// The value of the first field with a key.
pub open spec fn field_in(v: Seq<(Seq<char>, JsonView)>, key: Seq<char>) -> Option<JsonView>
    decreases v.len(),
{
    if v.len() == 0 {
        None
    } else if v[0].0 == key {
        Some(v[0].1)
    } else {
        field_in(v.skip(1), key)
    }
}

/// The value of a field of an object; `None` where there is none, or the value is no object.
pub open spec fn member_of(j: JsonView, key: Seq<char>) -> Option<JsonView> {
    match j {
        JsonView::Object(v) => field_in(v, key),
        _ => None,
    }
}

/// What an optional value says.
pub open spec fn opt_view(j: Option<&Json>) -> Option<JsonView> {
    match j {
        Some(j) => Some(j@),
        None => None,
    }
}

/// The value of a field of an object.
pub fn member<'a>(j: &'a Json, key: &str) -> (r: Option<&'a Json>)
    ensures
        opt_view(r) == member_of(j@, key@),
{
    let v = match j {
        Json::Object(v) => v,
        _ => return None,
    };
    let ghost all = j@->Object_0;
    assert(all =~= fields(v@));
    let mut i: usize = 0;
    assert(all.skip(0) =~= all);
    while i < v.len()
        invariant
            i <= v@.len(),
            all == fields(v@),
            j@ == JsonView::Object(all),
            field_in(all, key@) == field_in(all.skip(i as int), key@),
        decreases v@.len() - i,
    {
        assert(all.skip(i as int)[0] == (v@[i as int].0@, v@[i as int].1@));
        assert(all.skip(i as int).skip(1) =~= all.skip(i + 1));
        if crate::text::eq(v[i].0.as_str(), key) {
            return Some(&v[i].1);
        }
        i += 1;
    }
    None
}

/// The text that a value is.
pub open spec fn text_of(j: JsonView) -> Option<Seq<char>> {
    match j {
        JsonView::Text(t) => Some(t),
        _ => None,
    }
}

/// The text that a value is.
pub fn as_text(j: &Json) -> (r: Option<String>)
    ensures
        opt(r) == text_of(j@),
{
    match j {
        Json::Text(t) => Some(t.clone()),
        _ => None,
    }
}

} // verus!
