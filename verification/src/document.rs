//! Reading typed values out of a document.
use crate::json::{as_text, json_views, member, member_of, text_of, Json, JsonView};
use crate::text::{chars, strs};
use crate::types::opt;
use vstd::prelude::*;
use vstd::string::*;

verus! {

// ---------------------------------------------------------------------------
// Lists of texts
// ---------------------------------------------------------------------------

/// The texts among several values; `None` where one of them is no text.
pub open spec fn all_texts(v: Seq<JsonView>) -> Option<Seq<Seq<char>>>
    decreases v.len(),
{
    if v.len() == 0 {
        Some(Seq::empty())
    } else {
        match (all_texts(v.drop_last()), text_of(v.last())) {
            (Some(before), Some(t)) => Some(before.push(t)),
            _ => None,
        }
    }
}

/// The texts among several values.
pub open spec fn some_texts(v: Seq<JsonView>) -> Seq<Seq<char>>
    decreases v.len(),
{
    if v.len() == 0 {
        Seq::empty()
    } else {
        let before = some_texts(v.drop_last());
        match text_of(v.last()) {
            Some(t) => before.push(t),
            None => before,
        }
    }
}

/// What an optional list of texts says.
pub open spec fn opt_texts(v: Option<Vec<String>>) -> Option<Seq<Seq<char>>> {
    match v {
        Some(v) => Some(strs(v@)),
        None => None,
    }
}

proof fn lemma_no_texts(v: Seq<JsonView>, n: int)
    requires
        0 <= n <= v.len(),
        all_texts(v.take(n)) is None,
    ensures
        all_texts(v) is None,
    decreases v.len() - n,
{
    if n == v.len() {
        assert(v.take(n) =~= v);
    } else {
        assert(v.take(n + 1).drop_last() =~= v.take(n));
        lemma_no_texts(v, n + 1);
    }
}

/// Reads a list of texts; `None` where one of the values is no text.
pub fn read_all_texts(v: &Vec<Json>) -> (r: Option<Vec<String>>)
    ensures
        opt_texts(r) == all_texts(json_views(v@)),
{
    let ghost all = json_views(v@);
    let mut out: Vec<String> = Vec::new();
    let mut i: usize = 0;
    assert(all.take(0) =~= Seq::empty());
    assert(strs(out@) =~= Seq::empty());
    while i < v.len()
        invariant
            i <= v@.len(),
            all == json_views(v@),
            all_texts(all.take(i as int)) == Some(strs(out@)),
        decreases v@.len() - i,
    {
        assert(all.take(i + 1).drop_last() =~= all.take(i as int));
        assert(all.take(i + 1).last() == v@[i as int]@);
        match as_text(&v[i]) {
            Some(t) => {
                let ghost before = out@;
                out.push(t);
                assert(strs(out@) =~= strs(before).push(t@));
            },
            None => {
                proof {
                    lemma_no_texts(all, i + 1);
                }
                return None;
            },
        }
        i += 1;
    }
    assert(all.take(all.len() as int) =~= all);
    Some(out)
}

/// Reads the texts among several values.
pub fn read_some_texts(v: &Vec<Json>) -> (r: Vec<String>)
    ensures
        strs(r@) == some_texts(json_views(v@)),
{
    let ghost all = json_views(v@);
    let mut out: Vec<String> = Vec::new();
    let mut i: usize = 0;
    assert(all.take(0) =~= Seq::empty());
    assert(strs(out@) =~= Seq::empty());
    while i < v.len()
        invariant
            i <= v@.len(),
            all == json_views(v@),
            strs(out@) == some_texts(all.take(i as int)),
        decreases v@.len() - i,
    {
        assert(all.take(i + 1).drop_last() =~= all.take(i as int));
        assert(all.take(i + 1).last() == v@[i as int]@);
        match as_text(&v[i]) {
            Some(t) => {
                let ghost before = out@;
                out.push(t);
                assert(strs(out@) =~= strs(before).push(t@));
            },
            None => {},
        }
        i += 1;
    }
    assert(all.take(all.len() as int) =~= all);
    out
}

/// The list of texts that a value is.
pub open spec fn text_list_of(j: JsonView) -> Option<Seq<Seq<char>>> {
    match j {
        JsonView::List(v) => all_texts(v),
        _ => None,
    }
}

/// The list of texts that a value is.
pub fn as_text_list(j: &Json) -> (r: Option<Vec<String>>)
    ensures
        opt_texts(r) == text_list_of(j@),
{
    match j {
        Json::List(v) => {
            assert(j@->List_0 =~= json_views(v@));
            read_all_texts(v)
        },
        _ => None,
    }
}

/// One text or a list of texts, as a list.
pub open spec fn texts_of(j: JsonView) -> Option<Seq<Seq<char>>> {
    match j {
        JsonView::Text(t) => Some(seq![t]),
        _ => text_list_of(j),
    }
}

/// One text or a list of texts, as a list.
pub fn as_texts(j: &Json) -> (r: Option<Vec<String>>)
    ensures
        opt_texts(r) == texts_of(j@),
{
    match j {
        Json::Text(t) => {
            let mut one: Vec<String> = Vec::new();
            one.push(t.clone());
            assert(strs(one@) =~= seq![t@]);
            Some(one)
        },
        _ => as_text_list(j),
    }
}

// ---------------------------------------------------------------------------
// Fields
// ---------------------------------------------------------------------------

/// What reading a field can give.
pub enum Field<T> {
    Absent,
    Value(T),
    /// The field is there and is something else.
    Wrong,
}

/// The text in a field that may be absent.
pub open spec fn text_field(j: JsonView, key: Seq<char>) -> Field<Seq<char>> {
    match member_of(j, key) {
        Some(JsonView::Null) => Field::Absent,
        Some(v) => match text_of(v) {
            Some(t) => Field::Value(t),
            None => Field::Wrong,
        },
        None => Field::Absent,
    }
}

/// Whether the result of reading a text field is right.
pub open spec fn reads_text(r: Field<String>, f: Field<Seq<char>>) -> bool {
    match r {
        Field::Absent => f is Absent,
        Field::Value(t) => f == Field::<Seq<char>>::Value(t@),
        Field::Wrong => f is Wrong,
    }
}

/// Reads the text in a field that may be absent.
pub fn read_text_field(j: &Json, key: &str) -> (r: Field<String>)
    ensures
        reads_text(r, text_field(j@, key@)),
{
    match member(j, key) {
        Some(v) => match v {
            Json::Null => Field::Absent,
            _ => match as_text(v) {
                Some(t) => Field::Value(t),
                None => Field::Wrong,
            },
        },
        None => Field::Absent,
    }
}

/// The list of texts in a field; an absent list is empty.
pub open spec fn list_field(j: JsonView, key: Seq<char>) -> Option<Seq<Seq<char>>> {
    match member_of(j, key) {
        Some(v) => text_list_of(v),
        None => Some(Seq::empty()),
    }
}

/// Reads the list of texts in a field; an absent list is empty.
pub fn read_list_field(j: &Json, key: &str) -> (r: Option<Vec<String>>)
    ensures
        opt_texts(r) == list_field(j@, key@),
{
    match member(j, key) {
        Some(v) => as_text_list(v),
        None => {
            let none: Vec<String> = Vec::new();
            assert(strs(none@) =~= Seq::empty());
            Some(none)
        },
    }
}

/// The truth value in a field that may be absent.
pub open spec fn bool_field(j: JsonView, key: Seq<char>) -> Field<bool> {
    match member_of(j, key) {
        Some(JsonView::Null) => Field::Absent,
        Some(JsonView::Bool(b)) => Field::Value(b),
        Some(_) => Field::Wrong,
        None => Field::Absent,
    }
}

/// Reads the truth value in a field that may be absent.
pub fn read_bool_field(j: &Json, key: &str) -> (r: Field<bool>)
    ensures
        r == bool_field(j@, key@),
{
    match member(j, key) {
        Some(v) => match v {
            Json::Null => Field::Absent,
            Json::Bool(b) => Field::Value(*b),
            _ => Field::Wrong,
        },
        None => Field::Absent,
    }
}

/// The text in a field; something else counts as absent.
pub open spec fn text_in(j: JsonView, key: Seq<char>) -> Option<Seq<char>> {
    match member_of(j, key) {
        Some(v) => text_of(v),
        None => None,
    }
}

/// Reads the text in a field; something else counts as absent.
pub fn read_text_in(j: &Json, key: &str) -> (r: Option<String>)
    ensures
        opt(r) == text_in(j@, key@),
{
    match member(j, key) {
        Some(v) => as_text(v),
        None => None,
    }
}

/// The texts in a field that is a list; something else counts as absent.
pub open spec fn loose_list_in(j: JsonView, key: Seq<char>) -> Option<Seq<Seq<char>>> {
    match member_of(j, key) {
        Some(JsonView::List(v)) => Some(some_texts(v)),
        _ => None,
    }
}

/// Reads the texts in a field that is a list; something else counts as absent.
pub fn read_loose_list(j: &Json, key: &str) -> (r: Option<Vec<String>>)
    ensures
        opt_texts(r) == loose_list_in(j@, key@),
{
    match member(j, key) {
        Some(value) => match value {
            Json::List(v) => {
                assert(value@->List_0 =~= json_views(v@));
                Some(read_some_texts(v))
            },
            _ => None,
        },
        None => None,
    }
}

// ---------------------------------------------------------------------------
// Numbers
// ---------------------------------------------------------------------------

/// The number that decimal digits stand for; `None` where a character is no digit.
pub open spec fn digits_value(s: Seq<char>) -> Option<nat>
    decreases s.len(),
{
    if s.len() == 0 {
        Some(0)
    } else {
        match digits_value(s.drop_last()) {
            Some(n) => if '0' <= s.last() <= '9' {
                Some((n * 10 + (s.last() as u32 - '0' as u32)) as nat)
            } else {
                None
            },
            None => None,
        }
    }
}

/// The number that a written number stands for, where it is no fraction, not negative and not too
/// large.
pub open spec fn number_value(s: Seq<char>) -> Option<nat> {
    match digits_value(s) {
        Some(n) => if s.len() > 0 && n <= usize::MAX {
            Some(n)
        } else {
            None
        },
        None => None,
    }
}

proof fn lemma_digits_grow(s: Seq<char>, n: int)
    requires
        0 <= n <= s.len(),
    ensures
        digits_value(s.take(n)) is None ==> digits_value(s) is None,
        digits_value(s.take(n)) is Some && digits_value(s) is Some ==> digits_value(s.take(n))->0
            <= digits_value(s)->0,
    decreases s.len() - n,
{
    if n == s.len() {
        assert(s.take(n) =~= s);
    } else {
        assert(s.take(n + 1).drop_last() =~= s.take(n));
        lemma_digits_grow(s, n + 1);
    }
}

/// Reads a written number.
pub fn read_number(text: &str) -> (r: Option<usize>)
    ensures
        match r {
            Some(n) => number_value(text@) == Some(n as nat),
            None => number_value(text@) is None,
        },
{
    let s = chars(text);
    if s.len() == 0 {
        return None;
    }
    let mut n: usize = 0;
    let mut i: usize = 0;
    assert(text@.take(0) =~= Seq::empty());
    while i < s.len()
        invariant
            i <= s@.len(),
            s@ == text@,
            s@.len() > 0,
            digits_value(text@.take(i as int)) == Some(n as nat),
        decreases s@.len() - i,
    {
        assert(text@.take(i + 1).drop_last() =~= text@.take(i as int));
        let c = s[i];
        proof {
            lemma_digits_grow(text@, i + 1);
        }
        if !('0' <= c && c <= '9') {
            return None;
        }
        let d: usize = (c as u32 - '0' as u32) as usize;
        if n > (usize::MAX - d) / 10 {
            return None;
        }
        n = n * 10 + d;
        i += 1;
    }
    assert(text@.take(text@.len() as int) =~= text@);
    Some(n)
}

} // verus!
