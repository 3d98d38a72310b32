//! The comments that the Zuul CI system takes from a run.
use crate::json::{
    bool_or_null, field_in, fields, json_opt_bool, json_opt_number, json_opt_text, json_text,
    json_views, list, member_of, no_fields, no_values, number_or_null, object, put, put_value,
    text_or_null, Json, JsonView,
};
use crate::parse::{as_value, read_yaml, write_yaml, yaml_tree, yamlified};
use crate::report::{file_views, FileRecords, FileView};
use crate::text::{eq, strs};
use crate::types::{opt, Record, RecordView};
use vstd::prelude::*;
use vstd::string::*;

verus! {

// ---------------------------------------------------------------------------
// Comments
// ---------------------------------------------------------------------------

/// The fields of a comment but for its help.
pub open spec fn comment_fields(r: RecordView, message: JsonView) -> Seq<(Seq<char>, JsonView)> {
    seq![
        ("rule"@, text_or_null(r.rule)),
        ("line"@, number_or_null(r.line)),
        ("message"@, message),
        ("level"@, text_or_null(r.level)),
        (
            "range"@,
            JsonView::Object(
                seq![
                    ("start_line"@, number_or_null(r.start_line)),
                    ("start_character"@, number_or_null(r.start_character)),
                    ("end_line"@, number_or_null(r.end_line)),
                    ("end_character"@, number_or_null(r.end_character)),
                ],
            ),
        ),
        ("fixable"@, bool_or_null(r.fixable)),
    ]
}

/// The comment for a finding. Zuul knows no help, so a help text is part of the message.
pub open spec fn comment(r: RecordView) -> JsonView {
    match r.help {
        Some(help) => JsonView::Object(
            comment_fields(
                r,
                match r.message {
                    Some(message) => JsonView::Text(message + " "@ + help),
                    None => JsonView::Null,
                },
            ),
        ),
        None => JsonView::Object(
            comment_fields(r, text_or_null(r.message)).push(("help"@, JsonView::Null)),
        ),
    }
}

/// The comments for a file.
pub open spec fn file_comments(f: FileView) -> (Seq<char>, JsonView) {
    (f.path, JsonView::List(f.records.map_values(|r: RecordView| comment(r))))
}

/// The comments for several files.
pub open spec fn all_comments(files: Seq<FileView>) -> JsonView {
    JsonView::Object(files.map_values(|f: FileView| file_comments(f)))
}

fn write_comment(r: &Record) -> (j: Json)
    ensures
        j@ == comment(r@),
{
    let message = match &r.help {
        Some(help) => match &r.message {
            Some(message) => {
                let mut text = message.clone();
                text.append(" ");
                text.append(help.as_str());
                Json::Text(text)
            },
            None => Json::Null,
        },
        None => json_opt_text(&r.message),
    };
    let ghost said = message@;
    let mut range = no_fields();
    put(&mut range, "start_line", json_opt_number(r.start_line));
    put(&mut range, "start_character", json_opt_number(r.start_character));
    put(&mut range, "end_line", json_opt_number(r.end_line));
    put(&mut range, "end_character", json_opt_number(r.end_character));
    assert(fields(range@) =~= seq![
        ("start_line"@, number_or_null(r.start_line)),
        ("start_character"@, number_or_null(r.start_character)),
        ("end_line"@, number_or_null(r.end_line)),
        ("end_character"@, number_or_null(r.end_character)),
    ]);
    let mut v = no_fields();
    put(&mut v, "rule", json_opt_text(&r.rule));
    put(&mut v, "line", json_opt_number(r.line));
    put(&mut v, "message", message);
    put(&mut v, "level", json_opt_text(&r.level));
    put(&mut v, "range", object(range));
    put(&mut v, "fixable", json_opt_bool(r.fixable));
    assert(fields(v@) =~= comment_fields(r@, said));
    if r.help.is_none() {
        put(&mut v, "help", Json::Null);
    }
    object(v)
}

fn write_file_comments(f: &FileRecords) -> (j: Json)
    ensures
        j@ == file_comments(f@).1,
{
    let ghost values = f@.records.map_values(|r: RecordView| comment(r));
    let mut out = no_values();
    let mut i: usize = 0;
    assert(json_views(out@) =~= values.take(0));
    while i < f.records.len()
        invariant
            i <= f.records@.len(),
            values == f@.records.map_values(|r: RecordView| comment(r)),
            json_views(out@) == values.take(i as int),
        decreases f.records@.len() - i,
    {
        assert(f@.records[i as int] == f.records@[i as int]@);
        put_value(&mut out, write_comment(&f.records[i]));
        assert(json_views(out@) =~= values.take(i + 1));
        i += 1;
    }
    assert(values.take(values.len() as int) =~= values);
    list(out)
}

/// The comments for several files.
pub fn write_comments(files: &Vec<FileRecords>) -> (j: Json)
    ensures
        j@ == all_comments(file_views(files@)),
{
    let ghost values = file_views(files@).map_values(|f: FileView| file_comments(f));
    let mut out = no_fields();
    let mut i: usize = 0;
    assert(fields(out@) =~= values.take(0));
    while i < files.len()
        invariant
            i <= files@.len(),
            values == file_views(files@).map_values(|f: FileView| file_comments(f)),
            fields(out@) == values.take(i as int),
        decreases files@.len() - i,
    {
        assert(file_views(files@)[i as int] == files@[i as int]@);
        put(&mut out, files[i].path.as_str(), write_file_comments(&files[i]));
        assert(fields(out@) =~= values.take(i + 1));
        i += 1;
    }
    assert(values.take(values.len() as int) =~= values);
    object(out)
}

/// Several texts as a list.
pub open spec fn text_list(texts: Seq<Seq<char>>) -> JsonView {
    JsonView::List(texts.map_values(|t: Seq<char>| JsonView::Text(t)))
}

fn write_text_list(texts: &Vec<String>) -> (j: Json)
    ensures
        j@ == text_list(strs(texts@)),
{
    let ghost values = strs(texts@).map_values(|t: Seq<char>| JsonView::Text(t));
    let mut out = no_values();
    let mut i: usize = 0;
    assert(json_views(out@) =~= values.take(0));
    while i < texts.len()
        invariant
            i <= texts@.len(),
            values == strs(texts@).map_values(|t: Seq<char>| JsonView::Text(t)),
            json_views(out@) == values.take(i as int),
        decreases texts@.len() - i,
    {
        assert(strs(texts@)[i as int] == texts@[i as int]@);
        put_value(&mut out, json_text(texts[i].as_str()));
        assert(json_views(out@) =~= values.take(i + 1));
        i += 1;
    }
    assert(values.take(values.len() as int) =~= values);
    list(out)
}

// ---------------------------------------------------------------------------
// Fields of objects
// ---------------------------------------------------------------------------

/// The place of the first field with a key; the number of fields where there is none.
pub open spec fn field_at(v: Seq<(Seq<char>, JsonView)>, key: Seq<char>) -> int
    decreases v.len(),
{
    if v.len() == 0 || v[0].0 == key {
        0
    } else {
        1 + field_at(v.skip(1), key)
    }
}

/// The fields with the value of one set: it keeps its place, or stands behind the others.
pub open spec fn with_field(
    v: Seq<(Seq<char>, JsonView)>,
    key: Seq<char>,
    value: JsonView,
) -> Seq<(Seq<char>, JsonView)> {
    let i = field_at(v, key);
    if i < v.len() {
        v.update(i, (v[i].0, value))
    } else {
        v.push((key, value))
    }
}

/// The value of a field; an empty object where there is none.
pub open spec fn field_or_object(v: Seq<(Seq<char>, JsonView)>, key: Seq<char>) -> JsonView {
    let i = field_at(v, key);
    if i < v.len() {
        v[i].1
    } else {
        JsonView::Object(Seq::empty())
    }
}

fn find_field(v: &Vec<(String, Json)>, key: &str) -> (r: usize)
    ensures
        r == field_at(fields(v@), key@),
        r <= v@.len(),
{
    let ghost all = fields(v@);
    let mut i: usize = 0;
    assert(all.skip(0) =~= all);
    while i < v.len()
        invariant
            i <= v@.len(),
            all == fields(v@),
            field_at(all, key@) == i + field_at(all.skip(i as int), key@),
        decreases v@.len() - i,
    {
        assert(all.skip(i as int)[0] == (v@[i as int].0@, v@[i as int].1@));
        assert(all.skip(i as int).skip(1) =~= all.skip(i + 1));
        if eq(v[i].0.as_str(), key) {
            return i;
        }
        i += 1;
    }
    i
}

fn set_field(v: &mut Vec<(String, Json)>, key: &str, value: Json)
    ensures
        fields(final(v)@) == with_field(fields(old(v)@), key@, value@),
{
    let i: usize = find_field(v, key);
    let ghost before = fields(v@);
    let ghost said = value@;
    if i < v.len() {
        let name = v[i].0.clone();
        let ghost prior = v@;
        v.set(i, (name, value));
        assert(fields(v@) =~= before.update(i as int, (before[i as int].0, said)));
    } else {
        put(v, key, value);
    }
}

/// Takes the object in a field out, with the fields before and the rest; `None` where the field
/// holds something else.
fn take_object(v: &mut Vec<(String, Json)>, key: &str) -> (r: Option<Vec<(String, Json)>>)
    ensures
        match r {
            Some(inner) => field_or_object(fields(old(v)@), key@) == JsonView::Object(
                fields(inner@),
            ) && (forall|value: JsonView| #[trigger]
                with_field(fields(final(v)@), key@, value) == with_field(
                    fields(old(v)@),
                    key@,
                    value,
                )),
            None => !(field_or_object(fields(old(v)@), key@) is Object),
        },
{
    let i: usize = find_field(v, key);
    let ghost before = fields(v@);
    if i >= v.len() {
        return Some(no_fields());
    }
    let ghost prior = v@;
    let (name, value) = v.remove(i);
    v.insert(i, (name, Json::Null));
    let ghost after = fields(v@);
    assert(before[i as int] == (name@, value@));
    assert(after =~= before.update(i as int, (name@, JsonView::Null)));
    proof {
        lemma_field_at_update(before, key@, JsonView::Null);
    }
    assert forall|x: JsonView| #[trigger] with_field(after, key@, x) == with_field(
        before,
        key@,
        x,
    ) by {
        assert(with_field(after, key@, x) =~= with_field(before, key@, x));
    }
    match value {
        Json::Object(inner) => {
            assert(value@->Object_0 =~= fields(inner@));
            Some(inner)
        },
        _ => None,
    }
}

proof fn lemma_field_at_update(v: Seq<(Seq<char>, JsonView)>, key: Seq<char>, value: JsonView)
    requires
        field_at(v, key) < v.len(),
    ensures
        0 <= field_at(v, key),
        v[field_at(v, key)].0 == key,
        field_at(
            v.update(field_at(v, key), (v[field_at(v, key)].0, value)),
            key,
        ) == field_at(v, key),
    decreases v.len(),
{
    let i = field_at(v, key);
    if v[0].0 != key {
        lemma_field_at_update(v.skip(1), key, value);
        let rest = v.skip(1);
        assert(v.update(i, (v[i].0, value)).skip(1) =~= rest.update(i - 1, (rest[i - 1].0, value)));
    }
}

// ---------------------------------------------------------------------------
// Merging
// ---------------------------------------------------------------------------

/// Why the comments cannot be put into a document.
#[derive(Clone, Copy, Debug, PartialEq, Eq, Structural)]
pub enum ZuulError {
    /// `data` is there and is no object.
    DataIsNoObject,
    /// `zuul` is there and is no object.
    ZuulIsNoObject,
}

impl ZuulError {
    /// What the error says.
    pub fn message(self) -> (r: String)
        ensures
            r@ == match self {
                ZuulError::DataIsNoObject => "data is not an object"@,
                ZuulError::ZuulIsNoObject => "zuul is not an object"@,
            },
    {
        match self {
            ZuulError::DataIsNoObject => "data is not an object".to_owned(),
            ZuulError::ZuulIsNoObject => "zuul is not an object".to_owned(),
        }
    }
}

/// The fields of a document; none where it is no object.
pub open spec fn root_fields(existing: JsonView) -> Seq<(Seq<char>, JsonView)> {
    match existing {
        JsonView::Object(f) => f,
        _ => Seq::empty(),
    }
}

/// What Zuul is told: the comments and the warnings, as far as there are any.
pub open spec fn told(
    zuul: Seq<(Seq<char>, JsonView)>,
    files: Seq<FileView>,
    warnings: Seq<Seq<char>>,
) -> Seq<(Seq<char>, JsonView)> {
    let commented = if files.len() == 0 {
        zuul
    } else {
        with_field(zuul, "file_comments"@, all_comments(files))
    };
    if warnings.len() == 0 {
        commented
    } else {
        with_field(commented, "warnings"@, text_list(warnings))
    }
}

/// A document with the comments and the warnings below `data` and `zuul`. All else in it is kept.
pub open spec fn zuul_document(
    existing: JsonView,
    files: Seq<FileView>,
    warnings: Seq<Seq<char>>,
) -> Result<JsonView, ZuulError> {
    let root = root_fields(existing);
    match field_or_object(root, "data"@) {
        JsonView::Object(data) => match field_or_object(data, "zuul"@) {
            JsonView::Object(zuul) => Ok(
                JsonView::Object(
                    with_field(
                        root,
                        "data"@,
                        JsonView::Object(
                            with_field(
                                data,
                                "zuul"@,
                                JsonView::Object(told(zuul, files, warnings)),
                            ),
                        ),
                    ),
                ),
            ),
            _ => Err(ZuulError::ZuulIsNoObject),
        },
        _ => Err(ZuulError::DataIsNoObject),
    }
}

/// Puts the comments and the warnings into a document.
pub fn merge_zuul_return(
    existing: Json,
    comments: &Vec<FileRecords>,
    warnings: &Vec<String>,
) -> (r: Result<Json, ZuulError>)
    ensures
        match r {
            Ok(document) => zuul_document(
                existing@,
                file_views(comments@),
                strs(warnings@),
            ) == Ok::<JsonView, ZuulError>(document@),
            Err(e) => zuul_document(existing@, file_views(comments@), strs(warnings@)) == Err::<
                JsonView,
                ZuulError,
            >(e),
        },
{
    let ghost start = existing@;
    let mut root = match existing {
        Json::Object(v) => {
            assert(start->Object_0 =~= fields(v@));
            v
        },
        _ => no_fields(),
    };
    let ghost root_said = fields(root@);
    assert(root_said =~= root_fields(start));
    let mut data = match take_object(&mut root, "data") {
        Some(data) => data,
        None => return Err(ZuulError::DataIsNoObject),
    };
    let ghost data_said = fields(data@);
    let mut zuul = match take_object(&mut data, "zuul") {
        Some(zuul) => zuul,
        None => return Err(ZuulError::ZuulIsNoObject),
    };
    if comments.len() > 0 {
        set_field(&mut zuul, "file_comments", write_comments(comments));
    }
    if warnings.len() > 0 {
        set_field(&mut zuul, "warnings", write_text_list(warnings));
    }
    set_field(&mut data, "zuul", object(zuul));
    set_field(&mut root, "data", object(data));
    Ok(object(root))
}

/// What the file that Zuul reads says so far: nothing where there is none, or where it is no YAML.
pub open spec fn existing_document(text: Option<Seq<char>>) -> JsonView {
    match text {
        Some(text) => match yaml_tree(text) {
            Some(document) => document,
            None => JsonView::Null,
        },
        None => JsonView::Null,
    }
}

/// The text of the file that Zuul reads with the findings merged into what it says so far.
pub fn write_zuul_return(
    existing: &Option<String>,
    comments: &Vec<FileRecords>,
    warnings: &Vec<String>,
) -> (r: Result<String, ZuulError>)
    ensures
        ({
            let merged = zuul_document(
                existing_document(opt(*existing)),
                file_views(comments@),
                strs(warnings@),
            );
            match r {
                Ok(text) => merged is Ok && text@ == yamlified(as_value(merged->Ok_0)),
                Err(e) => merged == Err::<JsonView, ZuulError>(e),
            }
        }),
{
    let document = match existing {
        Some(text) => match read_yaml(text.as_str()) {
            Some(document) => document,
            None => Json::Null,
        },
        None => Json::Null,
    };
    match merge_zuul_return(document, comments, warnings) {
        Ok(merged) => Ok(write_yaml(&merged)),
        Err(e) => Err(e),
    }
}

/// Setting a field leaves the values of all others.
pub proof fn law_other_fields_stay(
    v: Seq<(Seq<char>, JsonView)>,
    key: Seq<char>,
    value: JsonView,
    other: Seq<char>,
)
    requires
        key != other,
    ensures
        field_or_object(with_field(v, key, value), other) == field_or_object(v, other),
        field_or_object(with_field(v, key, value), key) == value,
    decreases v.len(),
{
    let w = with_field(v, key, value);
    let j = field_at(w, other);
    let k = field_at(v, other);
    lemma_field_at_bounds(w, other);
    lemma_field_at_bounds(v, other);
    if 1 <= j < w.len() {
        assert(w[j] == w.skip(1)[j - 1]);
    }
    if 1 <= k < v.len() {
        assert(v[k] == v.skip(1)[k - 1]);
    }
    if v.len() == 0 {
        assert(w =~= seq![(key, value)]);
        assert(w.skip(1) =~= Seq::empty());
        assert(field_at(w.skip(1), other) == 0);
        assert(w[0].0 != other);
        assert(field_at(w, other) == 1);
    } else if v[0].0 == key {
        assert(w =~= v.update(0, (key, value)));
        assert(w.skip(1) =~= v.skip(1));
        lemma_field_at_bounds(v.skip(1), other);
        assert(j == k);
    } else {
        let rest = v.skip(1);
        law_other_fields_stay(rest, key, value, other);
        lemma_field_at_bounds(rest, key);
        lemma_field_at_bounds(rest, other);
        lemma_field_at_bounds(with_field(rest, key, value), key);
        lemma_field_at_bounds(with_field(rest, key, value), other);
        assert(w.skip(1) =~= with_field(rest, key, value));
        assert(w[0] == v[0]);
        if v[0].0 != other {
            assert(j == 1 + field_at(w.skip(1), other));
            assert(k == 1 + field_at(rest, other));
        }
    }
}

proof fn lemma_field_at_bounds(v: Seq<(Seq<char>, JsonView)>, key: Seq<char>)
    ensures
        0 <= field_at(v, key) <= v.len(),
    decreases v.len(),
{
    if v.len() > 0 && v[0].0 != key {
        lemma_field_at_bounds(v.skip(1), key);
    }
}

/// Merging twice gives what merging once gives.
pub proof fn law_merging_twice_changes_nothing(
    zuul: Seq<(Seq<char>, JsonView)>,
    files: Seq<FileView>,
    warnings: Seq<Seq<char>>,
)
    ensures
        told(told(zuul, files, warnings), files, warnings) == told(zuul, files, warnings),
{
    let once = told(zuul, files, warnings);
    reveal_strlit("file_comments");
    reveal_strlit("warnings");
    assert("file_comments"@.len() != "warnings"@.len());
    if files.len() > 0 {
        let commented = with_field(zuul, "file_comments"@, all_comments(files));
        law_set_again(zuul, "file_comments"@, all_comments(files));
        if warnings.len() > 0 {
            lemma_set_across(
                commented,
                "warnings"@,
                text_list(warnings),
                "file_comments"@,
                all_comments(files),
            );
            law_set_again(commented, "warnings"@, text_list(warnings));
        }
    } else if warnings.len() > 0 {
        law_set_again(zuul, "warnings"@, text_list(warnings));
    }
}

/// Setting a field to the value that it has changes nothing.
pub proof fn law_set_again(v: Seq<(Seq<char>, JsonView)>, key: Seq<char>, value: JsonView)
    ensures
        with_field(with_field(v, key, value), key, value) == with_field(v, key, value),
{
    let w = with_field(v, key, value);
    lemma_field_at_bounds(v, key);
    lemma_set_is_found(v, key, value);
    assert(with_field(w, key, value) =~= w);
}

proof fn lemma_set_is_found(v: Seq<(Seq<char>, JsonView)>, key: Seq<char>, value: JsonView)
    ensures
        ({
            let w = with_field(v, key, value);
            let i = field_at(w, key);
            0 <= i < w.len() && w[i] == (key, value)
        }),
    decreases v.len(),
{
    let w = with_field(v, key, value);
    if v.len() == 0 {
        assert(w =~= seq![(key, value)]);
    } else if v[0].0 == key {
        assert(w =~= v.update(0, (key, value)));
    } else {
        lemma_set_is_found(v.skip(1), key, value);
        lemma_field_at_bounds(v.skip(1), key);
        assert(w.skip(1) =~= with_field(v.skip(1), key, value));
        assert(w[0] == v[0]);
    }
}

/// A field that has a value keeps it when another is set, so setting it again changes nothing.
proof fn lemma_set_across(
    v: Seq<(Seq<char>, JsonView)>,
    key: Seq<char>,
    value: JsonView,
    other: Seq<char>,
    other_value: JsonView,
)
    requires
        key != other,
        with_field(v, other, other_value) == v,
    ensures
        with_field(with_field(v, key, value), other, other_value) == with_field(v, key, value),
    decreases v.len(),
{
    let w = with_field(v, key, value);
    let i = field_at(v, other);
    lemma_field_at_bounds(v, other);
    lemma_field_at_bounds(v, key);
    if i == v.len() {
        assert(with_field(v, other, other_value).len() == v.len() + 1);
    }
    assert(v[i] == (v[i].0, other_value)) by {
        assert(with_field(v, other, other_value)[i] == (v[i].0, other_value));
    }
    lemma_other_place(v, key, value, other);
    lemma_found_key(v, other);
    let k = field_at(v, key);
    if k < v.len() {
        lemma_found_key(v, key);
        assert(k != i);
    }
    assert(w[i] == v[i]);
    assert(with_field(w, other, other_value) =~= w);
}

proof fn lemma_found_key(v: Seq<(Seq<char>, JsonView)>, key: Seq<char>)
    ensures
        0 <= field_at(v, key) <= v.len(),
        field_at(v, key) < v.len() ==> v[field_at(v, key)].0 == key,
    decreases v.len(),
{
    if v.len() > 0 && v[0].0 != key {
        lemma_found_key(v.skip(1), key);
    }
}

proof fn lemma_other_place(
    v: Seq<(Seq<char>, JsonView)>,
    key: Seq<char>,
    value: JsonView,
    other: Seq<char>,
)
    requires
        key != other,
        field_at(v, other) < v.len(),
    ensures
        field_at(with_field(v, key, value), other) == field_at(v, other),
    decreases v.len(),
{
    let w = with_field(v, key, value);
    if v[0].0 == other {
        lemma_found_key(v, key);
        assert(w[0].0 == v[0].0);
    } else if v[0].0 == key {
        assert(w =~= v.update(0, (key, value)));
        assert(w.skip(1) =~= v.skip(1));
    } else {
        lemma_found_key(v.skip(1), key);
        lemma_other_place(v.skip(1), key, value, other);
        assert(w.skip(1) =~= with_field(v.skip(1), key, value));
        assert(w[0] == v[0]);
    }
}

/// A comment gives the rule, the line and the level, and the help behind the message.
pub proof fn law_comments_say_all(r: RecordView, message: Seq<char>)
    requires
        r.message == Some(message),
    ensures
        ({
            let c = comment(r);
            &&& member_of(c, "rule"@) == Some(text_or_null(r.rule))
            &&& member_of(c, "line"@) == Some(number_or_null(r.line))
            &&& member_of(c, "level"@) == Some(text_or_null(r.level))
            &&& r.help is None ==> member_of(c, "message"@) == Some(JsonView::Text(message))
            &&& r.help is Some ==> member_of(c, "message"@) == Some(
                JsonView::Text(message + " "@ + r.help->0),
            )
        }),
{
    reveal_strlit("rule");
    reveal_strlit("line");
    reveal_strlit("message");
    reveal_strlit("level");
    assert("rule"@[0] == 'r' && "line"@[0] == 'l');
    assert("rule"@.len() == 4 && "line"@.len() == 4 && "message"@.len() == 7 && "level"@.len()
        == 5);
    reveal_with_fuel(field_in, 5);
    let v = comment(r)->Object_0;
    assert(v[0].0 == "rule"@ && v[1].0 == "line"@ && v[2].0 == "message"@ && v[3].0 == "level"@);
    assert(v.skip(1)[0] == v[1]);
    assert(v.skip(1).skip(1)[0] == v[2]);
    assert(v.skip(1).skip(1).skip(1)[0] == v[3]);
}

/// Every file has its comments below its path, one for each finding and in order.
pub proof fn law_every_finding_is_a_comment(files: Seq<FileView>, i: int, k: int)
    requires
        0 <= i < files.len(),
        0 <= k < files[i].records.len(),
    ensures
        all_comments(files) is Object,
        all_comments(files)->Object_0.len() == files.len(),
        all_comments(files)->Object_0[i].0 == files[i].path,
        all_comments(files)->Object_0[i].1 is List,
        all_comments(files)->Object_0[i].1->List_0.len() == files[i].records.len(),
        all_comments(files)->Object_0[i].1->List_0[k] == comment(files[i].records[k]),
{
}

proof fn lemma_got_back(v: Seq<(Seq<char>, JsonView)>, key: Seq<char>, value: JsonView)
    ensures
        field_in(with_field(v, key, value), key) == Some(value),
    decreases v.len(),
{
    if v.len() == 0 {
    } else if v[0].0 == key {
    } else {
        let rest = v.skip(1);
        lemma_got_back(rest, key, value);
        lemma_field_at_bounds(rest, key);
        let r = with_field(v, key, value);
        assert(r.skip(1) =~= with_field(rest, key, value)) by {
            if field_at(rest, key) < rest.len() {
                assert(rest[field_at(rest, key)] == v[field_at(rest, key) + 1]);
            }
        }
        assert(r[0] == v[0]);
    }
}

proof fn lemma_others_stay(
    v: Seq<(Seq<char>, JsonView)>,
    key: Seq<char>,
    value: JsonView,
    other: Seq<char>,
)
    requires
        key != other,
    ensures
        field_in(with_field(v, key, value), other) == field_in(v, other),
    decreases v.len(),
{
    let r = with_field(v, key, value);
    if v.len() == 0 {
        assert(r =~= seq![(key, value)]);
        assert(r.skip(1) =~= Seq::empty());
        reveal_with_fuel(field_in, 2);
    } else if v[0].0 == key {
        assert(r.skip(1) =~= v.skip(1));
    } else {
        let rest = v.skip(1);
        lemma_others_stay(rest, key, value, other);
        lemma_field_at_bounds(rest, key);
        assert(r.skip(1) =~= with_field(rest, key, value)) by {
            if field_at(rest, key) < rest.len() {
                assert(rest[field_at(rest, key)] == v[field_at(rest, key) + 1]);
            }
        }
        assert(r[0] == v[0]);
    }
}

/// What Zuul is told has the comments where there are findings, and the warnings where there are
/// any; all else that it was told before stays.
pub proof fn law_comments_and_warnings_are_told(
    zuul: Seq<(Seq<char>, JsonView)>,
    files: Seq<FileView>,
    warnings: Seq<Seq<char>>,
    other: Seq<char>,
)
    ensures
        ({
            let t = JsonView::Object(told(zuul, files, warnings));
            &&& files.len() > 0 ==> member_of(t, "file_comments"@) == Some(all_comments(files))
            &&& files.len() == 0 ==> member_of(t, "file_comments"@) == member_of(
                JsonView::Object(zuul),
                "file_comments"@,
            )
            &&& warnings.len() > 0 ==> member_of(t, "warnings"@) == Some(text_list(warnings))
            &&& warnings.len() == 0 ==> member_of(t, "warnings"@) == member_of(
                JsonView::Object(zuul),
                "warnings"@,
            )
            &&& other != "file_comments"@ && other != "warnings"@ ==> member_of(t, other)
                == member_of(JsonView::Object(zuul), other)
        }),
{
    reveal_strlit("file_comments");
    reveal_strlit("warnings");
    assert("file_comments"@.len() != "warnings"@.len());
    let comments = all_comments(files);
    let list = text_list(warnings);
    lemma_got_back(zuul, "file_comments"@, comments);
    lemma_others_stay(zuul, "file_comments"@, comments, "warnings"@);
    let commented = if files.len() == 0 {
        zuul
    } else {
        with_field(zuul, "file_comments"@, comments)
    };
    lemma_got_back(commented, "warnings"@, list);
    lemma_others_stay(commented, "warnings"@, list, "file_comments"@);
    if other != "file_comments"@ && other != "warnings"@ {
        lemma_others_stay(zuul, "file_comments"@, comments, other);
        lemma_others_stay(commented, "warnings"@, list, other);
    }
}

/// What Zuul is told stands below `data` and `zuul`, on top of what stood there; all else in the
/// document stays. It is refused exactly where one of the two is there and is no object.
pub proof fn law_the_document_is_kept(
    existing: JsonView,
    files: Seq<FileView>,
    warnings: Seq<Seq<char>>,
    other: Seq<char>,
)
    requires
        existing is Object,
        other != "data"@,
    ensures
        ({
            let data = member_of(existing, "data"@);
            let zuul = member_of(data->0, "zuul"@);
            let r = zuul_document(existing, files, warnings);
            &&& data is Some && !(data->0 is Object) ==> r == Err::<JsonView, ZuulError>(
                ZuulError::DataIsNoObject,
            )
            &&& data is Some && data->0 is Object && zuul is Some && !(zuul->0 is Object) ==> r
                == Err::<JsonView, ZuulError>(ZuulError::ZuulIsNoObject)
            &&& r is Ok ==> member_of(r->Ok_0, other) == member_of(existing, other)
            &&& data is Some && data->0 is Object && zuul is Some && zuul->0 is Object ==> r is Ok
                && member_of(r->Ok_0, "data"@) is Some && member_of(
                member_of(r->Ok_0, "data"@)->0,
                "zuul"@,
            ) == Some(JsonView::Object(told(zuul->0->Object_0, files, warnings)))
            &&& data is None ==> r is Ok && member_of(r->Ok_0, "data"@) is Some && member_of(
                member_of(r->Ok_0, "data"@)->0,
                "zuul"@,
            ) == Some(JsonView::Object(told(Seq::empty(), files, warnings)))
        }),
{
    let root = existing->Object_0;
    lemma_found(root, "data"@);
    let d = field_or_object(root, "data"@);
    if d is Object {
        let data = d->Object_0;
        lemma_found(data, "zuul"@);
        let z = field_or_object(data, "zuul"@);
        if z is Object {
            let inner = JsonView::Object(told(z->Object_0, files, warnings));
            lemma_got_back(data, "zuul"@, inner);
            let outer = JsonView::Object(with_field(data, "zuul"@, inner));
            lemma_got_back(root, "data"@, outer);
            lemma_others_stay(root, "data"@, outer, other);
        }
    }
}

proof fn lemma_found(v: Seq<(Seq<char>, JsonView)>, key: Seq<char>)
    ensures
        field_in(v, key) is Some ==> field_or_object(v, key) == field_in(v, key)->0,
        field_in(v, key) is None ==> field_or_object(v, key) == JsonView::Object(Seq::empty()),
    decreases v.len(),
{
    if v.len() > 0 && v[0].0 != key {
        let rest = v.skip(1);
        lemma_found(rest, key);
        lemma_field_at_bounds(rest, key);
        if field_at(rest, key) < rest.len() {
            assert(rest[field_at(rest, key)] == v[field_at(rest, key) + 1]);
        }
    }
}

} // verus!
