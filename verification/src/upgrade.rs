//! What a configuration of an older shape says in the current one.
use crate::json::{field_in, fields, json_views, member_of, object, Json, JsonView};
use crate::ordered::{before, less};
use crate::text::eq;
use vstd::prelude::*;
use vstd::string::*;

verus! {

// ---------------------------------------------------------------------------
// Fields
// ---------------------------------------------------------------------------

/// The fields of an object but those with a key.
pub open spec fn without_field(
    v: Seq<(Seq<char>, JsonView)>,
    key: Seq<char>,
) -> Seq<(Seq<char>, JsonView)>
    decreases v.len(),
{
    if v.len() == 0 {
        v
    } else if v[0].0 == key {
        without_field(v.skip(1), key)
    } else {
        seq![v[0]] + without_field(v.skip(1), key)
    }
}

/// Fields with one more, before the first with a later key.
pub open spec fn with_new_field(
    v: Seq<(Seq<char>, JsonView)>,
    key: Seq<char>,
    value: JsonView,
) -> Seq<(Seq<char>, JsonView)>
    decreases v.len(),
{
    if v.len() == 0 || before(key, v[0].0) {
        seq![(key, value)] + v
    } else {
        seq![v[0]] + with_new_field(v.skip(1), key, value)
    }
}

/// Fields with a value for a key, in place of the one that it had.
pub open spec fn with_value(
    v: Seq<(Seq<char>, JsonView)>,
    key: Seq<char>,
    value: JsonView,
) -> Seq<(Seq<char>, JsonView)> {
    with_new_field(without_field(v, key), key, value)
}

/// Takes the value of a key out of an object.
fn take_field(v: Vec<(String, Json)>, key: &str) -> (r: (Option<Json>, Vec<(String, Json)>))
    ensures
        match r.0 {
            Some(value) => field_in(fields(v@), key@) == Some(value@),
            None => field_in(fields(v@), key@) is None,
        },
        fields(r.1@) == without_field(fields(v@), key@),
{
    let ghost all = fields(v@);
    let mut left = v;
    let mut found: Option<Json> = None;
    let mut rest: Vec<(String, Json)> = Vec::new();
    assert(fields(rest@) + without_field(all, key@) =~= without_field(all, key@));
    while left.len() > 0
        invariant
            fields(rest@) + without_field(fields(left@), key@) == without_field(all, key@),
            match found {
                Some(value) => field_in(all, key@) == Some(value@),
                None => field_in(all, key@) == field_in(fields(left@), key@),
            },
        decreases left@.len(),
    {
        let ghost here = fields(left@);
        let ghost kept = fields(rest@);
        let field = left.remove(0);
        assert(here[0] == (field.0@, field.1@));
        assert(fields(left@) =~= here.skip(1));
        if eq(field.0.as_str(), key) {
            if found.is_none() {
                found = Some(field.1);
            }
        } else {
            rest.push(field);
            assert(fields(rest@) =~= kept.push(here[0]));
            assert(kept.push(here[0]) + without_field(here.skip(1), key@) =~= kept + (seq![here[0]]
                + without_field(here.skip(1), key@)));
        }
    }
    assert(without_field(fields(left@), key@) =~= Seq::empty());
    assert(fields(rest@) + Seq::<(Seq<char>, JsonView)>::empty() =~= fields(rest@));
    (found, rest)
}

/// Gives a key a value.
fn put_value(v: Vec<(String, Json)>, key: &str, value: Json) -> (r: Vec<(String, Json)>)
    ensures
        fields(r@) == with_value(fields(v@), key@, value@),
{
    let (_, rest) = take_field(v, key);
    let ghost all = fields(rest@);
    let mut out = rest;
    let mut i: usize = 0;
    assert(all.skip(0) =~= all);
    assert(all.take(0) + with_new_field(all, key@, value@) =~= with_new_field(all, key@, value@));
    while i < out.len() && !less(key, out[i].0.as_str())
        invariant
            i <= out@.len(),
            all == fields(out@),
            all.take(i as int) + with_new_field(all.skip(i as int), key@, value@) == with_new_field(
                all,
                key@,
                value@,
            ),
        decreases out@.len() - i,
    {
        let ghost rest = all.skip(i as int);
        assert(rest[0] == (out@[i as int].0@, out@[i as int].1@));
        assert(rest.skip(1) =~= all.skip(i + 1));
        assert(all.take(i as int) + (seq![rest[0]] + with_new_field(rest.skip(1), key@, value@))
            =~= all.take(i + 1) + with_new_field(all.skip(i + 1), key@, value@));
        i += 1;
    }
    proof {
        let rest = all.skip(i as int);
        if i < out@.len() {
            assert(rest[0] == (out@[i as int].0@, out@[i as int].1@));
        }
        assert(all.take(i as int) + (seq![(key@, value@)] + rest) =~= all.insert(
            i as int,
            (key@, value@),
        ));
    }
    let ghost prior = out@;
    let ghost said = value@;
    out.insert(i, (key.to_owned(), value));
    assert(fields(out@) =~= all.insert(i as int, (key@, said)));
    out
}

/// Whether two values are the same.
pub fn same(a: &Json, b: &Json) -> (r: bool)
    ensures
        r == (a@ == b@),
    decreases a,
{
    match (a, b) {
        (Json::Null, Json::Null) => true,
        (Json::Bool(x), Json::Bool(y)) => *x == *y,
        (Json::Number(x), Json::Number(y)) => eq(x.as_str(), y.as_str()),
        (Json::Text(x), Json::Text(y)) => eq(x.as_str(), y.as_str()),
        (Json::List(v), Json::List(w)) => {
            let ghost left = a@->List_0;
            let ghost right = b@->List_0;
            assert(left =~= json_views(v@) && right =~= json_views(w@));
            if v.len() != w.len() {
                assert(left.len() != right.len());
                return false;
            }
            let mut i: usize = 0;
            while i < v.len()
                invariant
                    i <= v@.len(),
                    v@.len() == w@.len(),
                    *a == Json::List(*v),
                    left == json_views(v@),
                    right == json_views(w@),
                    a@ == JsonView::List(left),
                    b@ == JsonView::List(right),
                    forall|j: int| 0 <= j < i ==> #[trigger] left[j] == right[j],
                decreases v@.len() - i,
            {
                assert(left[i as int] == v@[i as int]@ && right[i as int] == w@[i as int]@);
                if !same(&v[i], &w[i]) {
                    return false;
                }
                i += 1;
            }
            assert(left =~= right);
            true
        },
        (Json::Object(v), Json::Object(w)) => {
            let ghost left = a@->Object_0;
            let ghost right = b@->Object_0;
            assert(left =~= fields(v@) && right =~= fields(w@));
            if v.len() != w.len() {
                assert(left.len() != right.len());
                return false;
            }
            let mut i: usize = 0;
            while i < v.len()
                invariant
                    i <= v@.len(),
                    v@.len() == w@.len(),
                    *a == Json::Object(*v),
                    left == fields(v@),
                    right == fields(w@),
                    a@ == JsonView::Object(left),
                    b@ == JsonView::Object(right),
                    forall|j: int| 0 <= j < i ==> #[trigger] left[j] == right[j],
                decreases v@.len() - i,
            {
                assert(left[i as int] == (v@[i as int].0@, v@[i as int].1@));
                assert(right[i as int] == (w@[i as int].0@, w@[i as int].1@));
                if !eq(v[i].0.as_str(), w[i].0.as_str()) || !same(&v[i].1, &w[i].1) {
                    return false;
                }
                i += 1;
            }
            assert(left =~= right);
            true
        },
        _ => false,
    }
}

// ---------------------------------------------------------------------------
// The section
// ---------------------------------------------------------------------------

/// The table of this tool while it is rewritten, and its new table `lint`.
#[verifier::ext_equal]
pub struct Tables {
    pub top: Seq<(Seq<char>, JsonView)>,
    pub lint: Seq<(Seq<char>, JsonView)>,
}

impl Tables {
    /// The tables after a setting moved into `lint`, where it is there.
    pub open spec fn moved(self, from: Seq<char>, to: Seq<char>) -> Tables {
        match field_in(self.top, from) {
            Some(value) => Tables {
                top: without_field(self.top, from),
                lint: with_value(self.lint, to, value),
            },
            None => self,
        }
    }
}

/// A table with a setting under another name, where it is there.
pub open spec fn renamed(
    v: Seq<(Seq<char>, JsonView)>,
    from: Seq<char>,
    to: Seq<char>,
) -> Seq<(Seq<char>, JsonView)> {
    match field_in(v, from) {
        Some(value) => with_value(without_field(v, from), to, value),
        None => v,
    }
}

/// The table `KIS` with the names of the current shape.
pub open spec fn kis_renamed(value: JsonView) -> JsonView {
    match value {
        JsonView::Object(v) => JsonView::Object(
            renamed(v, "unresolved_level"@, "unresolved-level"@),
        ),
        _ => value,
    }
}

/// A table whose table `KIS` has the names of the current shape.
pub open spec fn with_kis_renamed(v: Seq<(Seq<char>, JsonView)>) -> Seq<(Seq<char>, JsonView)> {
    match field_in(v, "KIS"@) {
        Some(value) => with_value(v, "KIS"@, kis_renamed(value)),
        None => v,
    }
}

/// The settings of this tool once all that moves has moved.
pub open spec fn sorted_out(v: Seq<(Seq<char>, JsonView)>) -> Tables {
    let start = Tables {
        top: with_kis_renamed(renamed(v, "cache_dir"@, "cache-dir"@)),
        lint: Seq::empty(),
    };
    start.moved("select"@, "select"@).moved("ignore"@, "ignore"@).moved("level"@, "level"@).moved(
        "per_file_ignores"@,
        "per-file-ignores"@,
    ).moved("noqa_aliases"@, "noqa-aliases"@).moved("KIS"@, "module-only-imports"@).moved(
        "KPT"@,
        "user-defined-patterns"@,
    )
}

/// The settings of this tool in the current shape: `lint` is there where anything moved into it.
pub open spec fn upgraded_section(v: Seq<(Seq<char>, JsonView)>) -> Seq<(Seq<char>, JsonView)> {
    let t = sorted_out(v);
    if t.lint.len() > 0 {
        with_value(t.top, "lint"@, JsonView::Object(t.lint))
    } else {
        t.top
    }
}

/// A document with the section of this tool in the current shape; `None` where it has no such
/// section.
pub open spec fn upgraded(file_name: Seq<char>, document: JsonView) -> Option<JsonView> {
    if file_name == "pyproject.toml"@ {
        match (document, member_of(document, "tool"@)) {
            (JsonView::Object(v), Some(JsonView::Object(tool))) => match field_in(
                tool,
                "konform"@,
            ) {
                Some(JsonView::Object(section)) => Some(
                    JsonView::Object(
                        with_value(
                            v,
                            "tool"@,
                            JsonView::Object(
                                with_value(
                                    tool,
                                    "konform"@,
                                    JsonView::Object(upgraded_section(section)),
                                ),
                            ),
                        ),
                    ),
                ),
                _ => None,
            },
            _ => None,
        }
    } else {
        match document {
            JsonView::Object(v) => match field_in(v, "konform"@) {
                Some(JsonView::Object(section)) => Some(
                    JsonView::Object(
                        with_value(v, "konform"@, JsonView::Object(upgraded_section(section))),
                    ),
                ),
                Some(_) => None,
                None => Some(JsonView::Object(upgraded_section(v))),
            },
            _ => None,
        }
    }
}

/// Moves a setting into `lint`.
fn move_field(
    top: Vec<(String, Json)>,
    lint: Vec<(String, Json)>,
    from: &str,
    to: &str,
) -> (r: (Vec<(String, Json)>, Vec<(String, Json)>))
    ensures
        (Tables { top: fields(r.0@), lint: fields(r.1@) }) == (Tables {
            top: fields(top@),
            lint: fields(lint@),
        }).moved(from@, to@),
{
    let ghost all = fields(top@);
    let (value, rest) = take_field(top, from);
    match value {
        Some(value) => (rest, put_value(lint, to, value)),
        None => {
            proof {
                lemma_nothing_to_take(all, from@);
            }
            (rest, lint)
        },
    }
}

/// Renames a setting.
fn rename_field(v: Vec<(String, Json)>, from: &str, to: &str) -> (r: Vec<(String, Json)>)
    ensures
        fields(r@) == renamed(fields(v@), from@, to@),
{
    let ghost all = fields(v@);
    let (value, rest) = take_field(v, from);
    match value {
        Some(value) => put_value(rest, to, value),
        None => {
            proof {
                lemma_nothing_to_take(all, from@);
            }
            rest
        },
    }
}

fn rename_in_kis(v: Vec<(String, Json)>) -> (r: Vec<(String, Json)>)
    ensures
        fields(r@) == with_kis_renamed(fields(v@)),
{
    let ghost all = fields(v@);
    let (value, rest) = take_field(v, "KIS");
    match value {
        Some(value) => {
            let new = match value {
                Json::Object(w) => {
                    assert(value@->Object_0 =~= fields(w@));
                    object(rename_field(w, "unresolved_level", "unresolved-level"))
                },
                other => other,
            };
            proof {
                lemma_taken_once(all, "KIS"@);
            }
            put_value(rest, "KIS", new)
        },
        None => {
            proof {
                lemma_nothing_to_take(all, "KIS"@);
            }
            rest
        },
    }
}

/// Brings the settings of this tool into the current shape.
fn upgrade_section(v: Vec<(String, Json)>) -> (r: Vec<(String, Json)>)
    ensures
        fields(r@) == upgraded_section(fields(v@)),
{
    let top = rename_in_kis(rename_field(v, "cache_dir", "cache-dir"));
    let lint: Vec<(String, Json)> = Vec::new();
    assert(fields(lint@) =~= Seq::empty());
    let (top, lint) = move_field(top, lint, "select", "select");
    let (top, lint) = move_field(top, lint, "ignore", "ignore");
    let (top, lint) = move_field(top, lint, "level", "level");
    let (top, lint) = move_field(top, lint, "per_file_ignores", "per-file-ignores");
    let (top, lint) = move_field(top, lint, "noqa_aliases", "noqa-aliases");
    let (top, lint) = move_field(top, lint, "KIS", "module-only-imports");
    let (top, lint) = move_field(top, lint, "KPT", "user-defined-patterns");
    assert(fields(lint@).len() == lint@.len());
    if lint.len() > 0 {
        put_value(top, "lint", object(lint))
    } else {
        top
    }
}

/// The fields of an object.
fn into_fields(j: Json) -> (r: Option<Vec<(String, Json)>>)
    ensures
        match r {
            Some(v) => j@ == JsonView::Object(fields(v@)),
            None => !(j@ is Object),
        },
{
    match j {
        Json::Object(v) => {
            assert(j@->Object_0 =~= fields(v@));
            Some(v)
        },
        _ => None,
    }
}

/// Brings the section of this tool in a document into the current shape.
pub fn upgrade(file_name: &str, document: Json) -> (r: Option<Json>)
    ensures
        match r {
            Some(j) => upgraded(file_name@, document@) == Some(j@),
            None => upgraded(file_name@, document@) is None,
        },
{
    let ghost whole = document@;
    let v = into_fields(document)?;
    let ghost all = fields(v@);
    if eq(file_name, "pyproject.toml") {
        let (tool, others) = take_field(v, "tool");
        let tool = into_fields(tool?)?;
        let ghost tools = fields(tool@);
        let (section, other_tools) = take_field(tool, "konform");
        let section = into_fields(section?)?;
        proof {
            lemma_taken_once(all, "tool"@);
            lemma_taken_once(tools, "konform"@);
        }
        let tool = put_value(other_tools, "konform", object(upgrade_section(section)));
        return Some(object(put_value(others, "tool", object(tool))));
    }
    let (section, others) = take_field(v, "konform");
    match section {
        Some(section) => {
            let section = into_fields(section)?;
            proof {
                lemma_taken_once(all, "konform"@);
            }
            Some(object(put_value(others, "konform", object(upgrade_section(section)))))
        },
        None => {
            proof {
                lemma_nothing_to_take(all, "konform"@);
            }
            Some(object(upgrade_section(others)))
        },
    }
}

// ---------------------------------------------------------------------------
// Laws
// ---------------------------------------------------------------------------

proof fn lemma_nothing_to_take(v: Seq<(Seq<char>, JsonView)>, key: Seq<char>)
    requires
        field_in(v, key) is None,
    ensures
        without_field(v, key) == v,
    decreases v.len(),
{
    if v.len() > 0 {
        lemma_nothing_to_take(v.skip(1), key);
        assert(seq![v[0]] + v.skip(1) =~= v);
    }
}

proof fn lemma_without(v: Seq<(Seq<char>, JsonView)>, key: Seq<char>, k: Seq<char>)
    ensures
        field_in(without_field(v, key), k) == if k == key {
            None
        } else {
            field_in(v, k)
        },
    decreases v.len(),
{
    if v.len() > 0 {
        lemma_without(v.skip(1), key, k);
        let rest = without_field(v.skip(1), key);
        assert((seq![v[0]] + rest).skip(1) =~= rest);
    }
}

/// What was taken out is not there to be taken out again.
proof fn lemma_taken_once(v: Seq<(Seq<char>, JsonView)>, key: Seq<char>)
    ensures
        without_field(without_field(v, key), key) == without_field(v, key),
{
    lemma_without(v, key, key);
    lemma_nothing_to_take(without_field(v, key), key);
}

proof fn lemma_with_new(
    v: Seq<(Seq<char>, JsonView)>,
    key: Seq<char>,
    value: JsonView,
    k: Seq<char>,
)
    requires
        field_in(v, key) is None,
    ensures
        field_in(with_new_field(v, key, value), k) == if k == key {
            Some(value)
        } else {
            field_in(v, k)
        },
        with_new_field(v, key, value).len() == v.len() + 1,
    decreases v.len(),
{
    if v.len() == 0 || before(key, v[0].0) {
        assert((seq![(key, value)] + v).skip(1) =~= v);
    } else {
        lemma_with_new(v.skip(1), key, value, k);
        let rest = with_new_field(v.skip(1), key, value);
        assert((seq![v[0]] + rest).skip(1) =~= rest);
    }
}

/// A key has the value that it was given, and every other key the value that it had.
pub proof fn law_value_is_put(
    v: Seq<(Seq<char>, JsonView)>,
    key: Seq<char>,
    value: JsonView,
    k: Seq<char>,
)
    ensures
        field_in(with_value(v, key, value), k) == if k == key {
            Some(value)
        } else {
            field_in(v, k)
        },
        with_value(v, key, value).len() > 0,
{
    lemma_without(v, key, key);
    lemma_without(v, key, k);
    lemma_with_new(without_field(v, key), key, value, k);
}

proof fn lemma_renamed(
    v: Seq<(Seq<char>, JsonView)>,
    from: Seq<char>,
    to: Seq<char>,
    k: Seq<char>,
)
    requires
        from != to,
    ensures
        field_in(renamed(v, from, to), k) == if field_in(v, from) is Some && k == to {
            field_in(v, from)
        } else if k == from {
            None
        } else {
            field_in(v, k)
        },
{
    if field_in(v, from) is Some {
        lemma_without(v, from, k);
        law_value_is_put(without_field(v, from), to, field_in(v, from)->0, k);
    }
}

proof fn lemma_moved(t: Tables, from: Seq<char>, to: Seq<char>, k: Seq<char>)
    ensures
        field_in(t.moved(from, to).top, k) == if k == from {
            None
        } else {
            field_in(t.top, k)
        },
        field_in(t.moved(from, to).lint, k) == if k == to && field_in(t.top, from) is Some {
            field_in(t.top, from)
        } else {
            field_in(t.lint, k)
        },
        t.moved(from, to).lint.len() > 0 <==> t.lint.len() > 0 || field_in(t.top, from) is Some,
{
    if field_in(t.top, from) is Some {
        lemma_without(t.top, from, k);
        law_value_is_put(t.lint, to, field_in(t.top, from)->0, k);
    }
}

/// Whether a key moves or is renamed.
pub open spec fn is_old(k: Seq<char>) -> bool {
    k == "cache_dir"@ || k == "select"@ || k == "ignore"@ || k == "level"@ || k
        == "per_file_ignores"@ || k == "noqa_aliases"@ || k == "KIS"@ || k == "KPT"@
}

/// Where a setting that moves into `lint` goes.
pub open spec fn new_name(k: Seq<char>) -> Option<Seq<char>> {
    if k == "select"@ || k == "ignore"@ || k == "level"@ {
        Some(k)
    } else if k == "per_file_ignores"@ {
        Some("per-file-ignores"@)
    } else if k == "noqa_aliases"@ {
        Some("noqa-aliases"@)
    } else if k == "KIS"@ {
        Some("module-only-imports"@)
    } else if k == "KPT"@ {
        Some("user-defined-patterns"@)
    } else {
        None
    }
}

proof fn lemma_names()
    ensures
        "cache_dir"@.len() == 9,
        "cache-dir"@.len() == 9,
        "cache_dir"@ != "cache-dir"@,
        "select"@.len() == 6,
        "ignore"@.len() == 6,
        "select"@ != "ignore"@,
        "level"@.len() == 5,
        "lint"@.len() == 4,
        "per_file_ignores"@.len() == 16,
        "per-file-ignores"@.len() == 16,
        "noqa_aliases"@.len() == 12,
        "noqa-aliases"@.len() == 12,
        "KIS"@.len() == 3,
        "KPT"@.len() == 3,
        "KIS"@ != "KPT"@,
        "module-only-imports"@.len() == 19,
        "user-defined-patterns"@.len() == 21,
{
    reveal_strlit("cache_dir");
    reveal_strlit("cache-dir");
    reveal_strlit("select");
    reveal_strlit("ignore");
    reveal_strlit("level");
    reveal_strlit("lint");
    reveal_strlit("per_file_ignores");
    reveal_strlit("per-file-ignores");
    reveal_strlit("noqa_aliases");
    reveal_strlit("noqa-aliases");
    reveal_strlit("KIS");
    reveal_strlit("KPT");
    reveal_strlit("module-only-imports");
    reveal_strlit("user-defined-patterns");
    assert("cache_dir"@[5] == '_' && "cache-dir"@[5] == '-');
    assert("select"@[0] == 's' && "ignore"@[0] == 'i');
    assert("KIS"@[1] == 'I' && "KPT"@[1] == 'P');
}

proof fn lemma_start(v: Seq<(Seq<char>, JsonView)>, k: Seq<char>)
    ensures
        ({
            let top = with_kis_renamed(renamed(v, "cache_dir"@, "cache-dir"@));
            field_in(top, k) == if k == "cache-dir"@ && field_in(v, "cache_dir"@) is Some {
                field_in(v, "cache_dir"@)
            } else if k == "cache_dir"@ {
                None
            } else if k == "KIS"@ && field_in(v, k) is Some {
                Some(kis_renamed(field_in(v, k)->0))
            } else {
                field_in(v, k)
            }
        }),
{
    lemma_names();
    let first = renamed(v, "cache_dir"@, "cache-dir"@);
    lemma_renamed(v, "cache_dir"@, "cache-dir"@, k);
    lemma_renamed(v, "cache_dir"@, "cache-dir"@, "KIS"@);
    if field_in(first, "KIS"@) is Some {
        law_value_is_put(first, "KIS"@, kis_renamed(field_in(first, "KIS"@)->0), k);
    }
}

/// What becomes of a setting, and what is under a name in `lint`.
proof fn lemma_sorted_out(v: Seq<(Seq<char>, JsonView)>, k: Seq<char>, n: Seq<char>)
    ensures
        field_in(sorted_out(v).top, k) == if k == "cache-dir"@ && field_in(v, "cache_dir"@) is Some {
            field_in(v, "cache_dir"@)
        } else if is_old(k) {
            None
        } else {
            field_in(v, k)
        },
        new_name(k) == Some(n) ==> field_in(sorted_out(v).lint, n) == if k == "KIS"@ && field_in(
            v,
            k,
        ) is Some {
            Some(kis_renamed(field_in(v, k)->0))
        } else {
            field_in(v, k)
        },
        new_name(k) is Some && field_in(v, k) is Some ==> sorted_out(v).lint.len() > 0,
        sorted_out(v).lint.len() > 0 ==> field_in(v, "select"@) is Some || field_in(v, "ignore"@)
            is Some || field_in(v, "level"@) is Some || field_in(v, "per_file_ignores"@) is Some
            || field_in(v, "noqa_aliases"@) is Some || field_in(v, "KIS"@) is Some || field_in(
            v,
            "KPT"@,
        ) is Some,
{
    lemma_names();
    let t0 = Tables {
        top: with_kis_renamed(renamed(v, "cache_dir"@, "cache-dir"@)),
        lint: Seq::empty(),
    };
    let t1 = t0.moved("select"@, "select"@);
    let t2 = t1.moved("ignore"@, "ignore"@);
    let t3 = t2.moved("level"@, "level"@);
    let t4 = t3.moved("per_file_ignores"@, "per-file-ignores"@);
    let t5 = t4.moved("noqa_aliases"@, "noqa-aliases"@);
    let t6 = t5.moved("KIS"@, "module-only-imports"@);
    lemma_start(v, k);
    lemma_start(v, "select"@);
    lemma_start(v, "ignore"@);
    lemma_start(v, "level"@);
    lemma_start(v, "per_file_ignores"@);
    lemma_start(v, "noqa_aliases"@);
    lemma_start(v, "KIS"@);
    lemma_start(v, "KPT"@);
    lemma_step(t0, "select"@, "select"@, k, n);
    lemma_step(t1, "ignore"@, "ignore"@, k, n);
    lemma_step(t2, "level"@, "level"@, k, n);
    lemma_step(t3, "per_file_ignores"@, "per-file-ignores"@, k, n);
    lemma_step(t4, "noqa_aliases"@, "noqa-aliases"@, k, n);
    lemma_step(t5, "KIS"@, "module-only-imports"@, k, n);
    lemma_step(t6, "KPT"@, "user-defined-patterns"@, k, n);
}

/// One move, seen from every setting that a later one takes.
proof fn lemma_step(t: Tables, from: Seq<char>, to: Seq<char>, k: Seq<char>, n: Seq<char>)
    ensures
        t.moved(from, to).lint.len() > 0 <==> t.lint.len() > 0 || field_in(t.top, from) is Some,
        field_in(t.moved(from, to).lint, n) == if n == to && field_in(t.top, from) is Some {
            field_in(t.top, from)
        } else {
            field_in(t.lint, n)
        },
        forall|j: Seq<char>| #[trigger]
            field_in(t.moved(from, to).top, j) == if j == from {
                None
            } else {
                field_in(t.top, j)
            },
{
    lemma_moved(t, from, to, k);
    lemma_moved(t, from, to, n);
    assert forall|j: Seq<char>| #[trigger] field_in(t.moved(from, to).top, j) == if j == from {
        None
    } else {
        field_in(t.top, j)
    } by {
        lemma_moved(t, from, to, j);
    }
}

/// Every setting that moves arrives in `lint`, under its new name; in the table of the import rules
/// the name of one setting changes too.
pub proof fn law_moved_settings_arrive(v: Seq<(Seq<char>, JsonView)>, k: Seq<char>)
    requires
        new_name(k) is Some,
        field_in(v, k) is Some,
    ensures
        ({
            let lint = field_in(upgraded_section(v), "lint"@);
            lint is Some && member_of(lint->0, new_name(k)->0) == Some(
                if k == "KIS"@ {
                    kis_renamed(field_in(v, k)->0)
                } else {
                    field_in(v, k)->0
                },
            )
        }),
{
    let t = sorted_out(v);
    lemma_sorted_out(v, k, new_name(k)->0);
    law_value_is_put(t.top, "lint"@, JsonView::Object(t.lint), "lint"@);
}

/// The directory of the cache keeps its setting under its new name.
pub proof fn law_cache_directory_stays(v: Seq<(Seq<char>, JsonView)>)
    requires
        field_in(v, "cache_dir"@) is Some,
    ensures
        field_in(upgraded_section(v), "cache-dir"@) == field_in(v, "cache_dir"@),
{
    let t = sorted_out(v);
    lemma_names();
    lemma_sorted_out(v, "cache-dir"@, ""@);
    law_value_is_put(t.top, "lint"@, JsonView::Object(t.lint), "cache-dir"@);
}

/// Every other setting stays as it is.
pub proof fn law_other_settings_stay(v: Seq<(Seq<char>, JsonView)>, k: Seq<char>)
    requires
        !is_old(k),
        k != "cache-dir"@,
        k != "lint"@,
    ensures
        field_in(upgraded_section(v), k) == field_in(v, k),
{
    let t = sorted_out(v);
    lemma_sorted_out(v, k, ""@);
    law_value_is_put(t.top, "lint"@, JsonView::Object(t.lint), k);
}

/// The current shape is kept: either `lint` is there, or no setting of the older shape is.
pub proof fn law_upgraded_is_current(v: Seq<(Seq<char>, JsonView)>, k: Seq<char>)
    requires
        is_old(k),
        field_in(upgraded_section(v), "lint"@) is None,
    ensures
        field_in(upgraded_section(v), k) is None,
{
    let t = sorted_out(v);
    lemma_names();
    lemma_sorted_out(v, k, ""@);
    law_value_is_put(t.top, "lint"@, JsonView::Object(t.lint), "lint"@);
}

/// In the table of the import rules one setting has a new name and keeps its value; all others stay.
pub proof fn law_import_settings_are_kept(v: Seq<(Seq<char>, JsonView)>, k: Seq<char>)
    requires
        k != "unresolved_level"@,
        k != "unresolved-level"@,
    ensures
        kis_renamed(JsonView::Object(v)) is Object,
        member_of(kis_renamed(JsonView::Object(v)), k) == field_in(v, k),
        field_in(v, "unresolved_level"@) is Some ==> member_of(
            kis_renamed(JsonView::Object(v)),
            "unresolved-level"@,
        ) == field_in(v, "unresolved_level"@),
        field_in(v, "unresolved_level"@) is None ==> kis_renamed(JsonView::Object(v))
            == JsonView::Object(v),
{
    match field_in(v, "unresolved_level"@) {
        Some(value) => {
            let w = without_field(v, "unresolved_level"@);
            law_value_is_put(w, "unresolved-level"@, value, k);
            law_value_is_put(w, "unresolved-level"@, value, "unresolved-level"@);
            lemma_without_others(v, "unresolved_level"@, k);
        },
        None => {},
    }
}

proof fn lemma_without_others(v: Seq<(Seq<char>, JsonView)>, key: Seq<char>, k: Seq<char>)
    requires
        k != key,
    ensures
        field_in(without_field(v, key), k) == field_in(v, k),
    decreases v.len(),
{
    if v.len() > 0 {
        lemma_without_others(v.skip(1), key, k);
        if v[0].0 != key {
            let r = seq![v[0]] + without_field(v.skip(1), key);
            assert(r.skip(1) =~= without_field(v.skip(1), key));
        }
    }
}

} // verus!
