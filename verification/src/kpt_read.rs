//! Reading user-defined patterns out of a document.
use crate::document::{
    as_texts, bool_field, opt_texts, read_bool_field, reads_text, texts_of, Field,
};
use crate::json::{json_views, member, member_of, Json, JsonView};
use crate::kpt::{is_yaml, RawPattern, RawSubRule};
use crate::parse::{read_toml, read_yaml, toml_tree, yaml_tree};
use crate::paths::extension_of;
use crate::text::strs;
use crate::types::opt;
use vstd::prelude::*;
use vstd::string::*;

verus! {

/// What a [`RawSubRule`] says.
#[verifier::ext_equal]
pub struct RawSubView {
    pub pattern: Seq<Seq<char>>,
    pub message: Seq<char>,
    pub help: Option<Seq<char>>,
}

/// What a [`RawPattern`] says.
#[verifier::ext_equal]
pub struct RawView {
    pub id: Seq<char>,
    pub message: Seq<char>,
    pub pattern: Seq<Seq<char>>,
    pub files: Seq<Seq<char>>,
    pub level: Option<Seq<char>>,
    pub help: Option<Seq<char>>,
    pub sub_rules: Seq<RawSubView>,
    pub multiline: Option<bool>,
    pub replacement: Option<Seq<char>>,
}

impl View for RawSubRule {
    type V = RawSubView;

    open spec fn view(&self) -> RawSubView {
        RawSubView {
            pattern: strs(self.pattern@),
            message: self.message@,
            help: opt(self.help),
        }
    }
}

/// What several refinements say.
pub open spec fn raw_sub_views(v: Seq<RawSubRule>) -> Seq<RawSubView> {
    v.map_values(|s: RawSubRule| s@)
}

impl View for RawPattern {
    type V = RawView;

    open spec fn view(&self) -> RawView {
        RawView {
            id: self.id@,
            message: self.message@,
            pattern: strs(self.pattern@),
            files: strs(self.files@),
            level: opt(self.level),
            help: opt(self.help),
            sub_rules: raw_sub_views(self.sub_rules@),
            multiline: self.multiline,
            replacement: opt(self.replacement),
        }
    }
}

/// What several patterns say.
pub open spec fn raw_views(v: Seq<RawPattern>) -> Seq<RawView> {
    v.map_values(|p: RawPattern| p@)
}

// ---------------------------------------------------------------------------
// Texts
// ---------------------------------------------------------------------------

/// The text that a value is. YAML takes any value for a text that is neither a list nor a mapping;
/// one that is left out is an empty text.
pub open spec fn scalar_of(j: JsonView, yaml: bool) -> Option<Seq<char>> {
    match j {
        JsonView::Text(t) => Some(t),
        JsonView::Number(n) => if yaml {
            Some(n)
        } else {
            None
        },
        JsonView::Bool(b) => if yaml {
            Some(if b {
                "true"@
            } else {
                "false"@
            })
        } else {
            None
        },
        JsonView::Null => if yaml {
            Some(""@)
        } else {
            None
        },
        _ => None,
    }
}

/// The text that a value is.
fn as_scalar(j: &Json, yaml: bool) -> (r: Option<String>)
    ensures
        opt(r) == scalar_of(j@, yaml),
{
    match j {
        Json::Text(t) => Some(t.clone()),
        Json::Number(n) => if yaml {
            Some(n.clone())
        } else {
            None
        },
        Json::Bool(b) => if yaml {
            Some(
                if *b {
                    "true".to_owned()
                } else {
                    "false".to_owned()
                },
            )
        } else {
            None
        },
        Json::Null => if yaml {
            Some("".to_owned())
        } else {
            None
        },
        _ => None,
    }
}

/// The text in a field that must be there.
pub open spec fn text_at(j: JsonView, key: Seq<char>, yaml: bool) -> Option<Seq<char>> {
    match member_of(j, key) {
        Some(v) => scalar_of(v, yaml),
        None => None,
    }
}

/// Reads the text in a field that must be there.
fn read_text_at(j: &Json, key: &str, yaml: bool) -> (r: Option<String>)
    ensures
        opt(r) == text_at(j@, key@, yaml),
{
    match member(j, key) {
        Some(v) => as_scalar(v, yaml),
        None => None,
    }
}

/// The text in a field that may be absent.
pub open spec fn opt_text_at(j: JsonView, key: Seq<char>, yaml: bool) -> Field<Seq<char>> {
    match member_of(j, key) {
        Some(JsonView::Null) => Field::Absent,
        Some(v) => match scalar_of(v, yaml) {
            Some(t) => Field::Value(t),
            None => Field::Wrong,
        },
        None => Field::Absent,
    }
}

/// Reads the text in a field that may be absent.
fn read_opt_text_at(j: &Json, key: &str, yaml: bool) -> (r: Field<String>)
    ensures
        reads_text(r, opt_text_at(j@, key@, yaml)),
{
    match member(j, key) {
        Some(v) => match v {
            Json::Null => Field::Absent,
            _ => match as_scalar(v, yaml) {
                Some(t) => Field::Value(t),
                None => Field::Wrong,
            },
        },
        None => Field::Absent,
    }
}

/// The list in a field; an absent list is empty. In YAML a list may be left out after its key.
pub open spec fn items_at(j: JsonView, key: Seq<char>, yaml: bool) -> Option<Seq<JsonView>> {
    match member_of(j, key) {
        Some(JsonView::List(v)) => Some(v),
        Some(JsonView::Null) => if yaml {
            Some(Seq::empty())
        } else {
            None
        },
        Some(_) => None,
        None => Some(Seq::empty()),
    }
}

/// What reading a list can give.
enum Items<'a> {
    Empty,
    List(&'a Vec<Json>),
    Wrong,
}

/// Reads the list in a field.
fn read_items_at<'a>(j: &'a Json, key: &str, yaml: bool) -> (r: Items<'a>)
    ensures
        match r {
            Items::Empty => items_at(j@, key@, yaml) == Some(Seq::<JsonView>::empty()),
            Items::List(v) => items_at(j@, key@, yaml) == Some(json_views(v@)),
            Items::Wrong => items_at(j@, key@, yaml) is None,
        },
{
    match member(j, key) {
        Some(value) => match value {
            Json::List(v) => {
                assert(value@->List_0 =~= json_views(v@));
                Items::List(v)
            },
            Json::Null => if yaml {
                Items::Empty
            } else {
                Items::Wrong
            },
            _ => Items::Wrong,
        },
        None => Items::Empty,
    }
}

/// The texts that several values are; `None` where one of them is none.
pub open spec fn all_scalars(v: Seq<JsonView>, yaml: bool) -> Option<Seq<Seq<char>>>
    decreases v.len(),
{
    if v.len() == 0 {
        Some(Seq::empty())
    } else {
        match (all_scalars(v.drop_last(), yaml), scalar_of(v.last(), yaml)) {
            (Some(before), Some(t)) => Some(before.push(t)),
            _ => None,
        }
    }
}

proof fn lemma_no_scalars(v: Seq<JsonView>, yaml: bool, n: int)
    requires
        0 <= n <= v.len(),
        all_scalars(v.take(n), yaml) is None,
    ensures
        all_scalars(v, yaml) is None,
    decreases v.len() - n,
{
    if n == v.len() {
        assert(v.take(n) =~= v);
    } else {
        assert(v.take(n + 1).drop_last() =~= v.take(n));
        lemma_no_scalars(v, yaml, n + 1);
    }
}

/// The texts in a field that is a list.
pub open spec fn texts_at(j: JsonView, key: Seq<char>, yaml: bool) -> Option<Seq<Seq<char>>> {
    match items_at(j, key, yaml) {
        Some(v) => all_scalars(v, yaml),
        None => None,
    }
}

/// Reads the texts in a field that is a list.
fn read_texts_at(j: &Json, key: &str, yaml: bool) -> (r: Option<Vec<String>>)
    ensures
        opt_texts(r) == texts_at(j@, key@, yaml),
{
    let mut out: Vec<String> = Vec::new();
    assert(strs(out@) =~= Seq::empty());
    let v = match read_items_at(j, key, yaml) {
        Items::Empty => return Some(out),
        Items::List(v) => v,
        Items::Wrong => return None,
    };
    let ghost all = json_views(v@);
    let mut i: usize = 0;
    assert(all.take(0) =~= Seq::empty());
    while i < v.len()
        invariant
            i <= v@.len(),
            all == json_views(v@),
            texts_at(j@, key@, yaml) == all_scalars(all, yaml),
            all_scalars(all.take(i as int), yaml) == Some(strs(out@)),
        decreases v@.len() - i,
    {
        assert(all.take(i + 1).drop_last() =~= all.take(i as int));
        assert(all.take(i + 1).last() == v@[i as int]@);
        match as_scalar(&v[i], yaml) {
            Some(t) => {
                let ghost before = out@;
                out.push(t);
                assert(strs(out@) =~= strs(before).push(t@));
            },
            None => {
                proof {
                    lemma_no_scalars(all, yaml, i + 1);
                }
                return None;
            },
        }
        i += 1;
    }
    assert(all.take(all.len() as int) =~= all);
    Some(out)
}

// ---------------------------------------------------------------------------
// Patterns
// ---------------------------------------------------------------------------

/// The texts in a field that must be there: one, or a list. No other value counts as a text.
pub open spec fn patterns_field(j: JsonView) -> Option<Seq<Seq<char>>> {
    match member_of(j, "pattern"@) {
        Some(v) => texts_of(v),
        None => None,
    }
}

fn read_patterns_field(j: &Json) -> (r: Option<Vec<String>>)
    ensures
        opt_texts(r) == patterns_field(j@),
{
    match member(j, "pattern") {
        Some(v) => as_texts(v),
        None => None,
    }
}

/// A field that may be absent as an optional value.
pub open spec fn as_opt<T>(f: Field<T>) -> Option<T> {
    match f {
        Field::Value(v) => Some(v),
        _ => None,
    }
}

/// The refinement that a value is: its pattern and its message must be there.
pub open spec fn sub_rule_in(j: JsonView, yaml: bool) -> Option<RawSubView> {
    let pattern = patterns_field(j);
    let message = text_at(j, "message"@, yaml);
    let help = opt_text_at(j, "help"@, yaml);
    if pattern is Some && message is Some && !(help is Wrong) {
        Some(RawSubView { pattern: pattern->0, message: message->0, help: as_opt(help) })
    } else {
        None
    }
}

/// Reads a refinement.
pub fn read_sub_rule(j: &Json, yaml: bool) -> (r: Option<RawSubRule>)
    ensures
        match r {
            Some(s) => sub_rule_in(j@, yaml) == Some(s@),
            None => sub_rule_in(j@, yaml) is None,
        },
{
    let pattern = match read_patterns_field(j) {
        Some(p) => p,
        None => return None,
    };
    let message = match read_text_at(j, "message", yaml) {
        Some(m) => m,
        None => return None,
    };
    let help = match read_opt_text_at(j, "help", yaml) {
        Field::Value(h) => Some(h),
        Field::Absent => None,
        Field::Wrong => return None,
    };
    Some(RawSubRule { pattern, message, help })
}

/// The refinements that several values are; `None` where one of them is none.
pub open spec fn sub_rules_in(v: Seq<JsonView>, yaml: bool) -> Option<Seq<RawSubView>>
    decreases v.len(),
{
    if v.len() == 0 {
        Some(Seq::empty())
    } else {
        match (sub_rules_in(v.drop_last(), yaml), sub_rule_in(v.last(), yaml)) {
            (Some(before), Some(s)) => Some(before.push(s)),
            _ => None,
        }
    }
}

/// The refinements in a field; absent, there are none.
pub open spec fn sub_rules_field(j: JsonView, yaml: bool) -> Option<Seq<RawSubView>> {
    match items_at(j, "sub_rules"@, yaml) {
        Some(v) => sub_rules_in(v, yaml),
        None => None,
    }
}

proof fn lemma_no_sub_rules(v: Seq<JsonView>, yaml: bool, n: int)
    requires
        0 <= n <= v.len(),
        sub_rules_in(v.take(n), yaml) is None,
    ensures
        sub_rules_in(v, yaml) is None,
    decreases v.len() - n,
{
    if n == v.len() {
        assert(v.take(n) =~= v);
    } else {
        assert(v.take(n + 1).drop_last() =~= v.take(n));
        lemma_no_sub_rules(v, yaml, n + 1);
    }
}

fn read_sub_rules(j: &Json, yaml: bool) -> (r: Option<Vec<RawSubRule>>)
    ensures
        match r {
            Some(v) => sub_rules_field(j@, yaml) == Some(raw_sub_views(v@)),
            None => sub_rules_field(j@, yaml) is None,
        },
{
    let mut out: Vec<RawSubRule> = Vec::new();
    assert(raw_sub_views(out@) =~= Seq::empty());
    let v = match read_items_at(j, "sub_rules", yaml) {
        Items::Empty => return Some(out),
        Items::List(v) => v,
        Items::Wrong => return None,
    };
    let ghost all = json_views(v@);
    let mut i: usize = 0;
    assert(all.take(0) =~= Seq::empty());
    while i < v.len()
        invariant
            i <= v@.len(),
            all == json_views(v@),
            sub_rules_field(j@, yaml) == sub_rules_in(all, yaml),
            sub_rules_in(all.take(i as int), yaml) == Some(raw_sub_views(out@)),
        decreases v@.len() - i,
    {
        assert(all.take(i + 1).drop_last() =~= all.take(i as int));
        assert(all.take(i + 1).last() == v@[i as int]@);
        match read_sub_rule(&v[i], yaml) {
            Some(s) => {
                let ghost before = out@;
                out.push(s);
                assert(raw_sub_views(out@) =~= raw_sub_views(before).push(s@));
            },
            None => {
                proof {
                    lemma_no_sub_rules(all, yaml, i + 1);
                }
                return None;
            },
        }
        i += 1;
    }
    assert(all.take(all.len() as int) =~= all);
    Some(out)
}

/// The pattern that a value is: its id, its message and its pattern must be there, and every
/// other field must be what it should where it is there.
pub open spec fn pattern_in(j: JsonView, yaml: bool) -> Option<RawView> {
    let id = text_at(j, "id"@, yaml);
    let message = text_at(j, "message"@, yaml);
    let pattern = patterns_field(j);
    let files = texts_at(j, "files"@, yaml);
    let level = opt_text_at(j, "level"@, yaml);
    let help = opt_text_at(j, "help"@, yaml);
    let subs = sub_rules_field(j, yaml);
    let multiline = bool_field(j, "multiline"@);
    let replacement = opt_text_at(j, "replacement"@, yaml);
    if id is Some && message is Some && pattern is Some && files is Some && !(level is Wrong)
        && !(help is Wrong) && subs is Some && !(multiline is Wrong) && !(replacement is Wrong) {
        Some(
            RawView {
                id: id->0,
                message: message->0,
                pattern: pattern->0,
                files: files->0,
                level: as_opt(level),
                help: as_opt(help),
                sub_rules: subs->0,
                multiline: as_opt(multiline),
                replacement: as_opt(replacement),
            },
        )
    } else {
        None
    }
}

/// Reads a pattern.
pub fn read_pattern(j: &Json, yaml: bool) -> (r: Option<RawPattern>)
    ensures
        match r {
            Some(p) => pattern_in(j@, yaml) == Some(p@),
            None => pattern_in(j@, yaml) is None,
        },
{
    let id = match read_text_at(j, "id", yaml) {
        Some(t) => t,
        None => return None,
    };
    let message = match read_text_at(j, "message", yaml) {
        Some(t) => t,
        None => return None,
    };
    let pattern = match read_patterns_field(j) {
        Some(p) => p,
        None => return None,
    };
    let files = match read_texts_at(j, "files", yaml) {
        Some(f) => f,
        None => return None,
    };
    let level = match read_opt_text_at(j, "level", yaml) {
        Field::Value(t) => Some(t),
        Field::Absent => None,
        Field::Wrong => return None,
    };
    let help = match read_opt_text_at(j, "help", yaml) {
        Field::Value(t) => Some(t),
        Field::Absent => None,
        Field::Wrong => return None,
    };
    let sub_rules = match read_sub_rules(j, yaml) {
        Some(s) => s,
        None => return None,
    };
    let multiline = match read_bool_field(j, "multiline") {
        Field::Value(b) => Some(b),
        Field::Absent => None,
        Field::Wrong => return None,
    };
    let replacement = match read_opt_text_at(j, "replacement", yaml) {
        Field::Value(t) => Some(t),
        Field::Absent => None,
        Field::Wrong => return None,
    };
    Some(
        RawPattern {
            id,
            message,
            pattern,
            files,
            level,
            help,
            sub_rules,
            multiline,
            replacement,
        },
    )
}

/// The patterns that several values are; `None` where one of them is none.
pub open spec fn all_patterns_in(v: Seq<JsonView>, yaml: bool) -> Option<Seq<RawView>>
    decreases v.len(),
{
    if v.len() == 0 {
        Some(Seq::empty())
    } else {
        match (all_patterns_in(v.drop_last(), yaml), pattern_in(v.last(), yaml)) {
            (Some(before), Some(p)) => Some(before.push(p)),
            _ => None,
        }
    }
}

/// The patterns of a file: a list `rules` in an object. Without the list there are none; a file
/// with a rule that cannot be read is no file of patterns. An empty YAML file holds no pattern.
pub open spec fn file_patterns(j: JsonView, yaml: bool) -> Option<Seq<RawView>> {
    match j {
        JsonView::Object(_) => match items_at(j, "rules"@, yaml) {
            Some(v) => all_patterns_in(v, yaml),
            None => None,
        },
        JsonView::Null => if yaml {
            Some(Seq::empty())
        } else {
            None
        },
        _ => None,
    }
}

proof fn lemma_no_patterns(v: Seq<JsonView>, yaml: bool, n: int)
    requires
        0 <= n <= v.len(),
        all_patterns_in(v.take(n), yaml) is None,
    ensures
        all_patterns_in(v, yaml) is None,
    decreases v.len() - n,
{
    if n == v.len() {
        assert(v.take(n) =~= v);
    } else {
        assert(v.take(n + 1).drop_last() =~= v.take(n));
        lemma_no_patterns(v, yaml, n + 1);
    }
}

/// Reads the patterns of a file.
pub fn read_pattern_file(j: &Json, yaml: bool) -> (r: Option<Vec<RawPattern>>)
    ensures
        match r {
            Some(v) => file_patterns(j@, yaml) == Some(raw_views(v@)),
            None => file_patterns(j@, yaml) is None,
        },
{
    let mut out: Vec<RawPattern> = Vec::new();
    assert(raw_views(out@) =~= Seq::empty());
    match j {
        Json::Object(_) => {},
        Json::Null => return if yaml {
            Some(out)
        } else {
            None
        },
        _ => return None,
    }
    let v = match read_items_at(j, "rules", yaml) {
        Items::Empty => return Some(out),
        Items::List(v) => v,
        Items::Wrong => return None,
    };
    let ghost all = json_views(v@);
    let mut i: usize = 0;
    assert(all.take(0) =~= Seq::empty());
    while i < v.len()
        invariant
            i <= v@.len(),
            all == json_views(v@),
            file_patterns(j@, yaml) == all_patterns_in(all, yaml),
            all_patterns_in(all.take(i as int), yaml) == Some(raw_views(out@)),
        decreases v@.len() - i,
    {
        assert(all.take(i + 1).drop_last() =~= all.take(i as int));
        assert(all.take(i + 1).last() == v@[i as int]@);
        match read_pattern(&v[i], yaml) {
            Some(p) => {
                let ghost before = out@;
                out.push(p);
                assert(raw_views(out@) =~= raw_views(before).push(p@));
            },
            None => {
                proof {
                    lemma_no_patterns(all, yaml, i + 1);
                }
                return None;
            },
        }
        i += 1;
    }
    assert(all.take(all.len() as int) =~= all);
    Some(out)
}

/// The patterns of a pattern file with the given path and text, which is YAML or TOML by the path.
pub open spec fn patterns_of(path: Seq<char>, text: Seq<char>) -> Option<Seq<RawView>> {
    let yaml = extension_of(path) == Some("yaml"@) || extension_of(path) == Some("yml"@);
    let tree = if yaml {
        yaml_tree(text)
    } else {
        toml_tree(text)
    };
    match tree {
        Some(document) => file_patterns(document, yaml),
        None => None,
    }
}

/// Reads the patterns of a pattern file with the given path and text.
pub fn load_from_file(path: &str, content: &str) -> (r: Option<Vec<RawPattern>>)
    ensures
        match r {
            Some(v) => patterns_of(path@, content@) == Some(raw_views(v@)),
            None => patterns_of(path@, content@) is None,
        },
{
    let yaml = is_yaml(path);
    let document = if yaml {
        read_yaml(content)
    } else {
        read_toml(content)
    };
    match document {
        Some(document) => read_pattern_file(&document, yaml),
        None => None,
    }
}

/// What an optional pattern says.
pub open spec fn opt_raw(p: Option<RawPattern>) -> Option<RawView> {
    match p {
        Some(p) => Some(p@),
        None => None,
    }
}

/// The patterns in the table of the rule: each value of its list `rules`, where that can be read.
pub open spec fn inline_patterns(j: JsonView) -> Option<Seq<Option<RawView>>> {
    match member_of(j, "rules"@) {
        Some(JsonView::List(v)) => Some(v.map_values(|x: JsonView| pattern_in(x, false))),
        _ => None,
    }
}

/// What optional patterns say.
pub open spec fn opt_raw_views(v: Seq<Option<RawPattern>>) -> Seq<Option<RawView>> {
    v.map_values(|p: Option<RawPattern>| opt_raw(p))
}

/// Reads the patterns in the table of the rule.
pub fn read_inline_patterns(j: &Json) -> (r: Option<Vec<Option<RawPattern>>>)
    ensures
        match r {
            Some(v) => inline_patterns(j@) == Some(opt_raw_views(v@)),
            None => inline_patterns(j@) is None,
        },
{
    let v = match member(j, "rules") {
        Some(value) => match value {
            Json::List(v) => {
                assert(value@->List_0 =~= json_views(v@));
                v
            },
            _ => return None,
        },
        None => return None,
    };
    let ghost all = json_views(v@).map_values(|x: JsonView| pattern_in(x, false));
    let mut out: Vec<Option<RawPattern>> = Vec::new();
    let mut i: usize = 0;
    assert(opt_raw_views(out@) =~= all.take(0));
    while i < v.len()
        invariant
            i <= v@.len(),
            all == json_views(v@).map_values(|x: JsonView| pattern_in(x, false)),
            opt_raw_views(out@) == all.take(i as int),
        decreases v@.len() - i,
    {
        let p = read_pattern(&v[i], false);
        let ghost said = opt_raw(p);
        assert(said == all[i as int]);
        let ghost before = out@;
        out.push(p);
        assert(opt_raw_views(out@) =~= opt_raw_views(before).push(said));
        assert(all.take(i + 1) =~= all.take(i as int).push(said));
        i += 1;
    }
    assert(all.take(all.len() as int) =~= all);
    Some(out)
}

} // verus!
