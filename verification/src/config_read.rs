//! Reading the configuration out of a document.
use crate::config::{
    default_src, lemma_table_index, make_default_src, table_index, table_of, Config, Kis002Table,
    KptTable, LintConfig, RuleTable,
};
use crate::document::{
    as_text_list, list_field, loose_list_in, number_value, read_list_field, read_loose_list,
    read_number, read_text_field, read_text_in, text_field, text_in, text_list_of, Field,
};
use crate::json::{as_text, fields, json_views, member, member_of, opt_view, text_of, Json, JsonView};
use crate::kis001::Kis001Table;
use crate::kpt::{resolve_path, resolved, PatternSources, RawPattern};
use crate::kpt_read::{inline_patterns, opt_raw_views, read_inline_patterns, RawView};
use crate::noqa::pairs;
use crate::parse::{opt_tree, read_toml, toml_tree};
use crate::text::{eq, strs};
use crate::types::{opt, Level};
use vstd::prelude::*;
use vstd::string::*;

verus! {

// ---------------------------------------------------------------------------
// What the tables say
// ---------------------------------------------------------------------------

/// What a [`RuleTable`] says.
#[verifier::ext_equal]
#[allow(inconsistent_fields)]
pub enum TableView {
    ModuleOnlyImports {
        exceptions: Option<Seq<Option<Seq<char>>>>,
        level: Option<Seq<char>>,
        unresolved_level: Option<Seq<char>>,
    },
    UnnecessaryImportAlias { level: Option<Level> },
    UserDefinedPatterns {
        level: Option<Seq<char>>,
        rules_file: Option<Seq<char>>,
        inline: Option<Seq<Option<RawView>>>,
    },
    Empty,
}

/// What optional texts say.
pub open spec fn maybe_texts(v: Seq<Option<String>>) -> Seq<Option<Seq<char>>> {
    v.map_values(|t: Option<String>| opt(t))
}

/// What an optional list of optional texts says.
pub open spec fn opt_maybe_texts(v: Option<Vec<Option<String>>>) -> Option<Seq<Option<Seq<char>>>> {
    match v {
        Some(v) => Some(maybe_texts(v@)),
        None => None,
    }
}

impl View for RuleTable {
    type V = TableView;

    /// The patterns of files are not part of the table.
    open spec fn view(&self) -> TableView {
        match self {
            RuleTable::ModuleOnlyImports(t) => TableView::ModuleOnlyImports {
                exceptions: opt_maybe_texts(t.exceptions),
                level: opt(t.level),
                unresolved_level: opt(t.unresolved_level),
            },
            RuleTable::UnnecessaryImportAlias(t) => TableView::UnnecessaryImportAlias {
                level: t.level,
            },
            RuleTable::UserDefinedPatterns(t) => TableView::UserDefinedPatterns {
                level: opt(t.level),
                rules_file: opt(t.rules_file),
                inline: match t.sources.inline {
                    Some(v) => Some(opt_raw_views(v@)),
                    None => None,
                },
            },
            RuleTable::Empty => TableView::Empty,
        }
    }
}

/// What several tables with names say.
pub open spec fn table_views(v: Seq<(String, RuleTable)>) -> Seq<(Seq<char>, TableView)> {
    v.map_values(|t: (String, RuleTable)| (t.0@, t.1@))
}

/// What several lists with names say.
pub open spec fn named_lists(v: Seq<(String, Vec<String>)>) -> Seq<(Seq<char>, Seq<Seq<char>>)> {
    v.map_values(|l: (String, Vec<String>)| (l.0@, strs(l.1@)))
}

/// What a [`LintConfig`] says.
#[verifier::ext_equal]
pub struct LintView {
    pub select: Seq<Seq<char>>,
    pub ignore: Seq<Seq<char>>,
    pub level: Level,
    pub per_file_ignores: Seq<(Seq<char>, Seq<Seq<char>>)>,
    pub noqa_aliases: Seq<(Seq<char>, Seq<char>)>,
    pub rules: Seq<(Seq<char>, TableView)>,
}

impl View for LintConfig {
    type V = LintView;

    open spec fn view(&self) -> LintView {
        LintView {
            select: strs(self.select@),
            ignore: strs(self.ignore@),
            level: self.level,
            per_file_ignores: named_lists(self.per_file_ignores@),
            noqa_aliases: pairs(self.noqa_aliases@),
            rules: table_views(self.rules@),
        }
    }
}

/// The settings that a configuration file gives.
#[verifier::ext_equal]
pub struct SettingsView {
    pub cache_dir: Seq<char>,
    pub workers: nat,
    pub lint: LintView,
    pub python: Option<Seq<char>>,
}

/// The settings of a configuration that a file gives.
pub open spec fn settings_of(c: Config) -> SettingsView {
    SettingsView {
        cache_dir: c.cache_dir@,
        workers: c.workers as nat,
        lint: c.lint@,
        python: opt(c.python),
    }
}

/// The settings without a file.
pub open spec fn default_lint() -> LintView {
    LintView {
        select: Seq::empty(),
        ignore: Seq::empty(),
        level: Level::Error,
        per_file_ignores: Seq::empty(),
        noqa_aliases: Seq::empty(),
        rules: Seq::empty(),
    }
}

/// The settings without a file.
pub open spec fn default_settings() -> SettingsView {
    SettingsView {
        cache_dir: ".konform_cache"@,
        workers: 0,
        lint: default_lint(),
        python: None,
    }
}

// ---------------------------------------------------------------------------
// Rule tables
// ---------------------------------------------------------------------------

/// The level that a name gives exactly.
pub fn level_named(name: &str) -> (r: Option<Level>)
    ensures
        r == Level::named(name@),
{
    if eq(name, "warning") {
        Some(Level::Warning)
    } else if eq(name, "error") {
        Some(Level::Error)
    } else {
        None
    }
}

/// The exceptions in a table: each value of the list, where it is a text.
pub open spec fn exceptions_in(j: JsonView) -> Option<Seq<Option<Seq<char>>>> {
    match member_of(j, "exceptions"@) {
        Some(JsonView::List(v)) => Some(v.map_values(|x: JsonView| text_of(x))),
        _ => None,
    }
}

fn read_exceptions(j: &Json) -> (r: Option<Vec<Option<String>>>)
    ensures
        opt_maybe_texts(r) == exceptions_in(j@),
{
    let v = match member(j, "exceptions") {
        Some(value) => match value {
            Json::List(v) => {
                assert(value@->List_0 =~= json_views(v@));
                v
            },
            _ => return None,
        },
        None => return None,
    };
    let ghost all = json_views(v@).map_values(|x: JsonView| text_of(x));
    let mut out: Vec<Option<String>> = Vec::new();
    let mut i: usize = 0;
    assert(maybe_texts(out@) =~= all.take(0));
    while i < v.len()
        invariant
            i <= v@.len(),
            all == json_views(v@).map_values(|x: JsonView| text_of(x)),
            maybe_texts(out@) == all.take(i as int),
        decreases v@.len() - i,
    {
        let t = as_text(&v[i]);
        let ghost said = opt(t);
        assert(said == all[i as int]);
        let ghost before = out@;
        out.push(t);
        assert(maybe_texts(out@) =~= maybe_texts(before).push(said));
        assert(all.take(i + 1) =~= all.take(i as int).push(said));
        i += 1;
    }
    assert(all.take(all.len() as int) =~= all);
    Some(out)
}

/// The table of the rule with the configuration name `name`. A table of another name is that of
/// no rule.
pub open spec fn table_in(name: Seq<char>, j: JsonView) -> TableView {
    if name == "module-only-imports"@ {
        TableView::ModuleOnlyImports {
            exceptions: exceptions_in(j),
            level: text_in(j, "level"@),
            unresolved_level: match text_in(j, "unresolved-level"@) {
                Some(t) => Some(t),
                None => text_in(j, "unresolved_level"@),
            },
        }
    } else if name == "unnecessary-import-alias"@ {
        TableView::UnnecessaryImportAlias {
            level: match text_in(j, "level"@) {
                Some(t) => Level::named(t),
                None => None,
            },
        }
    } else if name == "user-defined-patterns"@ {
        TableView::UserDefinedPatterns {
            level: text_in(j, "level"@),
            rules_file: text_in(j, "rules_file"@),
            inline: inline_patterns(j),
        }
    } else {
        TableView::Empty
    }
}

/// Reads the table of the rule with the configuration name `name`.
pub fn read_table(name: &str, j: &Json) -> (r: RuleTable)
    ensures
        r@ == table_in(name@, j@),
        match r {
            RuleTable::UserDefinedPatterns(t) => t.sources.rules_file is None
                && t.sources.toml_file is None && t.sources.yaml_file is None,
            _ => true,
        },
{
    if eq(name, "module-only-imports") {
        let unresolved_level = match read_text_in(j, "unresolved-level") {
            Some(t) => Some(t),
            None => read_text_in(j, "unresolved_level"),
        };
        RuleTable::ModuleOnlyImports(
            Kis001Table {
                exceptions: read_exceptions(j),
                level: read_text_in(j, "level"),
                unresolved_level,
            },
        )
    } else if eq(name, "unnecessary-import-alias") {
        let level = match read_text_in(j, "level") {
            Some(t) => level_named(t.as_str()),
            None => None,
        };
        RuleTable::UnnecessaryImportAlias(Kis002Table { level })
    } else if eq(name, "user-defined-patterns") {
        let level = read_text_in(j, "level");
        let rules_file = read_text_in(j, "rules_file");
        let inline = read_inline_patterns(j);
        RuleTable::UserDefinedPatterns(
            KptTable {
                level,
                rules_file,
                sources: PatternSources {
                    inline,
                    rules_file: None,
                    toml_file: None,
                    yaml_file: None,
                },
            },
        )
    } else {
        RuleTable::Empty
    }
}

// ---------------------------------------------------------------------------
// The `lint` table
// ---------------------------------------------------------------------------

/// Whether a key of the `lint` table is a setting of its own and no rule's table.
pub open spec fn is_lint_key(key: Seq<char>) -> bool {
    key == "select"@ || key == "ignore"@ || key == "level"@ || key == "per-file-ignores"@ || key
        == "noqa-aliases"@
}

fn check_lint_key(key: &str) -> (r: bool)
    ensures
        r == is_lint_key(key@),
{
    eq(key, "select") || eq(key, "ignore") || eq(key, "level") || eq(key, "per-file-ignores") || eq(
        key,
        "noqa-aliases",
    )
}

/// The rules' tables among the fields of the `lint` table.
pub open spec fn tables_in(v: Seq<(Seq<char>, JsonView)>) -> Seq<(Seq<char>, TableView)>
    decreases v.len(),
{
    if v.len() == 0 {
        Seq::empty()
    } else {
        let before = tables_in(v.drop_last());
        let f = v.last();
        if is_lint_key(f.0) {
            before
        } else {
            before.push((f.0, table_in(f.0, f.1)))
        }
    }
}

fn read_tables(v: &Vec<(String, Json)>) -> (r: Vec<(String, RuleTable)>)
    ensures
        table_views(r@) == tables_in(fields(v@)),
{
    let ghost all = fields(v@);
    let mut out: Vec<(String, RuleTable)> = Vec::new();
    let mut i: usize = 0;
    assert(all.take(0) =~= Seq::empty());
    assert(table_views(out@) =~= tables_in(all.take(0)));
    while i < v.len()
        invariant
            i <= v@.len(),
            all == fields(v@),
            table_views(out@) == tables_in(all.take(i as int)),
        decreases v@.len() - i,
    {
        assert(all.take(i + 1).drop_last() =~= all.take(i as int));
        assert(all.take(i + 1).last() == (v@[i as int].0@, v@[i as int].1@));
        if !check_lint_key(v[i].0.as_str()) {
            let table = read_table(v[i].0.as_str(), &v[i].1);
            let name = v[i].0.clone();
            let ghost before = out@;
            let ghost said = (name@, table@);
            out.push((name, table));
            assert(table_views(out@) =~= table_views(before).push(said));
        }
        i += 1;
    }
    assert(all.take(all.len() as int) =~= all);
    out
}

/// The lists of texts by name that fields are; `None` where one of them is no list of texts.
pub open spec fn lists_in(v: Seq<(Seq<char>, JsonView)>) -> Option<
    Seq<(Seq<char>, Seq<Seq<char>>)>,
>
    decreases v.len(),
{
    if v.len() == 0 {
        Some(Seq::empty())
    } else {
        match (lists_in(v.drop_last()), text_list_of(v.last().1)) {
            (Some(before), Some(t)) => Some(before.push((v.last().0, t))),
            _ => None,
        }
    }
}

/// The lists by name in a field; absent, there are none.
pub open spec fn lists_field(j: JsonView, key: Seq<char>) -> Option<
    Seq<(Seq<char>, Seq<Seq<char>>)>,
> {
    match member_of(j, key) {
        Some(JsonView::Object(v)) => lists_in(v),
        Some(_) => None,
        None => Some(Seq::empty()),
    }
}

proof fn lemma_no_lists(v: Seq<(Seq<char>, JsonView)>, n: int)
    requires
        0 <= n <= v.len(),
        lists_in(v.take(n)) is None,
    ensures
        lists_in(v) is None,
    decreases v.len() - n,
{
    if n == v.len() {
        assert(v.take(n) =~= v);
    } else {
        assert(v.take(n + 1).drop_last() =~= v.take(n));
        lemma_no_lists(v, n + 1);
    }
}

fn read_lists_field(j: &Json, key: &str) -> (r: Option<Vec<(String, Vec<String>)>>)
    ensures
        match r {
            Some(v) => lists_field(j@, key@) == Some(named_lists(v@)),
            None => lists_field(j@, key@) is None,
        },
{
    let mut out: Vec<(String, Vec<String>)> = Vec::new();
    assert(named_lists(out@) =~= Seq::empty());
    let v = match member(j, key) {
        Some(value) => match value {
            Json::Object(v) => {
                assert(value@->Object_0 =~= fields(v@));
                v
            },
            _ => return None,
        },
        None => return Some(out),
    };
    let ghost all = fields(v@);
    let mut i: usize = 0;
    assert(all.take(0) =~= Seq::empty());
    while i < v.len()
        invariant
            i <= v@.len(),
            all == fields(v@),
            lists_field(j@, key@) == lists_in(all),
            lists_in(all.take(i as int)) == Some(named_lists(out@)),
        decreases v@.len() - i,
    {
        assert(all.take(i + 1).drop_last() =~= all.take(i as int));
        assert(all.take(i + 1).last() == (v@[i as int].0@, v@[i as int].1@));
        match as_text_list(&v[i].1) {
            Some(t) => {
                let name = v[i].0.clone();
                let ghost before = out@;
                let ghost said = (name@, strs(t@));
                out.push((name, t));
                assert(named_lists(out@) =~= named_lists(before).push(said));
            },
            None => {
                proof {
                    lemma_no_lists(all, i + 1);
                }
                return None;
            },
        }
        i += 1;
    }
    assert(all.take(all.len() as int) =~= all);
    Some(out)
}

/// The texts by name that fields are; `None` where one of them is no text.
pub open spec fn texts_in(v: Seq<(Seq<char>, JsonView)>) -> Option<Seq<(Seq<char>, Seq<char>)>>
    decreases v.len(),
{
    if v.len() == 0 {
        Some(Seq::empty())
    } else {
        match (texts_in(v.drop_last()), text_of(v.last().1)) {
            (Some(before), Some(t)) => Some(before.push((v.last().0, t))),
            _ => None,
        }
    }
}

/// The texts by name in a field; absent, there are none.
pub open spec fn texts_field(j: JsonView, key: Seq<char>) -> Option<Seq<(Seq<char>, Seq<char>)>> {
    match member_of(j, key) {
        Some(JsonView::Object(v)) => texts_in(v),
        Some(_) => None,
        None => Some(Seq::empty()),
    }
}

proof fn lemma_no_named_texts(v: Seq<(Seq<char>, JsonView)>, n: int)
    requires
        0 <= n <= v.len(),
        texts_in(v.take(n)) is None,
    ensures
        texts_in(v) is None,
    decreases v.len() - n,
{
    if n == v.len() {
        assert(v.take(n) =~= v);
    } else {
        assert(v.take(n + 1).drop_last() =~= v.take(n));
        lemma_no_named_texts(v, n + 1);
    }
}

fn read_texts_field(j: &Json, key: &str) -> (r: Option<Vec<(String, String)>>)
    ensures
        match r {
            Some(v) => texts_field(j@, key@) == Some(pairs(v@)),
            None => texts_field(j@, key@) is None,
        },
{
    let mut out: Vec<(String, String)> = Vec::new();
    assert(pairs(out@) =~= Seq::empty());
    let v = match member(j, key) {
        Some(value) => match value {
            Json::Object(v) => {
                assert(value@->Object_0 =~= fields(v@));
                v
            },
            _ => return None,
        },
        None => return Some(out),
    };
    let ghost all = fields(v@);
    let mut i: usize = 0;
    assert(all.take(0) =~= Seq::empty());
    while i < v.len()
        invariant
            i <= v@.len(),
            all == fields(v@),
            texts_field(j@, key@) == texts_in(all),
            texts_in(all.take(i as int)) == Some(pairs(out@)),
        decreases v@.len() - i,
    {
        assert(all.take(i + 1).drop_last() =~= all.take(i as int));
        assert(all.take(i + 1).last() == (v@[i as int].0@, v@[i as int].1@));
        match as_text(&v[i].1) {
            Some(t) => {
                let name = v[i].0.clone();
                let ghost before = out@;
                let ghost said = (name@, t@);
                out.push((name, t));
                assert(pairs(out@) =~= pairs(before).push(said));
            },
            None => {
                proof {
                    lemma_no_named_texts(all, i + 1);
                }
                return None;
            },
        }
        i += 1;
    }
    assert(all.take(all.len() as int) =~= all);
    Some(out)
}

/// The level in a field, named exactly; absent, it is that of an error.
pub open spec fn level_field(j: JsonView) -> Option<Level> {
    match text_field(j, "level"@) {
        Field::Value(t) => Level::named(t),
        Field::Absent => Some(Level::Error),
        Field::Wrong => None,
    }
}

fn read_level_field(j: &Json) -> (r: Option<Level>)
    ensures
        r == level_field(j@),
{
    match read_text_field(j, "level") {
        Field::Value(t) => level_named(t.as_str()),
        Field::Absent => Some(Level::Error),
        Field::Wrong => None,
    }
}

/// What the `lint` table says; `None` where a setting in it is not what it should be.
pub open spec fn lint_in(j: JsonView) -> Option<LintView> {
    let select = list_field(j, "select"@);
    let ignore = list_field(j, "ignore"@);
    let level = level_field(j);
    let per_file = lists_field(j, "per-file-ignores"@);
    let aliases = texts_field(j, "noqa-aliases"@);
    if j is Object && select is Some && ignore is Some && level is Some && per_file is Some
        && aliases is Some {
        Some(
            LintView {
                select: select->0,
                ignore: ignore->0,
                level: level->0,
                per_file_ignores: per_file->0,
                noqa_aliases: aliases->0,
                rules: tables_in(j->Object_0),
            },
        )
    } else {
        None
    }
}

/// Reads the `lint` table.
pub fn read_lint(j: &Json) -> (r: Option<LintConfig>)
    ensures
        match r {
            Some(lint) => lint_in(j@) == Some(lint@),
            None => lint_in(j@) is None,
        },
{
    let v = match j {
        Json::Object(v) => v,
        _ => return None,
    };
    assert(j@->Object_0 =~= fields(v@));
    let select = match read_list_field(j, "select") {
        Some(v) => v,
        None => return None,
    };
    let ignore = match read_list_field(j, "ignore") {
        Some(v) => v,
        None => return None,
    };
    let level = match read_level_field(j) {
        Some(level) => level,
        None => return None,
    };
    let per_file_ignores = match read_lists_field(j, "per-file-ignores") {
        Some(v) => v,
        None => return None,
    };
    let noqa_aliases = match read_texts_field(j, "noqa-aliases") {
        Some(v) => v,
        None => return None,
    };
    let rules = read_tables(v);
    Some(LintConfig { select, ignore, level, per_file_ignores, noqa_aliases, rules })
}

// ---------------------------------------------------------------------------
// The table of the tool
// ---------------------------------------------------------------------------

/// The `lint` table in a section; absent, it is empty.
pub open spec fn lint_field(j: JsonView) -> Option<LintView> {
    match member_of(j, "lint"@) {
        Some(v) => lint_in(v),
        None => Some(default_lint()),
    }
}

fn read_lint_field(j: &Json) -> (r: Option<LintConfig>)
    ensures
        match r {
            Some(lint) => lint_field(j@) == Some(lint@),
            None => lint_field(j@) is None,
        },
{
    match member(j, "lint") {
        Some(v) => read_lint(v),
        None => {
            let lint = LintConfig::default();
            assert(lint@ =~= default_lint());
            Some(lint)
        },
    }
}

/// The number of workers in a section; absent, it is zero.
pub open spec fn workers_field(j: JsonView) -> Option<nat> {
    match member_of(j, "workers"@) {
        Some(JsonView::Number(n)) => number_value(n),
        Some(_) => None,
        None => Some(0),
    }
}

fn read_workers(j: &Json) -> (r: Option<usize>)
    ensures
        match r {
            Some(n) => workers_field(j@) == Some(n as nat),
            None => workers_field(j@) is None,
        },
{
    match member(j, "workers") {
        Some(v) => match v {
            Json::Number(n) => read_number(n.as_str()),
            _ => None,
        },
        None => Some(0),
    }
}

/// The settings in a section; `None` where one of them is not what it should be.
pub open spec fn settings_in(j: JsonView) -> Option<SettingsView> {
    let cache_dir = text_field(j, "cache-dir"@);
    let workers = workers_field(j);
    let lint = lint_field(j);
    let python = text_field(j, "python"@);
    if j is Object && !(cache_dir is Wrong) && workers is Some && lint is Some && !(python is Wrong) {
        Some(
            SettingsView {
                cache_dir: match cache_dir {
                    Field::Value(t) => t,
                    _ => ".konform_cache"@,
                },
                workers: workers->0,
                lint: lint->0,
                python: match python {
                    Field::Value(t) => Some(t),
                    _ => None,
                },
            },
        )
    } else {
        None
    }
}

/// Reads the settings in a section.
pub fn read_settings(j: &Json) -> (r: Option<Config>)
    ensures
        match r {
            Some(c) => settings_in(j@) == Some(settings_of(c)) && c.config_dir is None
                && !c.ignore_noqa && c.cwd is None && strs(c.src@) == default_src(),
            None => settings_in(j@) is None,
        },
{
    match j {
        Json::Object(_) => {},
        _ => return None,
    }
    let cache_dir = match read_text_field(j, "cache-dir") {
        Field::Value(t) => t,
        Field::Absent => ".konform_cache".to_owned(),
        Field::Wrong => return None,
    };
    let workers: usize = match read_workers(j) {
        Some(n) => n,
        None => return None,
    };
    let lint = match read_lint_field(j) {
        Some(lint) => lint,
        None => return None,
    };
    let python = match read_text_field(j, "python") {
        Field::Value(t) => Some(t),
        Field::Absent => None,
        Field::Wrong => return None,
    };
    Some(
        Config {
            cache_dir,
            workers,
            lint,
            python,
            config_dir: None,
            ignore_noqa: false,
            src: make_default_src(),
            cwd: None,
        },
    )
}

// ---------------------------------------------------------------------------
// The configuration file
// ---------------------------------------------------------------------------

/// The section of this tool in the file with name `file_name`: in `pyproject.toml` the table
/// `tool.konform`, elsewhere the table `konform` or else the whole document.
pub open spec fn section_in(file_name: Seq<char>, document: JsonView) -> Option<JsonView> {
    if file_name == "pyproject.toml"@ {
        match member_of(document, "tool"@) {
            Some(tool) => member_of(tool, "konform"@),
            None => None,
        }
    } else {
        match member_of(document, "konform"@) {
            Some(section) => Some(section),
            None => Some(document),
        }
    }
}

/// Finds the section of this tool in the file with name `file_name`.
pub fn find_section<'a>(file_name: &str, document: &'a Json) -> (r: Option<&'a Json>)
    ensures
        opt_view(r) == section_in(file_name@, document@),
{
    if eq(file_name, "pyproject.toml") {
        match member(document, "tool") {
            Some(tool) => member(tool, "konform"),
            None => None,
        }
    } else {
        match member(document, "konform") {
            Some(section) => Some(section),
            None => Some(document),
        }
    }
}

/// The `src` setting of Ruff in a document.
pub open spec fn ruff_src_in(document: JsonView) -> Option<Seq<Seq<char>>> {
    match member_of(document, "tool"@) {
        Some(tool) => match member_of(tool, "ruff"@) {
            Some(ruff) => loose_list_in(ruff, "src"@),
            None => None,
        },
        None => None,
    }
}

/// Where modules are looked for: the setting of this tool, or else that of Ruff, or else the
/// default.
pub open spec fn src_of(section: JsonView, document: JsonView) -> Seq<Seq<char>> {
    match loose_list_in(section, "src"@) {
        Some(src) => src,
        None => src_beside(document),
    }
}

/// Where modules are looked for without a setting of this tool.
pub open spec fn src_beside(document: JsonView) -> Seq<Seq<char>> {
    match ruff_src_in(document) {
        Some(src) => src,
        None => default_src(),
    }
}

/// Where modules are looked for without a setting of this tool.
fn resolve_src_beside(document: &Json) -> (r: Vec<String>)
    ensures
        strs(r@) == src_beside(document@),
{
    match member(document, "tool") {
        Some(tool) => match member(tool, "ruff") {
            Some(ruff) => match read_loose_list(ruff, "src") {
                Some(src) => src,
                None => make_default_src(),
            },
            None => make_default_src(),
        },
        None => make_default_src(),
    }
}

/// Where modules are looked for.
pub fn resolve_src(section: &Json, document: &Json) -> (r: Vec<String>)
    ensures
        strs(r@) == src_of(section@, document@),
{
    match read_loose_list(section, "src") {
        Some(src) => src,
        None => resolve_src_beside(document),
    }
}

/// The settings of the file with name `file_name`: those of its section where that can be read, or
/// else the defaults.
pub open spec fn settings_from(file_name: Seq<char>, document: Option<JsonView>) -> SettingsView {
    match section_from(file_name, document) {
        Some(section) => match settings_in(section) {
            Some(settings) => settings,
            None => default_settings(),
        },
        None => default_settings(),
    }
}

/// The section of this tool in a document that may be absent.
pub open spec fn section_from(file_name: Seq<char>, document: Option<JsonView>) -> Option<JsonView> {
    match document {
        Some(document) => section_in(file_name, document),
        None => None,
    }
}

/// Where modules are looked for by the file with name `file_name`.
pub open spec fn src_from(file_name: Seq<char>, document: Option<JsonView>) -> Seq<Seq<char>> {
    match document {
        Some(document) => match section_in(file_name, document) {
            Some(section) => src_of(section, document),
            None => src_beside(document),
        },
        None => default_src(),
    }
}

/// Whether a configuration is the one that a file gives: what can be read of it, with defaults for
/// the rest.
pub open spec fn is_config_of(
    c: Config,
    file_name: Seq<char>,
    config_dir: Option<Seq<char>>,
    document: Option<JsonView>,
) -> bool {
    &&& settings_of(c) == settings_from(file_name, document)
    &&& strs(c.src@) == src_from(file_name, document)
    &&& opt(c.config_dir) == config_dir
    &&& !c.ignore_noqa
    &&& c.cwd is None
}

/// The configuration that a document in the file with name `file_name` gives.
pub fn read_config(file_name: &str, config_dir: Option<String>, document: &Option<Json>) -> (r:
    Config)
    ensures
        is_config_of(r, file_name@, opt(config_dir), opt_tree(*document)),
{
    let mut config = match document {
        Some(document) => match find_section(file_name, document) {
            Some(section) => {
                let mut config = match read_settings(section) {
                    Some(config) => config,
                    None => Config::default(),
                };
                config.src = resolve_src(section, document);
                config
            },
            None => {
                let mut config = Config::default();
                config.src = resolve_src_beside(document);
                config
            },
        },
        None => Config::default(),
    };
    config.config_dir = config_dir;
    assert(settings_of(config) =~= settings_from(file_name@, opt_tree(*document)));
    config
}

/// A configuration file.
pub struct ConfigFile {
    pub file_name: String,
    /// The directory of the file.
    pub config_dir: Option<String>,
    /// The text of the file; `None` where it cannot be read.
    pub content: Option<String>,
}

impl ConfigFile {
    /// What the file says; `None` where it cannot be read or is no TOML.
    pub open spec fn document(self) -> Option<JsonView> {
        match self.content {
            Some(text) => toml_tree(text@),
            None => None,
        }
    }
}

/// The configuration that a file gives. Without a file all settings have their defaults.
pub fn load_config(file: Option<ConfigFile>) -> (r: Config)
    ensures
        match file {
            Some(file) => is_config_of(
                r,
                file.file_name@,
                opt(file.config_dir),
                file.document(),
            ),
            None => r.is_default(),
        },
{
    let file = match file {
        Some(file) => file,
        None => return Config::default(),
    };
    let document = match &file.content {
        Some(text) => read_toml(text.as_str()),
        None => None,
    };
    read_config(file.file_name.as_str(), file.config_dir, &document)
}

// ---------------------------------------------------------------------------
// Files with patterns
// ---------------------------------------------------------------------------

/// The patterns of the files beside a configuration; `None` where a file is not there or cannot be
/// read.
pub struct PatternFiles {
    /// Those of the file that the configuration names.
    pub rules_file: Option<Vec<RawPattern>>,
    /// Those of `konform_patterns.toml`.
    pub toml_file: Option<Vec<RawPattern>>,
    /// Those of `konform_patterns.yaml`.
    pub yaml_file: Option<Vec<RawPattern>>,
}

/// The table of the patterns with those of the files.
pub open spec fn with_files(table: RuleTable, files: PatternFiles) -> RuleTable {
    let (level, rules_file, inline) = match table {
        RuleTable::UserDefinedPatterns(t) => (t.level, t.rules_file, t.sources.inline),
        _ => (None, None, None),
    };
    RuleTable::UserDefinedPatterns(
        KptTable {
            level,
            rules_file,
            sources: PatternSources {
                inline,
                rules_file: files.rules_file,
                toml_file: files.toml_file,
                yaml_file: files.yaml_file,
            },
        },
    )
}

fn put_files(table: RuleTable, files: PatternFiles) -> (r: RuleTable)
    ensures
        r == with_files(table, files),
{
    let (level, rules_file, inline) = match table {
        RuleTable::UserDefinedPatterns(t) => (t.level, t.rules_file, t.sources.inline),
        _ => (None, None, None),
    };
    RuleTable::UserDefinedPatterns(
        KptTable {
            level,
            rules_file,
            sources: PatternSources {
                inline,
                rules_file: files.rules_file,
                toml_file: files.toml_file,
                yaml_file: files.yaml_file,
            },
        },
    )
}

/// The file with patterns that a configuration names, as seen from its own directory.
pub open spec fn named_pattern_file(config: Config) -> Option<Seq<char>> {
    match table_of(config.lint.rules@, "user-defined-patterns"@) {
        RuleTable::UserDefinedPatterns(t) => match t.rules_file {
            Some(path) => Some(resolved(path@, opt(config.config_dir))),
            None => None,
        },
        _ => None,
    }
}

/// The file with patterns that a configuration names.
pub fn find_pattern_file(config: &Config) -> (r: Option<String>)
    ensures
        opt(r) == named_pattern_file(*config),
{
    match config.rule_config("user-defined-patterns") {
        RuleTable::UserDefinedPatterns(t) => match &t.rules_file {
            Some(path) => Some(resolve_path(path.as_str(), &config.config_dir)),
            None => None,
        },
        _ => None,
    }
}

/// Takes the patterns of files into the configuration: into its table of patterns, or into a new
/// one where there is none.
pub fn add_pattern_files(config: &mut Config, files: PatternFiles)
    ensures
        table_of(final(config).lint.rules@, "user-defined-patterns"@) == with_files(
            table_of(old(config).lint.rules@, "user-defined-patterns"@),
            files,
        ),
        forall|name: Seq<char>|
            name != "user-defined-patterns"@ ==> #[trigger] table_of(
                final(config).lint.rules@,
                name,
            ) == table_of(old(config).lint.rules@, name),
        *final(config) == (Config {
            lint: LintConfig { rules: final(config).lint.rules, ..old(config).lint },
            ..*old(config)
        }),
{
    let ghost before = config.lint.rules@;
    let ghost key = "user-defined-patterns"@;
    let mut i: usize = 0;
    while i < config.lint.rules.len()
        invariant
            i <= config.lint.rules@.len(),
            *config == *old(config),
            before == config.lint.rules@,
            key == "user-defined-patterns"@,
            table_index(before, key, i as int) is None,
        decreases config.lint.rules@.len() - i,
    {
        if eq(config.lint.rules[i].0.as_str(), "user-defined-patterns") {
            proof {
                lemma_table_index(before, key, i as int);
            }
            let (name, table) = config.lint.rules.remove(i);
            let table = put_files(table, files);
            let ghost now = (name, table);
            config.lint.rules.insert(i, (name, table));
            proof {
                let after = config.lint.rules@;
                assert(after =~= before.update(i as int, now));
                lemma_update_table(before, i as int, now, i as int);
                lemma_table_index(after, key, i as int);
                assert forall|other: Seq<char>| other != key implies #[trigger] table_of(
                    after,
                    other,
                ) == table_of(before, other) by {
                    lemma_other_table(before, i as int, now, other, before.len() as int);
                }
            }
            return;
        }
        i += 1;
    }
    let table = put_files(RuleTable::Empty, files);
    let name = "user-defined-patterns".to_owned();
    let ghost now = (name, table);
    config.lint.rules.push((name, table));
    proof {
        let after = config.lint.rules@;
        assert(after =~= before.push(now));
        lemma_push_table(before, now, key, before.len() as int);
        assert forall|other: Seq<char>| other != key implies #[trigger] table_of(after, other)
            == table_of(before, other) by {
            lemma_push_table(before, now, other, before.len() as int);
            lemma_table_bound(before, other, before.len() as int);
        }
    }
}

proof fn lemma_table_bound(rules: Seq<(String, RuleTable)>, name: Seq<char>, n: int)
    requires
        0 <= n <= rules.len(),
    ensures
        match table_index(rules, name, n) {
            Some(i) => 0 <= i < n,
            None => true,
        },
    decreases n,
{
    if n > 0 {
        lemma_table_bound(rules, name, n - 1);
    }
}

/// Replacing a table changes nothing before it.
proof fn lemma_update_table(
    rules: Seq<(String, RuleTable)>,
    i: int,
    now: (String, RuleTable),
    n: int,
)
    requires
        0 <= n <= i < rules.len(),
        rules[i].0 == now.0,
        table_index(rules, now.0@, n) is None,
    ensures
        table_index(rules.update(i, now), now.0@, n) is None,
    decreases n,
{
    if n > 0 {
        lemma_update_table(rules, i, now, n - 1);
    }
}

proof fn lemma_other_table(
    rules: Seq<(String, RuleTable)>,
    i: int,
    now: (String, RuleTable),
    other: Seq<char>,
    n: int,
)
    requires
        0 <= i < rules.len(),
        0 <= n <= rules.len(),
        rules[i].0@ != other,
        now.0@ != other,
    ensures
        table_index(rules.update(i, now), other, n) == table_index(rules, other, n),
        match table_index(rules, other, n) {
            Some(k) => 0 <= k < n && k != i,
            None => true,
        },
    decreases n,
{
    if n > 0 {
        lemma_other_table(rules, i, now, other, n - 1);
    }
}

proof fn lemma_push_table(
    rules: Seq<(String, RuleTable)>,
    now: (String, RuleTable),
    name: Seq<char>,
    n: int,
)
    requires
        0 <= n <= rules.len(),
    ensures
        table_index(rules.push(now), name, n) == table_index(rules, name, n),
    decreases n,
{
    if n > 0 {
        lemma_push_table(rules, now, name, n - 1);
    }
}

/// A document with a section that cannot be read gives the defaults, not a part of the section.
pub proof fn law_unreadable_section_gives_defaults(file_name: Seq<char>, document: JsonView)
    requires
        section_in(file_name, document) is Some,
        settings_in(section_in(file_name, document)->0) is None,
    ensures
        settings_from(file_name, Some(document)) == default_settings(),
{
}

/// The search path of this tool takes precedence over that of Ruff, even where it is empty.
pub proof fn law_own_src_comes_first(section: JsonView, document: JsonView)
    requires
        loose_list_in(section, "src"@) is Some,
    ensures
        src_of(section, document) == loose_list_in(section, "src"@)->0,
{
}

/// Without a setting of this tool the search path is that of Ruff, or else the default; so it is
/// where the file has no section of this tool.
pub proof fn law_ruff_src_comes_second(file_name: Seq<char>, document: JsonView)
    requires
        section_in(file_name, document) is None || loose_list_in(
            section_in(file_name, document)->0,
            "src"@,
        ) is None,
    ensures
        src_from(file_name, Some(document)) == match ruff_src_in(document) {
            Some(src) => src,
            None => default_src(),
        },
{
}

} // verus!
