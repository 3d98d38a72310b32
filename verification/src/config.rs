//! The configuration: which rules run, with which settings, on which files.
use crate::kis001::Kis001Table;
use crate::kpt::PatternSources;
use crate::paths::{join_path, joined};
use crate::text::{chars, eq, starts_with, strs};
use crate::types::{opt, Level};
use vstd::prelude::*;
use vstd::string::*;

verus! {

// ---------------------------------------------------------------------------
// Rule tables
// ---------------------------------------------------------------------------

/// The table of KIS002. Its level is absent where the table has none or one that is no level.
pub struct Kis002Table {
    pub level: Option<Level>,
}

/// The table of the user-defined patterns.
pub struct KptTable {
    pub level: Option<String>,
    /// The file with patterns that the table names.
    pub rules_file: Option<String>,
    pub sources: PatternSources,
}

/// A rule's table in the configuration.
pub enum RuleTable {
    ModuleOnlyImports(Kis001Table),
    UnnecessaryImportAlias(Kis002Table),
    UserDefinedPatterns(KptTable),
    /// No table.
    Empty,
}

// ---------------------------------------------------------------------------
// Configuration
// ---------------------------------------------------------------------------

/// Which rules run and how.
pub struct LintConfig {
    /// Codes, or prefixes of codes, of the rules to run; none means all.
    pub select: Vec<String>,
    /// Codes, or prefixes of codes, of the rules not to run.
    pub ignore: Vec<String>,
    pub level: Level,
    /// Globs of files, each with the codes or prefixes that are not reported there.
    pub per_file_ignores: Vec<(String, Vec<String>)>,
    /// Codes in `# noqa` comments, each with the code or prefix that it stands in for.
    pub noqa_aliases: Vec<(String, String)>,
    /// The rules' tables by their names.
    pub rules: Vec<(String, RuleTable)>,
}

/// The whole configuration.
pub struct Config {
    pub cache_dir: String,
    pub workers: usize,
    pub lint: LintConfig,
    /// The Python interpreter that is named explicitly.
    pub python: Option<String>,
    /// The directory of the configuration file.
    pub config_dir: Option<String>,
    /// Whether `# noqa` comments are ignored.
    pub ignore_noqa: bool,
    /// Where modules of the project are looked for, as seen from `config_dir`.
    pub src: Vec<String>,
    /// The working directory.
    pub cwd: Option<String>,
}

/// Where modules are looked for unless the configuration says otherwise.
pub open spec fn default_src() -> Seq<Seq<char>> {
    seq!["."@, "src"@]
}

impl LintConfig {
    /// Nothing is selected, ignored or set.
    pub open spec fn is_default(self) -> bool {
        &&& self.select@.len() == 0
        &&& self.ignore@.len() == 0
        &&& self.level == Level::Error
        &&& self.per_file_ignores@.len() == 0
        &&& self.noqa_aliases@.len() == 0
        &&& self.rules@.len() == 0
    }
}

impl Config {
    /// All settings have their defaults.
    pub open spec fn is_default(self) -> bool {
        &&& self.cache_dir@ == ".konform_cache"@
        &&& self.workers == 0
        &&& self.lint.is_default()
        &&& self.python is None
        &&& self.config_dir is None
        &&& !self.ignore_noqa
        &&& strs(self.src@) == default_src()
        &&& self.cwd is None
    }
}

impl Default for LintConfig {
    fn default() -> (r: Self)
        ensures
            r.is_default(),
    {
        LintConfig {
            select: Vec::new(),
            ignore: Vec::new(),
            level: Level::Error,
            per_file_ignores: Vec::new(),
            noqa_aliases: Vec::new(),
            rules: Vec::new(),
        }
    }
}

/// Where modules are looked for unless the configuration says otherwise.
pub fn make_default_src() -> (r: Vec<String>)
    ensures
        strs(r@) == default_src(),
{
    let mut src: Vec<String> = Vec::new();
    src.push(".".to_owned());
    src.push("src".to_owned());
    assert(strs(src@) =~= default_src());
    src
}

impl Default for Config {
    fn default() -> (r: Self)
        ensures
            r.is_default(),
    {
        Config {
            cache_dir: ".konform_cache".to_owned(),
            workers: 0,
            lint: LintConfig::default(),
            python: None,
            config_dir: None,
            ignore_noqa: false,
            src: make_default_src(),
            cwd: None,
        }
    }
}

// ---------------------------------------------------------------------------
// Rule selection
// ---------------------------------------------------------------------------

/// Whether one of several texts is a prefix of `code`.
pub open spec fn any_prefix(prefixes: Seq<Seq<char>>, code: Seq<char>) -> bool {
    exists|i: int| 0 <= i < prefixes.len() && (#[trigger] prefixes[i]).is_prefix_of(code)
}

/// Whether a rule runs: it is selected, where anything is, and not ignored.
pub open spec fn enabled(
    select: Seq<Seq<char>>,
    ignore: Seq<Seq<char>>,
    code: Seq<char>,
) -> bool {
    (select.len() == 0 || any_prefix(select, code)) && !any_prefix(ignore, code)
}

/// Whether one of several strings is a prefix of `code`.
pub fn has_prefix(prefixes: &Vec<String>, code: &str) -> (r: bool)
    ensures
        r == any_prefix(strs(prefixes@), code@),
{
    let text = chars(code);
    let mut i: usize = 0;
    while i < prefixes.len()
        invariant
            i <= prefixes@.len(),
            text@ == code@,
            forall|j: int| 0 <= j < i ==> !(#[trigger] strs(prefixes@)[j]).is_prefix_of(code@),
        decreases prefixes@.len() - i,
    {
        assert(strs(prefixes@)[i as int] == prefixes@[i as int]@);
        let prefix = chars(prefixes[i].as_str());
        if starts_with(text.as_slice(), prefix.as_slice()) {
            return true;
        }
        i += 1;
    }
    assert(strs(prefixes@).len() == prefixes@.len());
    false
}

/// The place of the first table with a name.
pub open spec fn table_index(rules: Seq<(String, RuleTable)>, name: Seq<char>, n: int) -> Option<int>
    decreases n,
{
    if n <= 0 {
        None
    } else {
        match table_index(rules, name, n - 1) {
            Some(i) => Some(i),
            None => if rules[n - 1].0@ == name {
                Some(n - 1)
            } else {
                None
            },
        }
    }
}

/// The first table with a name, or the empty one.
pub open spec fn table_of(rules: Seq<(String, RuleTable)>, name: Seq<char>) -> RuleTable {
    match table_index(rules, name, rules.len() as int) {
        Some(i) => rules[i].1,
        None => RuleTable::Empty,
    }
}

impl Config {
    /// Whether the rule with code `code` runs.
    pub fn is_enabled(&self, code: &str) -> (r: bool)
        ensures
            r == enabled(strs(self.lint.select@), strs(self.lint.ignore@), code@),
    {
        assert(strs(self.lint.select@).len() == self.lint.select@.len());
        (self.lint.select.len() == 0 || has_prefix(&self.lint.select, code)) && !has_prefix(
            &self.lint.ignore,
            code,
        )
    }

    /// The table of a rule by its configuration name; the empty one where there is none.
    pub fn rule_config(&self, config_name: &str) -> (r: &RuleTable)
        ensures
            *r == table_of(self.lint.rules@, config_name@),
    {
        let mut i: usize = 0;
        while i < self.lint.rules.len()
            invariant
                i <= self.lint.rules@.len(),
                table_index(self.lint.rules@, config_name@, i as int) is None,
            decreases self.lint.rules@.len() - i,
        {
            if eq(self.lint.rules[i].0.as_str(), config_name) {
                proof {
                    lemma_table_index(self.lint.rules@, config_name@, i as int);
                }
                return &self.lint.rules[i].1;
            }
            i += 1;
        }
        &RuleTable::Empty
    }
}

/// The first table with a name is the one that is found.
pub proof fn lemma_table_index(rules: Seq<(String, RuleTable)>, name: Seq<char>, i: int)
    requires
        0 <= i < rules.len(),
        table_index(rules, name, i) is None,
        rules[i].0@ == name,
    ensures
        table_index(rules, name, rules.len() as int) == Some(i),
{
    lemma_table_index_from(rules, name, i, rules.len() as int);
}

proof fn lemma_table_index_from(rules: Seq<(String, RuleTable)>, name: Seq<char>, i: int, n: int)
    requires
        0 <= i < n <= rules.len(),
        table_index(rules, name, i) is None,
        rules[i].0@ == name,
    ensures
        table_index(rules, name, n) == Some(i),
    decreases n,
{
    if n - 1 > i {
        lemma_table_index_from(rules, name, i, n - 1);
    }
}

/// An ignored rule does not run even where it is selected.
pub proof fn law_ignore_beats_select(
    select: Seq<Seq<char>>,
    ignore: Seq<Seq<char>>,
    code: Seq<char>,
)
    requires
        any_prefix(ignore, code),
    ensures
        !enabled(select, ignore, code),
{
}

/// Where nothing is selected and nothing ignored every rule runs.
pub proof fn law_all_rules_run_by_default(code: Seq<char>)
    ensures
        enabled(Seq::empty(), Seq::empty(), code),
{
}

/// A rule runs where its category is selected and nothing is ignored.
pub proof fn law_category_selects_its_rules(category: Seq<char>, code: Seq<char>)
    requires
        category.is_prefix_of(code),
    ensures
        enabled(seq![category], Seq::empty(), code),
{
    assert(seq![category][0] == category);
}

// ---------------------------------------------------------------------------
// Finding the configuration
// ---------------------------------------------------------------------------

/// What a directory holds that matters for finding the configuration.
pub struct DirFacts {
    pub path: String,
    pub has_konform: bool,
    pub has_pyproject: bool,
    pub has_git: bool,
}

/// The configuration file for a directory: `konform.toml` or else `pyproject.toml` of the first
/// directory upwards that has one, up to the root of the repository.
pub open spec fn config_file_of(dirs: Seq<DirFacts>) -> Option<Seq<char>>
    decreases dirs.len(),
{
    if dirs.len() == 0 {
        None
    } else if dirs[0].has_konform {
        Some(joined(dirs[0].path@, "konform.toml"@))
    } else if dirs[0].has_pyproject {
        Some(joined(dirs[0].path@, "pyproject.toml"@))
    } else if dirs[0].has_git {
        None
    } else {
        config_file_of(dirs.skip(1))
    }
}

/// The configuration file for a directory, given that directory and those above it in order.
pub fn find_config_file(dirs: &Vec<DirFacts>) -> (r: Option<String>)
    ensures
        opt(r) == config_file_of(dirs@),
{
    let mut i: usize = 0;
    assert(dirs@.skip(0) =~= dirs@);
    while i < dirs.len()
        invariant
            i <= dirs@.len(),
            config_file_of(dirs@) == config_file_of(dirs@.skip(i as int)),
        decreases dirs@.len() - i,
    {
        assert(dirs@.skip(i as int)[0] == dirs@[i as int]);
        assert(dirs@.skip(i as int).skip(1) =~= dirs@.skip(i + 1));
        if dirs[i].has_konform {
            return Some(join_path(dirs[i].path.as_str(), "konform.toml"));
        }
        if dirs[i].has_pyproject {
            return Some(join_path(dirs[i].path.as_str(), "pyproject.toml"));
        }
        if dirs[i].has_git {
            return None;
        }
        i += 1;
    }
    None
}

// ---------------------------------------------------------------------------
// The Python interpreter
// ---------------------------------------------------------------------------

/// Which of the usual virtual environments of a project have an interpreter.
pub struct VenvFacts {
    pub dot_venv: bool,
    pub venv: bool,
    pub dot_env: bool,
}

/// The name of the interpreter.
pub open spec fn python_name(windows: bool) -> Seq<char> {
    if windows {
        "python.exe"@
    } else {
        "python3"@
    }
}

/// The interpreter of the virtual environment `venv` of a project.
pub open spec fn venv_python(root: Seq<char>, venv: Seq<char>, windows: bool) -> Seq<char> {
    let bin = if windows {
        "Scripts"@
    } else {
        "bin"@
    };
    joined(joined(joined(root, venv), bin), python_name(windows))
}

/// The interpreter for a project: that of the first virtual environment that has one, or else the
/// one on the search path.
pub open spec fn project_python(root: Seq<char>, windows: bool, facts: VenvFacts) -> Seq<char> {
    if facts.dot_venv {
        venv_python(root, ".venv"@, windows)
    } else if facts.venv {
        venv_python(root, "venv"@, windows)
    } else if facts.dot_env {
        venv_python(root, ".env"@, windows)
    } else {
        python_name(windows)
    }
}

fn make_python_name(windows: bool) -> (r: String)
    ensures
        r@ == python_name(windows),
{
    if windows {
        "python.exe".to_owned()
    } else {
        "python3".to_owned()
    }
}

/// The interpreter of the virtual environment `venv` of a project.
pub fn make_venv_python(root: &str, venv: &str, windows: bool) -> (r: String)
    ensures
        r@ == venv_python(root@, venv@, windows),
{
    let bin = if windows {
        "Scripts"
    } else {
        "bin"
    };
    let dir = join_path(root, venv);
    let dir = join_path(dir.as_str(), bin);
    join_path(dir.as_str(), make_python_name(windows).as_str())
}

/// The interpreter for a project.
pub fn discover_python(project_root: &str, windows: bool, facts: &VenvFacts) -> (r: String)
    ensures
        r@ == project_python(project_root@, windows, *facts),
{
    if facts.dot_venv {
        make_venv_python(project_root, ".venv", windows)
    } else if facts.venv {
        make_venv_python(project_root, "venv", windows)
    } else if facts.dot_env {
        make_venv_python(project_root, ".env", windows)
    } else {
        make_python_name(windows)
    }
}

/// The interpreter to use: the one the configuration names, or else that of its project, or else
/// the one on the search path.
pub fn resolve_python(config: &Config, windows: bool, facts: &VenvFacts) -> (r: String)
    ensures
        r@ == match config.python {
            Some(python) => python@,
            None => match config.config_dir {
                Some(dir) => project_python(dir@, windows, *facts),
                None => python_name(windows),
            },
        },
{
    match &config.python {
        Some(python) => python.clone(),
        None => match &config.config_dir {
            Some(dir) => discover_python(dir.as_str(), windows, facts),
            None => make_python_name(windows),
        },
    }
}

} // verus!
