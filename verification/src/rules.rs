//! What a rule is, and the rules that there are.
use crate::config::{table_of, Config, RuleTable};
use crate::kis001::{
    check_imports, default_exceptions, level_or, parse_kis_config, present, unresolved_of, Input,
    Kis001Settings, Kis001Table, Query,
};
use crate::kis001_fix;
use crate::kis002;
use crate::kis002::{alias_violations, candidates, check_aliases, without_aliases};
use crate::kpt::{
    all_compiled, any_replacement, check_patterns, countable, has_replacement, parse_default_level,
    pattern_views, CompiledPattern, FileInput, KptQuery, KptRule, PatternView, RawPattern,
};
use crate::kpt_fix::fix_patterns;
use crate::kpt_target::{fix_target, target_result};
use crate::module_facts::ModuleFacts;
use crate::noqa::pairs;
use crate::split::{lines_spec, str_lines};
use crate::syntax::module_nodes;
use crate::text::strs;
use crate::types::{
    copy_opt, fix_outcome, opt, target_of, violation_views, FixError, FixTarget, Level, TargetView,
    Violation, ViolationView,
};
use vstd::prelude::*;

verus! {

// ---------------------------------------------------------------------------
// File context
// ---------------------------------------------------------------------------

/// What a rule needs to know of the file that it looks at.
pub struct FileContext {
    pub path: String,
    pub source: String,
    /// The lines of the source without their ends.
    pub lines: Vec<String>,
    /// Whether `# noqa` comments are ignored.
    pub ignore_noqa: bool,
    /// Codes in `# noqa` comments, each with the code or prefix that it stands in for.
    pub noqa_aliases: Vec<(String, String)>,
    /// The working directory.
    pub cwd: Option<String>,
    /// The violation that alone is to be fixed.
    pub fix_target: Option<FixTarget>,
}

/// What a [`FileContext`] says.
#[verifier::ext_equal]
pub struct ContextView {
    pub path: Seq<char>,
    pub source: Seq<char>,
    pub ignore_noqa: bool,
    pub aliases: Seq<(Seq<char>, Seq<char>)>,
    pub cwd: Option<Seq<char>>,
    pub target: Option<TargetView>,
}

impl View for FileContext {
    type V = ContextView;

    open spec fn view(&self) -> ContextView {
        ContextView {
            path: self.path@,
            source: self.source@,
            ignore_noqa: self.ignore_noqa,
            aliases: pairs(self.noqa_aliases@),
            cwd: opt(self.cwd),
            target: target_of(self.fix_target),
        }
    }
}

impl FileContext {
    /// The lines are those of the source.
    pub open spec fn wf(self) -> bool {
        strs(self.lines@) == lines_spec(self.source@)
    }

    /// The context of a file with a given text.
    pub fn from_source(path: String, source: String) -> (r: FileContext)
        ensures
            r.wf(),
            r@ == (ContextView {
                path: path@,
                source: source@,
                ignore_noqa: false,
                aliases: Seq::empty(),
                cwd: None,
                target: None,
            }),
    {
        let lines = str_lines(source.as_str());
        let r = FileContext {
            path,
            source,
            lines,
            ignore_noqa: false,
            noqa_aliases: Vec::new(),
            cwd: None,
            fix_target: None,
        };
        assert(r@.aliases =~= Seq::empty());
        r
    }
}

// ---------------------------------------------------------------------------
// Rules
// ---------------------------------------------------------------------------

/// A rule that files are checked against. What a rule does not state of itself is left open.
pub trait Rule: Send + Sync {
    /// The rule's code.
    open spec fn code_of(&self) -> Seq<char> {
        arbitrary()
    }

    /// The name of the rule's table in the configuration.
    open spec fn config_name_of(&self) -> Seq<char> {
        arbitrary()
    }

    /// The prefix that the codes of the rule's category share.
    open spec fn category_of(&self) -> Seq<char> {
        arbitrary()
    }

    /// A short name to show.
    open spec fn name_of(&self) -> Seq<char> {
        arbitrary()
    }

    /// One line on what the rule checks.
    open spec fn description_of(&self) -> Seq<char> {
        arbitrary()
    }

    /// What the rule checks, with examples.
    open spec fn explanation_of(&self) -> Seq<char> {
        arbitrary()
    }

    /// Whether the rule can fix what it finds.
    open spec fn fixable_of(&self) -> bool {
        arbitrary()
    }

    /// What the rule finds in a file.
    open spec fn finds(&self, ctx: ContextView, table: RuleTable) -> Seq<ViolationView> {
        arbitrary()
    }

    /// What the rule makes of a file, `None` where it changes nothing, or why it cannot fix it.
    open spec fn fixes(&self, ctx: ContextView, table: RuleTable) -> Result<
        Option<Seq<char>>,
        Seq<char>,
    > {
        arbitrary()
    }

    /// The rule's code, such as `KIS001`.
    fn code(&self) -> (r: String)
        ensures
            r@ == self.code_of(),
    ;

    /// The prefix that the codes of the rule's category share.
    fn category(&self) -> (r: String)
        ensures
            r@ == self.category_of(),
    ;

    /// The name of the rule's table in the configuration.
    fn config_name(&self) -> (r: String)
        ensures
            r@ == self.config_name_of(),
    ;

    /// A short name to show.
    fn name(&self) -> (r: String)
        ensures
            r@ == self.name_of(),
    ;

    /// One line on what the rule checks.
    fn description(&self) -> (r: String)
        ensures
            r@ == self.description_of(),
    ;

    /// Whether the rule can fix what it finds.
    fn fixable(&self) -> (r: bool)
        ensures
            r == self.fixable_of(),
    ;

    /// Reports what the rule finds in a file.
    fn check(&self, ctx: &FileContext, table: &RuleTable) -> (r: Vec<Violation>)
        ensures
            violation_views(r@) == self.finds(ctx@, *table),
    ;

    /// Fixes what the rule finds in a file; `None` where that changes nothing.
    fn fix(&self, ctx: &FileContext, table: &RuleTable) -> (r: Result<Option<String>, FixError>)
        ensures
            fix_outcome(r) == self.fixes(ctx@, *table),
    ;

    /// What the rule checks, with examples.
    fn explain(&self) -> (r: String)
        ensures
            r@ == self.explanation_of(),
    ;
}

// ---------------------------------------------------------------------------
// KIS001
// ---------------------------------------------------------------------------

/// The rule that `from X import Y` imports modules only.
pub struct Kis001Rule {
    /// What is known of the imported names.
    pub facts: ModuleFacts,
}

impl Kis001Rule {
    /// The rule with what is known of the imported names.
    pub fn new(facts: ModuleFacts) -> (r: Kis001Rule)
        ensures
            r.facts@ == facts@,
    {
        Kis001Rule { facts }
    }

    /// The table of the rule; an empty one where the configuration has none.
    pub open spec fn exceptions_in(table: RuleTable) -> Seq<Seq<char>> {
        match table {
            RuleTable::ModuleOnlyImports(t) => match t.exceptions {
                Some(list) => present(list@),
                None => default_exceptions(),
            },
            _ => default_exceptions(),
        }
    }

    /// The level in the table of the rule.
    pub open spec fn level_in(table: RuleTable) -> Level {
        match table {
            RuleTable::ModuleOnlyImports(t) => level_or(opt(t.level), Level::Error),
            _ => Level::Error,
        }
    }

    /// The level of unresolved names in the table of the rule.
    pub open spec fn unresolved_in(table: RuleTable) -> Option<Level> {
        match table {
            RuleTable::ModuleOnlyImports(t) => unresolved_of(opt(t.unresolved_level)),
            _ => Some(Level::Warning),
        }
    }

    /// What the rule's findings in a file depend on.
    pub open spec fn input(
        &self,
        ctx: ContextView,
        table: RuleTable,
        target: Option<TargetView>,
    ) -> Input {
        Input {
            source: ctx.source,
            facts: self.facts@,
            exceptions: Self::exceptions_in(table),
            ignore_noqa: ctx.ignore_noqa,
            aliases: ctx.aliases,
            target,
        }
    }

    /// The settings in the table of the rule.
    fn settings(table: &RuleTable) -> (r: Kis001Settings)
        ensures
            strs(r.exceptions@) == Self::exceptions_in(*table),
            r.level == Self::level_in(*table),
            r.unresolved_level == Self::unresolved_in(*table),
    {
        match table {
            RuleTable::ModuleOnlyImports(t) => parse_kis_config(t),
            _ => {
                let none = Kis001Table { exceptions: None, level: None, unresolved_level: None };
                parse_kis_config(&none)
            },
        }
    }
}

/// What KIS001 checks.
pub const KIS001_EXPLANATION: &'static str = "KIS001 — Google-style imports [fixable]

  Checks that every `from X import Y` imports a module (sub-package or .py
  file), not an object (class, function, or constant) from within one.

  Bad:
    from os.path import join      # join is a function

  Good:
    from os import path           # path is the os.path module
    import os.path                # also fine

  Configure exceptions in [tool.konform.lint.module-only-imports]:
    exceptions = [\"__future__\", \"typing\", \"typing_extensions\", \"collections.abc\"]

  When a package isn't installed in this environment, KIS001 can't tell
  whether the imported name is a module or not. Control how that's reported
  in [tool.konform.lint.module-only-imports]:
    unresolved-level = \"warning\"   # default: \"warning\" | \"error\" | \"off\"

  Suppress per-line:
    from os.path import join   # noqa: KIS001
    from os.path import join   # noqa: KIS      (silences all KIS rules)
";

impl Rule for Kis001Rule {
    open spec fn code_of(&self) -> Seq<char> {
        "KIS001"@
    }

    open spec fn config_name_of(&self) -> Seq<char> {
        "module-only-imports"@
    }

    open spec fn category_of(&self) -> Seq<char> {
        "KIS"@
    }

    open spec fn name_of(&self) -> Seq<char> {
        "Google-style imports"@
    }

    open spec fn description_of(&self) -> Seq<char> {
        "Checks that `from X import Y` imports only sub-modules, not objects."@
    }

    open spec fn explanation_of(&self) -> Seq<char> {
        KIS001_EXPLANATION@
    }

    open spec fn fixable_of(&self) -> bool {
        true
    }

    open spec fn finds(&self, ctx: ContextView, table: RuleTable) -> Seq<ViolationView> {
        let input = self.input(ctx, table, None);
        input.violations(
            Self::level_in(table),
            Self::unresolved_in(table),
            input.items().len() as int,
        )
    }

    open spec fn fixes(&self, ctx: ContextView, table: RuleTable) -> Result<
        Option<Seq<char>>,
        Seq<char>,
    > {
        Ok(self.input(ctx, table, ctx.target).fixed())
    }

    fn code(&self) -> (r: String) {
        "KIS001".to_owned()
    }

    fn category(&self) -> (r: String) {
        "KIS".to_owned()
    }

    fn config_name(&self) -> (r: String) {
        "module-only-imports".to_owned()
    }

    fn name(&self) -> (r: String) {
        "Google-style imports".to_owned()
    }

    fn description(&self) -> (r: String) {
        "Checks that `from X import Y` imports only sub-modules, not objects.".to_owned()
    }

    fn fixable(&self) -> (r: bool) {
        true
    }

    fn check(&self, ctx: &FileContext, table: &RuleTable) -> (r: Vec<Violation>) {
        let settings = Self::settings(table);
        let q = Query {
            source: ctx.source.as_str(),
            facts: &self.facts,
            exceptions: &settings.exceptions,
            ignore_noqa: ctx.ignore_noqa,
            noqa_aliases: &ctx.noqa_aliases,
            target: &None,
        };
        assert(q.input() == self.input(ctx@, *table, None));
        check_imports(&q, settings.level, settings.unresolved_level)
    }

    fn fix(&self, ctx: &FileContext, table: &RuleTable) -> (r: Result<Option<String>, FixError>) {
        let settings = Self::settings(table);
        let q = Query {
            source: ctx.source.as_str(),
            facts: &self.facts,
            exceptions: &settings.exceptions,
            ignore_noqa: ctx.ignore_noqa,
            noqa_aliases: &ctx.noqa_aliases,
            target: &ctx.fix_target,
        };
        assert(q.input() == self.input(ctx@, *table, ctx@.target));
        Ok(kis001_fix::apply_fixes(&q))
    }

    fn explain(&self) -> (r: String) {
        KIS001_EXPLANATION.to_owned()
    }
}

// ---------------------------------------------------------------------------
// KIS002
// ---------------------------------------------------------------------------

/// The rule that `from X import Y as Z` renames only where that avoids a collision.
pub struct Kis002Rule;

impl Kis002Rule {
    /// The rule.
    pub fn new() -> (r: Kis002Rule)
        ensures
            r == Kis002Rule,
    {
        Kis002Rule
    }

    /// The level in the table of the rule.
    pub open spec fn level_in(table: RuleTable) -> Level {
        match table {
            RuleTable::UnnecessaryImportAlias(t) => match t.level {
                Some(level) => level,
                None => Level::Warning,
            },
            _ => Level::Warning,
        }
    }
}

impl Default for Kis002Rule {
    fn default() -> (r: Self)
        ensures
            r == Kis002Rule,
    {
        Kis002Rule
    }
}

/// The level in the table of KIS002.
pub fn parse_kis002_config(table: &RuleTable) -> (r: Level)
    ensures
        r == Kis002Rule::level_in(*table),
{
    match table {
        RuleTable::UnnecessaryImportAlias(t) => match t.level {
            Some(level) => level,
            None => Level::Warning,
        },
        _ => Level::Warning,
    }
}

/// What KIS002 checks.
pub const KIS002_EXPLANATION: &'static str = "KIS002 — Unnecessary import alias [sometimes fixable]

  Checks that `from X import Y as Z` only renames the import when the
  rename is actually needed to avoid a naming collision. If `Y` isn't bound
  anywhere else the alias's uses can see, the rename buys nothing.

  Bad:
    from foo.bar import baz as bar_baz    # `baz` isn't used anywhere else

  Good:
    from foo.bar import baz

  Not flagged:
    from foo.bar import baz as baz        # explicit re-export idiom;
                                           # see Ruff's PLC0414 instead
    from foo.bar import baz as _baz       # leading underscore: deliberate
                                           # \"don't re-export\" marker
    import x.y as z                       # plain `import ... as` is out of
                                           # scope: dropping the alias would
                                           # change what name gets bound

  Configure the severity in [tool.konform.lint.unnecessary-import-alias]:
    level = \"warning\"   # default: \"warning\" | \"error\"

  Not every violation can be auto-fixed: if the alias is also bound
  elsewhere (shadowed by a local variable, or ambiguous with a different
  import binding the same name), konform reports the violation but leaves
  it for you to fix by hand.

  Suppress per-line:
    from foo.bar import baz as bar_baz   # noqa: KIS002
    from foo.bar import baz as bar_baz   # noqa: KIS      (all KIS rules)
";

impl Rule for Kis002Rule {
    open spec fn code_of(&self) -> Seq<char> {
        "KIS002"@
    }

    open spec fn config_name_of(&self) -> Seq<char> {
        "unnecessary-import-alias"@
    }

    open spec fn category_of(&self) -> Seq<char> {
        "KIS"@
    }

    open spec fn name_of(&self) -> Seq<char> {
        "Unnecessary import alias"@
    }

    open spec fn description_of(&self) -> Seq<char> {
        "Checks that `from X import Y as Z` only renames when needed to avoid a collision."@
    }

    open spec fn explanation_of(&self) -> Seq<char> {
        KIS002_EXPLANATION@
    }

    open spec fn fixable_of(&self) -> bool {
        true
    }

    open spec fn finds(&self, ctx: ContextView, table: RuleTable) -> Seq<ViolationView> {
        alias_violations(
            ctx.source,
            Self::level_in(table),
            ctx.ignore_noqa,
            ctx.aliases,
            candidates(module_nodes(ctx.source)).len() as int,
        )
    }

    open spec fn fixes(&self, ctx: ContextView, table: RuleTable) -> Result<
        Option<Seq<char>>,
        Seq<char>,
    > {
        Ok(without_aliases(ctx.source, ctx.ignore_noqa, ctx.aliases, ctx.target))
    }

    fn code(&self) -> (r: String) {
        "KIS002".to_owned()
    }

    fn category(&self) -> (r: String) {
        "KIS".to_owned()
    }

    fn config_name(&self) -> (r: String) {
        "unnecessary-import-alias".to_owned()
    }

    fn name(&self) -> (r: String) {
        "Unnecessary import alias".to_owned()
    }

    fn description(&self) -> (r: String) {
        "Checks that `from X import Y as Z` only renames when needed to avoid a collision.".to_owned()
    }

    fn fixable(&self) -> (r: bool) {
        true
    }

    fn check(&self, ctx: &FileContext, table: &RuleTable) -> (r: Vec<Violation>) {
        check_aliases(
            ctx.source.as_str(),
            parse_kis002_config(table),
            ctx.ignore_noqa,
            &ctx.noqa_aliases,
        )
    }

    fn fix(&self, ctx: &FileContext, table: &RuleTable) -> (r: Result<Option<String>, FixError>) {
        Ok(
            kis002::apply_fixes(
                ctx.source.as_str(),
                ctx.ignore_noqa,
                &ctx.noqa_aliases,
                &ctx.fix_target,
            ),
        )
    }

    fn explain(&self) -> (r: String) {
        KIS002_EXPLANATION.to_owned()
    }
}

// ---------------------------------------------------------------------------
// KPT
// ---------------------------------------------------------------------------

/// The rules that count in the table of the patterns.
pub open spec fn patterns_in(table: RuleTable) -> Seq<RawPattern> {
    match table {
        RuleTable::UserDefinedPatterns(t) => t.sources.chosen(),
        _ => Seq::empty(),
    }
}

/// The level of patterns that name none.
pub open spec fn pattern_level_in(table: RuleTable) -> Level {
    match table {
        RuleTable::UserDefinedPatterns(t) => level_or(opt(t.level), Level::Warning),
        _ => Level::Warning,
    }
}

/// The compiled patterns of a table; what is said when they are compiled goes to `notes`.
pub fn load_patterns(table: &RuleTable, notes: &mut Vec<String>) -> (r: Vec<CompiledPattern>)
    ensures
        pattern_views(r@) == all_compiled(patterns_in(*table), pattern_level_in(*table)),
        strs(final(notes)@) == strs(old(notes)@) + crate::kpt::all_notes(patterns_in(*table)),
{
    match table {
        RuleTable::UserDefinedPatterns(t) => {
            let level = parse_default_level(&t.level);
            t.sources.load_patterns(level, notes)
        },
        _ => {
            let none: Vec<CompiledPattern> = Vec::new();
            assert(pattern_views(none@) =~= Seq::empty());
            assert(strs(notes@) + Seq::<Seq<char>>::empty() =~= strs(notes@));
            none
        },
    }
}

/// What KPT checks.
pub const KPT_EXPLANATION: &'static str = "KPT001 — User-defined pattern rules

  Checks every Python source file against a set of regular expressions
  defined in your project configuration.

  Patterns are loaded from the first available source:
    1. Inline [[tool.konform.lint.user-defined-patterns.rules]] in pyproject.toml / konform.toml
    2. rules_file = \"path\" in [tool.konform.lint.user-defined-patterns]
    3. konform_patterns.toml  (auto-discovered next to the config file)
    4. konform_patterns.yaml  (legacy fallback)

  Each pattern entry:
    id      = \"KPT001\"
    message = \"Use the logger instead of bare print().\"
    pattern = '^\\s*print\\('              # single string
    # or a list — any match fires the rule:
    pattern = ['^\\s*print\\(', '^\\s*breakpoint\\(']
    files   = [\"src/**/*.py\"]   # optional glob filter
    level   = \"warning\"         # or \"error\"
    help    = \"Use logger.info() instead.\"  # optional guidance text

  Sub-rules refine the message and help for more specific matches.
  The first sub-rule whose pattern(s) match the already-flagged line wins:

    [[rules]]
    id      = \"CTFW001\"
    message = \"os.environ found — discouraged in test code.\"
    pattern = 'os\\.environ'
    help    = \"Contact the project maintainers for guidance.\"

    [[rules.sub_rules]]
    # pattern accepts a single string or a list; any match fires the sub-rule
    pattern = ['os\\.environ\\.get\\(', 'os\\.environ\\[']
    message = \"os.environ — baseline_handle access detected.\"
    help    = \"Use the 'core_baseline' fixture instead.\"

  Suppress per-line:
    os.environ.get(\"X\")   # noqa: CTFW001
    os.environ.get(\"X\")   # noqa: KPT      (silences all KPT rules on this line)
";

impl KptRule {
    /// What the rule's findings in a file depend on.
    pub open spec fn file_input(&self, ctx: ContextView) -> FileInput {
        FileInput {
            path: ctx.path,
            source: ctx.source,
            ignore_noqa: ctx.ignore_noqa,
            aliases: ctx.aliases,
            config_dir: opt(self.config_dir),
            cwd: ctx.cwd,
        }
    }
}

impl Rule for KptRule {
    open spec fn code_of(&self) -> Seq<char> {
        "KPT001"@
    }

    open spec fn config_name_of(&self) -> Seq<char> {
        "user-defined-patterns"@
    }

    open spec fn category_of(&self) -> Seq<char> {
        "KPT"@
    }

    open spec fn name_of(&self) -> Seq<char> {
        "Pattern rules"@
    }

    open spec fn description_of(&self) -> Seq<char> {
        "Checks files against user-defined regex patterns from konform_patterns.toml."@
    }

    open spec fn explanation_of(&self) -> Seq<char> {
        KPT_EXPLANATION@
    }

    open spec fn fixable_of(&self) -> bool {
        self.can_fix
    }

    open spec fn finds(&self, ctx: ContextView, table: RuleTable) -> Seq<ViolationView> {
        if countable(ctx.source) {
            self.file_input(ctx).all_findings(
                all_compiled(patterns_in(table), pattern_level_in(table)),
            )
        } else {
            Seq::empty()
        }
    }

    open spec fn fixes(&self, ctx: ContextView, table: RuleTable) -> Result<
        Option<Seq<char>>,
        Seq<char>,
    > {
        let patterns = all_compiled(patterns_in(table), pattern_level_in(table));
        let after = match ctx.target {
            Some(target) => target_result(self.file_input(ctx), patterns, target),
            None => self.file_input(ctx).after_all(patterns),
        };
        Ok(
            if after == ctx.source {
                None
            } else {
                Some(after)
            },
        )
    }

    fn code(&self) -> (r: String) {
        "KPT001".to_owned()
    }

    fn category(&self) -> (r: String) {
        "KPT".to_owned()
    }

    fn config_name(&self) -> (r: String) {
        "user-defined-patterns".to_owned()
    }

    fn name(&self) -> (r: String) {
        "Pattern rules".to_owned()
    }

    fn description(&self) -> (r: String) {
        "Checks files against user-defined regex patterns from konform_patterns.toml.".to_owned()
    }

    fn fixable(&self) -> (r: bool) {
        self.can_fix
    }

    fn check(&self, ctx: &FileContext, table: &RuleTable) -> (r: Vec<Violation>) {
        let mut notes: Vec<String> = Vec::new();
        let patterns = load_patterns(table, &mut notes);
        let q = KptQuery {
            path: ctx.path.as_str(),
            source: ctx.source.as_str(),
            ignore_noqa: ctx.ignore_noqa,
            noqa_aliases: &ctx.noqa_aliases,
            config_dir: &self.config_dir,
            cwd: &ctx.cwd,
        };
        assert(q.input() == self.file_input(ctx@));
        check_patterns(&q, &patterns)
    }

    fn fix(&self, ctx: &FileContext, table: &RuleTable) -> (r: Result<Option<String>, FixError>) {
        let mut notes: Vec<String> = Vec::new();
        let patterns = load_patterns(table, &mut notes);
        let q = KptQuery {
            path: ctx.path.as_str(),
            source: ctx.source.as_str(),
            ignore_noqa: ctx.ignore_noqa,
            noqa_aliases: &ctx.noqa_aliases,
            config_dir: &self.config_dir,
            cwd: &ctx.cwd,
        };
        assert(q.input() == self.file_input(ctx@));
        Ok(
            match &ctx.fix_target {
                Some(target) => fix_target(&q, &patterns, target),
                None => fix_patterns(&q, &patterns),
            },
        )
    }

    fn explain(&self) -> (r: String) {
        KPT_EXPLANATION.to_owned()
    }
}

// ---------------------------------------------------------------------------
// The rules that there are
// ---------------------------------------------------------------------------

/// One of the rules of this linter.
pub enum BuiltinRule {
    Kis001(Kis001Rule),
    Kis002(Kis002Rule),
    Kpt(KptRule),
}

impl Rule for BuiltinRule {
    open spec fn code_of(&self) -> Seq<char> {
        match self {
            BuiltinRule::Kis001(r) => r.code_of(),
            BuiltinRule::Kis002(r) => r.code_of(),
            BuiltinRule::Kpt(r) => r.code_of(),
        }
    }

    open spec fn config_name_of(&self) -> Seq<char> {
        match self {
            BuiltinRule::Kis001(r) => r.config_name_of(),
            BuiltinRule::Kis002(r) => r.config_name_of(),
            BuiltinRule::Kpt(r) => r.config_name_of(),
        }
    }

    open spec fn category_of(&self) -> Seq<char> {
        match self {
            BuiltinRule::Kis001(r) => r.category_of(),
            BuiltinRule::Kis002(r) => r.category_of(),
            BuiltinRule::Kpt(r) => r.category_of(),
        }
    }

    open spec fn name_of(&self) -> Seq<char> {
        match self {
            BuiltinRule::Kis001(r) => r.name_of(),
            BuiltinRule::Kis002(r) => r.name_of(),
            BuiltinRule::Kpt(r) => r.name_of(),
        }
    }

    open spec fn description_of(&self) -> Seq<char> {
        match self {
            BuiltinRule::Kis001(r) => r.description_of(),
            BuiltinRule::Kis002(r) => r.description_of(),
            BuiltinRule::Kpt(r) => r.description_of(),
        }
    }

    open spec fn explanation_of(&self) -> Seq<char> {
        match self {
            BuiltinRule::Kis001(r) => r.explanation_of(),
            BuiltinRule::Kis002(r) => r.explanation_of(),
            BuiltinRule::Kpt(r) => r.explanation_of(),
        }
    }

    open spec fn fixable_of(&self) -> bool {
        match self {
            BuiltinRule::Kis001(r) => r.fixable_of(),
            BuiltinRule::Kis002(r) => r.fixable_of(),
            BuiltinRule::Kpt(r) => r.fixable_of(),
        }
    }

    open spec fn finds(&self, ctx: ContextView, table: RuleTable) -> Seq<ViolationView> {
        match self {
            BuiltinRule::Kis001(r) => r.finds(ctx, table),
            BuiltinRule::Kis002(r) => r.finds(ctx, table),
            BuiltinRule::Kpt(r) => r.finds(ctx, table),
        }
    }

    open spec fn fixes(&self, ctx: ContextView, table: RuleTable) -> Result<
        Option<Seq<char>>,
        Seq<char>,
    > {
        match self {
            BuiltinRule::Kis001(r) => r.fixes(ctx, table),
            BuiltinRule::Kis002(r) => r.fixes(ctx, table),
            BuiltinRule::Kpt(r) => r.fixes(ctx, table),
        }
    }

    fn code(&self) -> (r: String) {
        match self {
            BuiltinRule::Kis001(r) => r.code(),
            BuiltinRule::Kis002(r) => r.code(),
            BuiltinRule::Kpt(r) => r.code(),
        }
    }

    fn category(&self) -> (r: String) {
        match self {
            BuiltinRule::Kis001(r) => r.category(),
            BuiltinRule::Kis002(r) => r.category(),
            BuiltinRule::Kpt(r) => r.category(),
        }
    }

    fn config_name(&self) -> (r: String) {
        match self {
            BuiltinRule::Kis001(r) => r.config_name(),
            BuiltinRule::Kis002(r) => r.config_name(),
            BuiltinRule::Kpt(r) => r.config_name(),
        }
    }

    fn name(&self) -> (r: String) {
        match self {
            BuiltinRule::Kis001(r) => r.name(),
            BuiltinRule::Kis002(r) => r.name(),
            BuiltinRule::Kpt(r) => r.name(),
        }
    }

    fn description(&self) -> (r: String) {
        match self {
            BuiltinRule::Kis001(r) => r.description(),
            BuiltinRule::Kis002(r) => r.description(),
            BuiltinRule::Kpt(r) => r.description(),
        }
    }

    fn fixable(&self) -> (r: bool) {
        match self {
            BuiltinRule::Kis001(r) => r.fixable(),
            BuiltinRule::Kis002(r) => r.fixable(),
            BuiltinRule::Kpt(r) => r.fixable(),
        }
    }

    fn check(&self, ctx: &FileContext, table: &RuleTable) -> (r: Vec<Violation>) {
        match self {
            BuiltinRule::Kis001(r) => r.check(ctx, table),
            BuiltinRule::Kis002(r) => r.check(ctx, table),
            BuiltinRule::Kpt(r) => r.check(ctx, table),
        }
    }

    fn fix(&self, ctx: &FileContext, table: &RuleTable) -> (r: Result<Option<String>, FixError>) {
        match self {
            BuiltinRule::Kis001(r) => r.fix(ctx, table),
            BuiltinRule::Kis002(r) => r.fix(ctx, table),
            BuiltinRule::Kpt(r) => r.fix(ctx, table),
        }
    }

    fn explain(&self) -> (r: String) {
        match self {
            BuiltinRule::Kis001(r) => r.explain(),
            BuiltinRule::Kis002(r) => r.explain(),
            BuiltinRule::Kpt(r) => r.explain(),
        }
    }
}

/// The active rules, with the rules of the pattern file beside the configuration.
pub fn all_rules(
    facts: ModuleFacts,
    config_dir: Option<String>,
    discovered: Vec<RawPattern>,
) -> (r: Vec<BuiltinRule>)
    ensures
        r@.len() == 2,
        r@[0] matches BuiltinRule::Kis001(rule) && rule.facts@ == facts@,
        r@[1] matches BuiltinRule::Kpt(rule) && opt(rule.config_dir) == opt(config_dir)
            && rule.can_fix == any_replacement(all_compiled(discovered@, Level::Warning)),
{
    let mut rules: Vec<BuiltinRule> = Vec::new();
    rules.push(BuiltinRule::Kis001(Kis001Rule::new(facts)));
    rules.push(BuiltinRule::Kpt(KptRule::with_discovered(config_dir, discovered)));
    rules
}

/// The compiled patterns that are in force under a configuration.
pub open spec fn patterns_in_force(config: Config) -> Seq<PatternView> {
    let table = table_of(config.lint.rules@, "user-defined-patterns"@);
    all_compiled(patterns_in(table), pattern_level_in(table))
}

/// The active rules for a configuration. The pattern rule can fix where a pattern in force has a
/// replacement, be it written in the configuration or in a file.
pub fn rules_for(facts: ModuleFacts, config: &Config) -> (r: Vec<BuiltinRule>)
    ensures
        r@.len() == 2,
        r@[0] matches BuiltinRule::Kis001(rule) && rule.facts@ == facts@,
        r@[1] matches BuiltinRule::Kpt(rule) && opt(rule.config_dir) == opt(config.config_dir)
            && rule.can_fix == any_replacement(patterns_in_force(*config)),
{
    let mut notes: Vec<String> = Vec::new();
    let patterns = load_patterns(config.rule_config("user-defined-patterns"), &mut notes);
    let rule = KptRule {
        config_dir: copy_opt(&config.config_dir),
        can_fix: has_replacement(&patterns),
    };
    let mut rules: Vec<BuiltinRule> = Vec::new();
    rules.push(BuiltinRule::Kis001(Kis001Rule::new(facts)));
    rules.push(BuiltinRule::Kpt(rule));
    rules
}

} // verus!
