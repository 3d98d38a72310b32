//! KIS001: `from X import Y` imports a module and nothing else.
//!
//! A name that is no module is reported. Where the name, and the module name that takes its
//! place, mean one thing throughout the file, the import can be rewritten and every use of the
//! name qualified.
use crate::import_items::{
    collect_all_exports, collect_imports, exported, import_items, is_item, item_of, item_views,
    ImportItem, ItemView, Places,
};
use crate::imports::{
    alias_asname, alias_name, binding_of, dots, is_import_alias, module_of, reached, reached_nodes,
    read_asname, read_module, read_name, statement_of, write_dots,
};
use crate::line_index::{ascending, build_line_starts, line_starts_of, offsets};
use crate::module_facts::{answer, AnswerView, ModuleCheck, ModuleFacts};
use crate::noqa::{has_noqa, pairs, suppressed};
use crate::ordered::has_text;
use crate::scope::{bound, collect_bound_names};
use crate::split::{head, head_spec, join_first, join_spec, lines_spec, split, split_spec, str_lines};
use crate::syntax::{module_nodes, parse_module_stmts, views, well_formed, Kind, Node, NodeView};
use crate::text::{chars, eq, strs};
use crate::types::{
    aimed_at, is_aimed_at, opt, target_of, violation_views, FixTarget, Level, TargetView,
    Violation, ViolationView,
};
use vstd::prelude::*;
use vstd::string::*;

verus! {

// ---------------------------------------------------------------------------
// Settings
// ---------------------------------------------------------------------------

/// The settings of the rule.
pub struct Kis001Settings {
    /// Modules from which anything may be imported.
    pub exceptions: Vec<String>,
    pub level: Level,
    /// The level of names whose package was not found; `None` does not report them.
    pub unresolved_level: Option<Level>,
}

/// The rule's table as the configuration file has it. A field is absent where the table has no
/// such entry or one of another type; an exception is absent where it is no string.
pub struct Kis001Table {
    pub exceptions: Option<Vec<Option<String>>>,
    pub level: Option<String>,
    /// The entry `unresolved-level`, or `unresolved_level`.
    pub unresolved_level: Option<String>,
}

/// The strings among several optional ones, in order.
pub open spec fn present(v: Seq<Option<String>>) -> Seq<Seq<char>>
    decreases v.len(),
{
    if v.len() == 0 {
        Seq::empty()
    } else {
        let before = present(v.drop_last());
        match v.last() {
            Some(s) => before.push(s@),
            None => before,
        }
    }
}

/// The modules that are excepted where the table names none.
pub open spec fn default_exceptions() -> Seq<Seq<char>> {
    seq!["__future__"@, "typing"@, "typing_extensions"@, "collections.abc"@]
}

/// A letter in lower case; other characters as they are.
pub open spec fn lower_letter(c: char) -> char {
    if 'A' <= c <= 'Z' {
        (c as u32 + 32) as u32 as char
    } else {
        c
    }
}

/// Whether two texts are the same but for the case of ASCII letters.
pub open spec fn same_ignoring_case(a: Seq<char>, b: Seq<char>) -> bool {
    a.map_values(|c: char| lower_letter(c)) == b.map_values(|c: char| lower_letter(c))
}

/// The level that a setting names, or `default`.
pub open spec fn level_or(setting: Option<Seq<char>>, default: Level) -> Level {
    match setting {
        Some(name) => match Level::named(crate::types::lowercase(name)) {
            Some(level) => level,
            None => default,
        },
        None => default,
    }
}

/// The level of unresolved names: `off` in any case gives none.
pub open spec fn unresolved_of(setting: Option<Seq<char>>) -> Option<Level> {
    match setting {
        Some(name) => if same_ignoring_case(name, "off"@) {
            None
        } else {
            Some(level_or(setting, Level::Warning))
        },
        None => Some(Level::Warning),
    }
}

/// The level that a setting names, or `default`.
pub fn read_level(setting: &Option<String>, default: Level) -> (r: Level)
    ensures
        r == level_or(opt(*setting), default),
{
    match setting {
        Some(name) => match Level::parse(name.as_str()) {
            Ok(level) => level,
            Err(_) => default,
        },
        None => default,
    }
}

/// A letter in lower case; other characters as they are.
fn to_lower_letter(c: char) -> (r: char)
    ensures
        r == lower_letter(c),
{
    match c {
        'A' => 'a',
        'B' => 'b',
        'C' => 'c',
        'D' => 'd',
        'E' => 'e',
        'F' => 'f',
        'G' => 'g',
        'H' => 'h',
        'I' => 'i',
        'J' => 'j',
        'K' => 'k',
        'L' => 'l',
        'M' => 'm',
        'N' => 'n',
        'O' => 'o',
        'P' => 'p',
        'Q' => 'q',
        'R' => 'r',
        'S' => 's',
        'T' => 't',
        'U' => 'u',
        'V' => 'v',
        'W' => 'w',
        'X' => 'x',
        'Y' => 'y',
        'Z' => 'z',
        _ => c,
    }
}

/// Whether two strings are the same but for the case of ASCII letters.
pub fn eq_ignoring_case(a: &str, b: &str) -> (r: bool)
    ensures
        r == same_ignoring_case(a@, b@),
{
    let x = chars(a);
    let y = chars(b);
    let ghost low_x = x@.map_values(|c: char| lower_letter(c));
    let ghost low_y = y@.map_values(|c: char| lower_letter(c));
    if x.len() != y.len() {
        assert(low_x.len() != low_y.len());
        return false;
    }
    let mut i: usize = 0;
    while i < x.len()
        invariant
            i <= x@.len(),
            x@.len() == y@.len(),
            low_x == x@.map_values(|c: char| lower_letter(c)),
            low_y == y@.map_values(|c: char| lower_letter(c)),
            x@ == a@,
            y@ == b@,
            forall|j: int| 0 <= j < i ==> low_x[j] == low_y[j],
        decreases x@.len() - i,
    {
        assert(low_x[i as int] == lower_letter(x@[i as int]));
        assert(low_y[i as int] == lower_letter(y@[i as int]));
        if to_lower_letter(x[i]) != to_lower_letter(y[i]) {
            return false;
        }
        i += 1;
    }
    assert(low_x =~= low_y);
    true
}

/// Reads the settings of the rule; what is absent or unreadable has its default.
pub fn parse_kis_config(table: &Kis001Table) -> (r: Kis001Settings)
    ensures
        strs(r.exceptions@) == match table.exceptions {
            Some(list) => present(list@),
            None => default_exceptions(),
        },
        r.level == level_or(opt(table.level), Level::Error),
        r.unresolved_level == unresolved_of(opt(table.unresolved_level)),
{
    let mut exceptions: Vec<String> = Vec::new();
    match &table.exceptions {
        Some(list) => {
            let mut i: usize = 0;
            assert(strs(exceptions@) =~= Seq::empty());
            assert(list@.take(0) =~= Seq::empty());
            while i < list.len()
                invariant
                    i <= list@.len(),
                    strs(exceptions@) == present(list@.take(i as int)),
                decreases list@.len() - i,
            {
                assert(list@.take(i + 1).drop_last() =~= list@.take(i as int));
                assert(list@.take(i + 1).last() == list@[i as int]);
                let ghost before = exceptions@;
                match &list[i] {
                    Some(s) => {
                        exceptions.push(s.clone());
                        assert(strs(exceptions@) =~= strs(before).push(s@));
                    },
                    None => {},
                }
                i += 1;
            }
            assert(list@.take(list@.len() as int) =~= list@);
        },
        None => {
            exceptions.push("__future__".to_owned());
            exceptions.push("typing".to_owned());
            exceptions.push("typing_extensions".to_owned());
            exceptions.push("collections.abc".to_owned());
            assert(strs(exceptions@) =~= default_exceptions());
        },
    }
    let unresolved_level = match &table.unresolved_level {
        Some(name) => if eq_ignoring_case(name.as_str(), "off") {
            None
        } else {
            Some(read_level(&table.unresolved_level, Level::Warning))
        },
        None => Some(Level::Warning),
    };
    Kis001Settings {
        exceptions,
        level: read_level(&table.level, Level::Error),
        unresolved_level,
    }
}

// ---------------------------------------------------------------------------
// Which names are looked at
// ---------------------------------------------------------------------------

/// All that the rule's findings in a file depend on.
#[verifier::ext_equal]
pub struct Input {
    pub source: Seq<char>,
    pub facts: Seq<AnswerView>,
    pub exceptions: Seq<Seq<char>>,
    pub ignore_noqa: bool,
    pub aliases: Seq<(Seq<char>, Seq<char>)>,
    /// The violation that alone is to be fixed.
    pub target: Option<TargetView>,
}

impl Input {
    /// The nodes of the file.
    pub open spec fn nodes(self) -> Seq<NodeView> {
        module_nodes(self.source)
    }

    /// The imported names of the file.
    pub open spec fn items(self) -> Seq<ItemView> {
        import_items(line_starts_of(self.source), self.nodes())
    }

    /// Whether a `# noqa` on a line suppresses the rule.
    pub open spec fn quiet(self, line: int) -> bool {
        !self.ignore_noqa && 1 <= line <= lines_spec(self.source).len() && suppressed(
            lines_spec(self.source)[line - 1],
            "KIS001"@,
            self.aliases,
        )
    }

    /// Whether the statement of an item is looked at: its module is not excepted, and no
    /// `# noqa` on its first line silences it.
    pub open spec fn considered(self, it: ItemView) -> bool {
        !self.exceptions.contains(it.module) && !self.quiet(it.start_line)
    }

    /// Whether an item is a module.
    pub open spec fn verdict(self, it: ItemView) -> ModuleCheck {
        answer(self.facts, it.module, it.name)
    }

    /// Whether an item is reported: it is not known to be a module, the file does not re-export
    /// it, and nothing silences it.
    pub open spec fn reported(self, it: ItemView) -> bool {
        &&& self.considered(it)
        &&& self.verdict(it) != ModuleCheck::Module
        &&& !exported(self.nodes(), it.local())
        &&& !exported(self.nodes(), it.name)
        &&& !self.quiet(it.line)
    }

    /// Whether an item is reported as what is no module, and is to be fixed.
    pub open spec fn flagged(self, it: ItemView) -> bool {
        self.reported(it) && self.verdict(it) == ModuleCheck::NotModule && aimed_at(
            self.target,
            "KIS001"@,
            it.start_line,
            it.col,
        )
    }

    /// Whether the node at `b` is an imported name that is no module.
    pub open spec fn flagged_node(self, b: int) -> bool {
        is_item(self.nodes(), b) && self.flagged(
            item_of(line_starts_of(self.source), self.nodes(), b),
        )
    }
}

// ---------------------------------------------------------------------------
// What a fix would do
// ---------------------------------------------------------------------------

/// What takes the place of an imported name.
pub struct FixInfo {
    /// The import to add.
    pub import_stmt: String,
    /// The module that it imports.
    pub import_key: String,
    /// What every use of the name becomes.
    pub new_qualified: String,
    /// The name that the import binds.
    pub new_bound_name: String,
    /// The module that this name then means.
    pub new_target: String,
}

/// What a [`FixInfo`] says.
#[verifier::ext_equal]
pub struct FixView {
    pub stmt: Seq<char>,
    pub key: Seq<char>,
    pub qualified: Seq<char>,
    pub bound: Seq<char>,
    pub target: Seq<char>,
}

impl View for FixInfo {
    type V = FixView;

    open spec fn view(&self) -> FixView {
        FixView {
            stmt: self.import_stmt@,
            key: self.import_key@,
            qualified: self.new_qualified@,
            bound: self.new_bound_name@,
            target: self.new_target@,
        }
    }
}

/// The deepest split of a dotted path, at most `n`, whose child is a module of its parent.
pub open spec fn module_split(
    facts: Seq<AnswerView>,
    parts: Seq<Seq<char>>,
    n: int,
) -> Option<int>
    decreases n,
{
    if n < 1 {
        None
    } else if answer(facts, join_spec(parts.take(n), "."@), parts[n]) == ModuleCheck::Module {
        Some(n)
    } else {
        module_split(facts, parts, n - 1)
    }
}

/// What takes the place of `name` from `module`: the module itself imported from its parent, or
/// else by its full path.
pub open spec fn fix_of(facts: Seq<AnswerView>, module: Seq<char>, name: Seq<char>) -> FixView {
    let parts = split_spec(module, '.');
    match module_split(facts, parts, parts.len() - 1) {
        Some(n) => {
            let parent = join_spec(parts.take(n), "."@);
            let child = parts[n];
            FixView {
                stmt: "from "@ + parent + " import "@ + child,
                key: parent + "."@ + child,
                qualified: child + "."@ + name,
                bound: child,
                target: parent + "."@ + child,
            }
        },
        None => FixView {
            stmt: "import "@ + module,
            key: module,
            qualified: module + "."@ + name,
            bound: parts[0],
            target: parts[0],
        },
    }
}

/// What takes the place of `attr_name` imported from `module`.
pub fn can_fix(module: &str, attr_name: &str, facts: &ModuleFacts) -> (r: FixInfo)
    ensures
        r@ == fix_of(facts@, module@, attr_name@),
{
    let text = chars(module);
    let parts = split(text.as_slice(), '.');
    let ghost all = split_spec(module@, '.');
    proof {
        crate::split::lemma_split_nonempty(module@, '.');
    }
    assert(strs(parts@).len() == parts@.len());
    let mut n: usize = parts.len() - 1;
    while n >= 1
        invariant
            n < parts@.len(),
            strs(parts@) == all,
            all == split_spec(module@, '.'),
            module_split(facts@, all, all.len() - 1) == module_split(facts@, all, n as int),
        decreases n,
    {
        let parent = join_first(&parts, n, ".");
        assert(strs(parts@)[n as int] == parts@[n as int]@);
        if facts.is_module(parent.as_str(), parts[n].as_str()) {
            let mut stmt = "from ".to_owned();
            stmt.append(parent.as_str());
            stmt.append(" import ");
            stmt.append(parts[n].as_str());
            let mut key = parent;
            key.append(".");
            key.append(parts[n].as_str());
            let mut qualified = parts[n].clone();
            qualified.append(".");
            qualified.append(attr_name);
            return FixInfo {
                import_stmt: stmt,
                import_key: key.clone(),
                new_qualified: qualified,
                new_bound_name: parts[n].clone(),
                new_target: key,
            };
        }
        n -= 1;
    }
    assert(strs(parts@)[0] == parts@[0]@);
    let mut stmt = "import ".to_owned();
    stmt.append(module);
    let mut qualified = module.to_owned();
    qualified.append(".");
    qualified.append(attr_name);
    FixInfo {
        import_stmt: stmt,
        import_key: module.to_owned(),
        new_qualified: qualified,
        new_bound_name: parts[0].clone(),
        new_target: parts[0].clone(),
    }
}

/// The dotted path of what an import alias binds.
pub open spec fn path_of(nodes: Seq<NodeView>, a: int) -> Seq<char> {
    let s = statement_of(nodes, a);
    if s.kind == Kind::ImportFrom {
        match module_of(nodes, nodes[a].parent) {
            Some(module) => dots(s.level) + module + "."@ + alias_name(nodes, a),
            None => dots(s.level) + alias_name(nodes, a),
        }
    } else {
        match alias_asname(nodes, a) {
            Some(_) => alias_name(nodes, a),
            None => head_spec(alias_name(nodes, a), '.'),
        }
    }
}

impl Input {
    /// Whether an import that stays as it is binds `name` to something other than `target`.
    pub open spec fn overlaps(self, name: Seq<char>, target: Seq<char>) -> bool {
        exists|b: int|
            0 <= b < self.nodes().len() && #[trigger] is_import_alias(self.nodes(), b)
                && !self.flagged_node(b) && binding_of(self.nodes(), b).0 == name && path_of(
                self.nodes(),
                b,
            ) != target
    }

    /// What takes the place of an item.
    pub open spec fn fix(self, it: ItemView) -> FixView {
        fix_of(self.facts, it.module, it.name)
    }

    /// Whether rewriting an item keeps the meaning of the file, where the fixes in `prior` are
    /// made too: neither its name nor the new one is bound otherwise.
    pub open spec fn safe(self, it: ItemView, prior: Seq<PlanView>) -> bool {
        let fix = self.fix(it);
        &&& !bound(self.nodes(), it.local())
        &&& !bound(self.nodes(), fix.bound)
        &&& !self.overlaps(fix.bound, fix.target)
        &&& !claimed(prior, fix.bound, fix.target)
    }

    /// The items among the first `n` that are rewritten, in source order. Of two that would bind
    /// one name to different modules only the first is.
    pub open spec fn plan(self, n: int) -> Seq<PlanView>
        decreases n,
    {
        if n <= 0 {
            Seq::empty()
        } else {
            let before = self.plan(n - 1);
            let it = self.items()[n - 1];
            if self.flagged(it) && self.safe(it, before) {
                before.push(PlanView { item: it, fix: self.fix(it) })
            } else {
                before
            }
        }
    }
}

/// An item that is rewritten, with what takes its place.
#[verifier::ext_equal]
pub struct PlanView {
    pub item: ItemView,
    pub fix: FixView,
}

/// Whether a fix in `prior` binds `name` to something other than `target`.
pub open spec fn claimed(prior: Seq<PlanView>, name: Seq<char>, target: Seq<char>) -> bool {
    exists|j: int|
        0 <= j < prior.len() && (#[trigger] prior[j]).fix.bound == name && prior[j].fix.target
            != target
}

// ---------------------------------------------------------------------------
// What is reported
// ---------------------------------------------------------------------------

/// What is said of a name that is no module.
pub open spec fn module_violation(
    it: ItemView,
    level: Level,
    colliding: Option<Seq<char>>,
) -> ViolationView {
    let help =
        "Use only module imports, see: https://google.github.io/styleguide/pyguide.html#22-imports"@;
    ViolationView {
        rule: "KIS001"@,
        line: it.start_line,
        col: it.col,
        end_line: it.end_line,
        end_col: it.end_col,
        message: "KIS001: Import '"@ + it.name + "' from '"@ + it.module + "' is not a module."@,
        help: Some(
            match colliding {
                None => help + " (fixable)"@,
                Some(name) => help + " (not auto-fixed: '"@ + name
                    + "' is also assigned/bound elsewhere in this file -- a rename could not reliably tell that binding apart from the import, so it must be fixed by hand)"@,
            },
        ),
        level,
        fixable: colliding is None,
    }
}

/// What is said of a name whose package was not found.
pub open spec fn unknown_violation(it: ItemView, level: Level) -> ViolationView {
    ViolationView {
        rule: "KIS001"@,
        line: it.start_line,
        col: it.col,
        end_line: it.end_line,
        end_col: it.end_col,
        message: "KIS001: Cannot verify whether '"@ + it.name + "' from '"@ + it.module
            + "' is a module -- '"@ + head_spec(it.module, '.')
            + "' was not found in this Python environment."@,
        help: Some(
            "Install the package in this environment so KIS001 can validate this import, or set `unresolved-level` in [tool.konform.lint.module-only-imports] to \"off\" to silence this warning."@,
        ),
        level,
        fixable: false,
    }
}

impl Input {
    /// The name that stands in the way of rewriting an item.
    pub open spec fn colliding(self, it: ItemView, prior: Seq<PlanView>) -> Option<Seq<char>> {
        if self.safe(it, prior) {
            None
        } else if bound(self.nodes(), it.local()) {
            Some(it.local())
        } else {
            Some(self.fix(it).bound)
        }
    }

    /// What is reported of the first `n` items.
    pub open spec fn violations(self, level: Level, unresolved: Option<Level>, n: int) -> Seq<
        ViolationView,
    >
        decreases n,
    {
        if n <= 0 {
            Seq::empty()
        } else {
            let before = self.violations(level, unresolved, n - 1);
            let it = self.items()[n - 1];
            if !self.reported(it) {
                before
            } else if self.verdict(it) == ModuleCheck::NotModule {
                before.push(
                    module_violation(it, level, self.colliding(it, self.plan(n - 1))),
                )
            } else {
                match unresolved {
                    Some(level) => before.push(unknown_violation(it, level)),
                    None => before,
                }
            }
        }
    }
}

/// Says that a name is no module.
fn make_violation(it: &ImportItem, level: Level, colliding: Option<String>) -> (r: Violation)
    ensures
        r@ == module_violation(it@, level, opt(colliding)),
{
    let mut message = "KIS001: Import '".to_owned();
    message.append(it.name.as_str());
    message.append("' from '");
    message.append(it.module.as_str());
    message.append("' is not a module.");
    let mut help =
        "Use only module imports, see: https://google.github.io/styleguide/pyguide.html#22-imports".to_owned();
    let fixable = match colliding {
        None => {
            help.append(" (fixable)");
            true
        },
        Some(name) => {
            help.append(" (not auto-fixed: '");
            help.append(name.as_str());
            help.append("' is also assigned/bound elsewhere in this file -- a rename could not reliably tell that binding apart from the import, so it must be fixed by hand)");
            false
        },
    };
    Violation {
        rule: "KIS001".to_owned(),
        line: it.start_line,
        col: it.col,
        end_line: it.end_line,
        end_col: it.end_col,
        message,
        help: Some(help),
        level,
        fixable,
    }
}

/// Says that the package of a name was not found.
fn make_unknown_violation(it: &ImportItem, level: Level) -> (r: Violation)
    ensures
        r@ == unknown_violation(it@, level),
{
    let root = head(it.module.as_str(), '.');
    let mut message = "KIS001: Cannot verify whether '".to_owned();
    message.append(it.name.as_str());
    message.append("' from '");
    message.append(it.module.as_str());
    message.append("' is a module -- '");
    message.append(root.as_str());
    message.append("' was not found in this Python environment.");
    Violation {
        rule: "KIS001".to_owned(),
        line: it.start_line,
        col: it.col,
        end_line: it.end_line,
        end_col: it.end_col,
        message,
        help: Some(
            "Install the package in this environment so KIS001 can validate this import, or set `unresolved-level` in [tool.konform.lint.module-only-imports] to \"off\" to silence this warning.".to_owned(),
        ),
        level,
        fixable: false,
    }
}

// ---------------------------------------------------------------------------
// Looking at a file
// ---------------------------------------------------------------------------

/// A file to look at, with what the findings depend on.
pub struct Query<'a> {
    pub source: &'a str,
    pub facts: &'a ModuleFacts,
    pub exceptions: &'a Vec<String>,
    pub ignore_noqa: bool,
    pub noqa_aliases: &'a Vec<(String, String)>,
    /// The violation that alone is to be fixed.
    pub target: &'a Option<FixTarget>,
}

impl<'a> Query<'a> {
    /// What the query says.
    pub open spec fn input(&self) -> Input {
        Input {
            source: self.source@,
            facts: self.facts@,
            exceptions: strs(self.exceptions@),
            ignore_noqa: self.ignore_noqa,
            aliases: pairs(self.noqa_aliases@),
            target: target_of(*self.target),
        }
    }
}

/// What the imports among the first `n` nodes that stay as they are bind, with the path of each.
pub open spec fn kept_to(input: Input, n: int) -> Seq<(Seq<char>, Seq<char>)>
    decreases n,
{
    if n <= 0 {
        Seq::empty()
    } else {
        let before = kept_to(input, n - 1);
        if is_import_alias(input.nodes(), n - 1) && !input.flagged_node(n - 1) {
            before.push(
                (binding_of(input.nodes(), n - 1).0, path_of(input.nodes(), n - 1)),
            )
        } else {
            before
        }
    }
}

proof fn lemma_kept(input: Input, n: int, name: Seq<char>, target: Seq<char>)
    requires
        n <= input.nodes().len(),
    ensures
        crate::imports::binds_otherwise(kept_to(input, n), name, target) <==> exists|b: int|
            0 <= b < n && #[trigger] is_import_alias(input.nodes(), b) && !input.flagged_node(b)
                && binding_of(input.nodes(), b).0 == name && path_of(input.nodes(), b) != target,
    decreases n,
{
    if n > 0 {
        lemma_kept(input, n - 1, name, target);
        let before = kept_to(input, n - 1);
        let after = kept_to(input, n);
        if crate::imports::binds_otherwise(before, name, target) {
            let j = choose|j: int|
                0 <= j < before.len() && (#[trigger] before[j]).0 == name && before[j].1 != target;
            assert(after[j] == before[j]);
            let b = choose|b: int|
                0 <= b < n - 1 && #[trigger] is_import_alias(input.nodes(), b)
                    && !input.flagged_node(b) && binding_of(input.nodes(), b).0 == name && path_of(
                    input.nodes(),
                    b,
                ) != target;
            assert(is_import_alias(input.nodes(), b));
        }
        if crate::imports::binds_otherwise(after, name, target) {
            let j = choose|j: int|
                0 <= j < after.len() && (#[trigger] after[j]).0 == name && after[j].1 != target;
            if j < before.len() {
                assert(before[j] == after[j]);
            } else {
                assert(is_import_alias(input.nodes(), n - 1));
            }
        }
        if is_import_alias(input.nodes(), n - 1) && !input.flagged_node(n - 1) && binding_of(
            input.nodes(),
            n - 1,
        ).0 == name && path_of(input.nodes(), n - 1) != target {
            assert(after[before.len() as int].0 == name);
        }
    }
}

/// What is found in a file before anything is decided.
pub(crate) struct Survey {
    pub(crate) nodes: Vec<Node>,
    pub(crate) starts: Vec<u32>,
    pub(crate) source_lines: Vec<String>,
    pub(crate) items: Vec<ImportItem>,
    pub(crate) exports: Vec<String>,
    pub(crate) bound_names: Vec<String>,
}

impl Survey {
    /// The survey is that of the file that `input` names.
    pub(crate) open spec fn of(self, input: Input) -> bool {
        &&& views(self.nodes@) == input.nodes()
        &&& well_formed(input.nodes())
        &&& offsets(self.starts@) == line_starts_of(input.source)
        &&& ascending(offsets(self.starts@))
        &&& strs(self.source_lines@) == lines_spec(input.source)
        &&& item_views(self.items@) == input.items()
        &&& forall|name: Seq<char>|
            #![trigger strs(self.exports@).contains(name)]
            strs(self.exports@).contains(name) <==> exported(input.nodes(), name)
        &&& forall|name: Seq<char>|
            #![trigger strs(self.bound_names@).contains(name)]
            strs(self.bound_names@).contains(name) <==> bound(input.nodes(), name)
    }

    /// Looks at a file; `None` where it has no nodes.
    pub(crate) fn take(q: &Query<'_>) -> (r: Option<Survey>)
        ensures
            match r {
                Some(survey) => survey.of(q.input()),
                None => q.input().nodes() == Seq::<NodeView>::empty(),
            },
    {
        let nodes = parse_module_stmts(q.source);
        if nodes.len() == 0 {
            assert(views(nodes@) =~= Seq::<NodeView>::empty());
            return None;
        }
        let starts = build_line_starts(q.source);
        let items = collect_imports(&nodes, &starts);
        let exports = collect_all_exports(&nodes);
        let bound_names = collect_bound_names(&nodes);
        Some(
            Survey {
                nodes,
                starts,
                source_lines: str_lines(q.source),
                items,
                exports,
                bound_names,
            },
        )
    }

    /// Whether a `# noqa` on a line suppresses the rule.
    fn quiet(&self, q: &Query<'_>, line: usize) -> (r: bool)
        requires
            self.of(q.input()),
        ensures
            r == q.input().quiet(line as int),
    {
        if q.ignore_noqa || line < 1 || line > self.source_lines.len() {
            return false;
        }
        assert(strs(self.source_lines@)[line - 1] == self.source_lines@[line - 1]@);
        has_noqa(self.source_lines[line - 1].as_str(), "KIS001", q.noqa_aliases)
    }

    /// Whether the statement of an item is looked at.
    pub(crate) fn considered(&self, q: &Query<'_>, it: &ImportItem) -> (r: bool)
        requires
            self.of(q.input()),
        ensures
            r == q.input().considered(it@),
    {
        !has_text(q.exceptions, it.module.as_str()) && !self.quiet(q, it.start_line)
    }

    /// Whether an item is reported, and as what.
    fn reported(&self, q: &Query<'_>, it: &ImportItem) -> (r: Option<ModuleCheck>)
        requires
            self.of(q.input()),
        ensures
            match r {
                Some(check) => q.input().reported(it@) && check == q.input().verdict(it@),
                None => !q.input().reported(it@),
            },
    {
        if !self.considered(q, it) {
            return None;
        }
        let check = q.facts.check(it.module.as_str(), it.name.as_str());
        if check == ModuleCheck::Module {
            return None;
        }
        let local = local_of(it);
        if has_text(&self.exports, local.as_str()) || has_text(&self.exports, it.name.as_str()) {
            return None;
        }
        if self.quiet(q, it.line) {
            return None;
        }
        Some(check)
    }

    /// Whether an item is reported as what is no module, and is to be fixed.
    pub(crate) fn flagged(&self, q: &Query<'_>, it: &ImportItem) -> (r: bool)
        requires
            self.of(q.input()),
        ensures
            r == q.input().flagged(it@),
    {
        match self.reported(q, it) {
            Some(check) => check == ModuleCheck::NotModule && is_aimed_at(
                q.target,
                "KIS001",
                it.start_line,
                it.col,
            ),
            None => false,
        }
    }

    /// What the imports that stay as they are bind, with the path of each.
    pub(crate) fn kept(&self, q: &Query<'_>) -> (r: Vec<(String, String)>)
        requires
            self.of(q.input()),
        ensures
            pairs(r@) == kept_to(q.input(), q.input().nodes().len() as int),
    {
        let ghost all = q.input().nodes();
        let places = Places::find(&self.nodes);
        let visible = reached_nodes(&self.nodes);
        let mut out: Vec<(String, String)> = Vec::new();
        let mut b: usize = 0;
        assert(pairs(out@) =~= Seq::empty());
        while b < self.nodes.len()
            invariant
                b <= self.nodes@.len(),
                all == q.input().nodes(),
                self.of(q.input()),
                places.of(all),
                visible@.len() == self.nodes@.len(),
                forall|j: int|
                    0 <= j < visible@.len() ==> #[trigger] visible@[j] == reached(all, j),
                pairs(out@) == kept_to(q.input(), b as int),
            decreases self.nodes@.len() - b,
        {
            assert(all[b as int] == self.nodes@[b as int]@);
            assert(all[b as int].parent <= b);
            let p: usize = self.nodes[b].parent;
            assert(all[p as int] == self.nodes@[p as int]@);
            let k = self.nodes[p].kind;
            let ghost before = out@;
            if self.nodes[b].kind == Kind::Alias && (k == Kind::Import || k == Kind::ImportFrom)
                && visible[p] {
                let fixed = match places.read_item(&self.nodes, &self.starts, b) {
                    Some(item) => self.flagged(q, &item),
                    None => false,
                };
                if !fixed {
                    let entry = self.read_binding(b, p, Ghost(q.input()));
                    out.push(entry);
                    assert(pairs(out@) =~= pairs(before).push((entry.0@, entry.1@)));
                }
            }
            b += 1;
        }
        out
    }

    /// The name that the alias at `b` of the statement at `p` binds, and its path.
    fn read_binding(&self, b: usize, p: usize, Ghost(input): Ghost<Input>) -> (r: (String, String))
        requires
            self.of(input),
            b < self.nodes@.len(),
            p < self.nodes@.len(),
            self.nodes@[b as int].parent == p,
            self.nodes@[p as int].kind == Kind::Import || self.nodes@[p as int].kind
                == Kind::ImportFrom,
        ensures
            r.0@ == binding_of(input.nodes(), b as int).0,
            r.1@ == path_of(input.nodes(), b as int),
    {
        assert(input.nodes()[b as int] == self.nodes@[b as int]@);
        assert(input.nodes()[p as int] == self.nodes@[p as int]@);
        let name = read_name(&self.nodes, b);
        let asname = read_asname(&self.nodes, b);
        if self.nodes[p].kind == Kind::ImportFrom {
            let mut path = write_dots(self.nodes[p].level);
            match read_module(&self.nodes, p) {
                Some(module) => {
                    path.append(module.as_str());
                    path.append(".");
                },
                None => {},
            }
            path.append(name.as_str());
            match asname {
                Some(asname) => (asname, path),
                None => (name, path),
            }
        } else {
            match asname {
                Some(asname) => (asname, name),
                None => {
                    let root = head(name.as_str(), '.');
                    (root.clone(), root)
                },
            }
        }
    }
}

/// The name that an item binds.
fn local_of(it: &ImportItem) -> (r: String)
    ensures
        r@ == it@.local(),
{
    match &it.asname {
        Some(asname) => asname.clone(),
        None => it.name.clone(),
    }
}

/// An item that is rewritten, by its place in the list, with what takes its place.
pub struct Planned {
    pub item: usize,
    pub fix: FixInfo,
}

/// What a plan for `items` says.
pub open spec fn plan_views(plan: Seq<Planned>, items: Seq<ItemView>) -> Seq<PlanView> {
    plan.map_values(|p: Planned| PlanView { item: items[p.item as int], fix: p.fix@ })
}

/// Whether a fix in `plan` binds `name` to something other than `target`.
fn is_claimed(
    plan: &Vec<Planned>,
    name: &str,
    target: &str,
    Ghost(items): Ghost<Seq<ItemView>>,
) -> (r: bool)
    ensures
        r == claimed(plan_views(plan@, items), name@, target@),
{
    let ghost all = plan_views(plan@, items);
    let mut i: usize = 0;
    while i < plan.len()
        invariant
            i <= plan@.len(),
            all == plan_views(plan@, items),
            forall|j: int|
                0 <= j < i ==> !((#[trigger] all[j]).fix.bound == name@ && all[j].fix.target
                    != target@),
        decreases plan@.len() - i,
    {
        assert(all[i as int].fix == plan@[i as int].fix@);
        if eq(plan[i].fix.new_bound_name.as_str(), name) && !eq(
            plan[i].fix.new_target.as_str(),
            target,
        ) {
            return true;
        }
        i += 1;
    }
    false
}

/// Decides on the item at `i`, which is no module, where `plan` is what is rewritten before it:
/// what takes its place, and the name that stands in the way.
pub(crate) fn decide(
    q: &Query<'_>,
    survey: &Survey,
    kept: &Vec<(String, String)>,
    plan: &Vec<Planned>,
    i: usize,
) -> (r: (FixInfo, Option<String>))
    requires
        survey.of(q.input()),
        pairs(kept@) == kept_to(q.input(), q.input().nodes().len() as int),
        plan_views(plan@, q.input().items()) == q.input().plan(i as int),
        i < survey.items@.len(),
    ensures
        r.0@ == q.input().fix(q.input().items()[i as int]),
        opt(r.1) == q.input().colliding(q.input().items()[i as int], q.input().plan(i as int)),
        r.1 is None <==> q.input().safe(q.input().items()[i as int], q.input().plan(i as int)),
{
    let it = &survey.items[i];
    assert(q.input().items()[i as int] == it@);
    let fix = can_fix(it.module.as_str(), it.name.as_str(), q.facts);
    let local = local_of(it);
    if has_text(&survey.bound_names, local.as_str()) {
        return (fix, Some(local));
    }
    proof {
        lemma_kept(
            q.input(),
            q.input().nodes().len() as int,
            fix.new_bound_name@,
            fix.new_target@,
        );
    }
    let taken = has_text(&survey.bound_names, fix.new_bound_name.as_str())
        || crate::imports::is_bound_otherwise(
        kept,
        fix.new_bound_name.as_str(),
        fix.new_target.as_str(),
    ) || is_claimed(
        plan,
        fix.new_bound_name.as_str(),
        fix.new_target.as_str(),
        Ghost(q.input().items()),
    );
    if taken {
        let name = fix.new_bound_name.clone();
        (fix, Some(name))
    } else {
        (fix, None)
    }
}

/// Reports every name of a `from` import that is not known to be a module.
pub fn check_imports(q: &Query<'_>, level: Level, unresolved_level: Option<Level>) -> (r: Vec<
    Violation,
>)
    ensures
        violation_views(r@) == q.input().violations(
            level,
            unresolved_level,
            q.input().items().len() as int,
        ),
{
    let mut out: Vec<Violation> = Vec::new();
    assert(violation_views(out@) =~= Seq::empty());
    let survey = match Survey::take(q) {
        Some(survey) => survey,
        None => {
            assert(q.input().items() =~= Seq::empty());
            return out;
        },
    };
    let ghost items = q.input().items();
    let kept = survey.kept(q);
    let mut plan: Vec<Planned> = Vec::new();
    assert(plan_views(plan@, items) =~= Seq::empty());
    let mut i: usize = 0;
    while i < survey.items.len()
        invariant
            i <= survey.items@.len(),
            survey.of(q.input()),
            items == q.input().items(),
            pairs(kept@) == kept_to(q.input(), q.input().nodes().len() as int),
            plan_views(plan@, items) == q.input().plan(i as int),
            violation_views(out@) == q.input().violations(level, unresolved_level, i as int),
        decreases survey.items@.len() - i,
    {
        let it = &survey.items[i];
        assert(items[i as int] == it@);
        let ghost before = out@;
        match survey.reported(q, it) {
            Some(check) => {
                if check == ModuleCheck::NotModule {
                    let (fix, colliding) = decide(q, &survey, &kept, &plan, i);
                    let safe = colliding.is_none();
                    let v = make_violation(it, level, colliding);
                    out.push(v);
                    assert(violation_views(out@) =~= violation_views(before).push(v@));
                    if safe && is_aimed_at(q.target, "KIS001", it.start_line, it.col) {
                        let ghost plan_before = plan@;
                        let planned = Planned { item: i, fix };
                        plan.push(planned);
                        assert(plan_views(plan@, items) =~= plan_views(plan_before, items).push(
                            PlanView { item: items[i as int], fix: fix@ },
                        ));
                    }
                } else {
                    match unresolved_level {
                        Some(unresolved) => {
                            let v = make_unknown_violation(it, unresolved);
                            out.push(v);
                            assert(violation_views(out@) =~= violation_views(before).push(v@));
                        },
                        None => {},
                    }
                }
            },
            None => {},
        }
        i += 1;
    }
    out
}

} // verus!
