//! What the settings of the rules mean, and how each rule uses them.
use crate::config::RuleTable;
use crate::import_items::ItemView;
use crate::kis001::{
    default_exceptions, level_or, lower_letter, module_violation, present, same_ignoring_case,
    unknown_violation, unresolved_of, Input, PlanView,
};
use crate::kis001_laws::{
    is_due, known_of, law_every_imported_object_is_reported, law_every_unknown_import_is_reported,
    law_nothing_else_is_reported, says_no_module, says_unknown,
};
use crate::kis002::{candidates, without_aliases};
use crate::kis002_laws::{
    is_needless, law_every_needless_alias_is_reported, law_only_needless_aliases_are_said_to_be,
    says_needless,
};
use crate::kpt::{all_compiled, countable, KptRule};
use crate::kpt_target::target_result;
use crate::module_facts::ModuleCheck;
use crate::rules::{pattern_level_in, patterns_in, ContextView, Kis001Rule, Kis002Rule, Rule};
use crate::scope::bound;
use crate::syntax::module_nodes;
use crate::types::{lowercase, opt, Level};
use vstd::prelude::*;

verus! {

// ---------------------------------------------------------------------------
// Settings
// ---------------------------------------------------------------------------

/// A level is named in any case; without a name, or with another, it is the default.
pub proof fn law_levels_are_named_in_any_case(name: Seq<char>, default: Level)
    ensures
        lowercase(name) == "warning"@ ==> level_or(Some(name), default) == Level::Warning,
        lowercase(name) == "error"@ ==> level_or(Some(name), default) == Level::Error,
        lowercase(name) != "warning"@ && lowercase(name) != "error"@ ==> level_or(
            Some(name),
            default,
        ) == default,
        level_or(None, default) == default,
{
    reveal_strlit("warning");
    reveal_strlit("error");
    assert("warning"@.len() != "error"@.len());
}

/// Texts are the same ignoring case where they have the same length and differ in nothing but the
/// case of letters.
pub proof fn law_case_is_ignored(a: Seq<char>, b: Seq<char>)
    ensures
        same_ignoring_case(a, b) <==> a.len() == b.len() && forall|i: int|
            0 <= i < a.len() ==> lower_letter(#[trigger] a[i]) == lower_letter(b[i]),
        forall|c: char| #![trigger lower_letter(c)] !('A' <= c <= 'Z') ==> lower_letter(c) == c,
        lower_letter('O') == 'o' && lower_letter('F') == 'f',
{
    let x = a.map_values(|c: char| lower_letter(c));
    let y = b.map_values(|c: char| lower_letter(c));
    if x == y {
        assert(x.len() == a.len() && y.len() == b.len());
        assert forall|i: int| 0 <= i < a.len() implies lower_letter(#[trigger] a[i]) == lower_letter(
            b[i],
        ) by {
            assert(x[i] == lower_letter(a[i]));
            assert(y[i] == lower_letter(b[i]));
        }
    }
    if a.len() == b.len() && forall|i: int|
        0 <= i < a.len() ==> lower_letter(#[trigger] a[i]) == lower_letter(b[i]) {
        assert(x =~= y);
    }
}

/// Imports that cannot be found are not reported where that is switched off, and else with the
/// level that is named, or as warnings.
pub proof fn law_unresolved_imports_can_be_left_alone(name: Seq<char>)
    ensures
        same_ignoring_case(name, "off"@) ==> unresolved_of(Some(name)) is None,
        !same_ignoring_case(name, "off"@) ==> unresolved_of(Some(name)) == Some(
            level_or(Some(name), Level::Warning),
        ),
        unresolved_of(None) == Some(Level::Warning),
{
}

/// The exceptions that are texts are kept, in order.
pub proof fn law_exceptions_are_kept(a: Seq<Option<String>>, b: Seq<Option<String>>, s: String)
    ensures
        present(a + b) == present(a) + present(b),
        present(seq![Some(s)]) == seq![s@],
        present(seq![None]).len() == 0,
    decreases b.len(),
{
    let all = a + b;
    let one = seq![Some(s)];
    assert(one.drop_last() =~= Seq::empty());
    assert(present(one.drop_last()) =~= Seq::empty());
    assert(one.last() == Some(s));
    assert(present(one) =~= seq![s@]);
    let none = seq![None::<String>];
    assert(none.drop_last() =~= Seq::empty());
    assert(present(none.drop_last()) =~= Seq::empty());
    assert(none.last() is None);
    if b.len() == 0 {
        assert(all =~= a);
        assert(present(a) + present(b) =~= present(a));
    } else {
        let rest = b.drop_last();
        law_exceptions_are_kept(a, rest, s);
        assert(all.drop_last() =~= a + rest);
        assert(all.last() == b.last());
        if b.last() is Some {
            let t = b.last()->0@;
            assert((present(a) + present(rest)).push(t) =~= present(a) + present(rest).push(t));
        }
    }
}

/// Where the table names no exceptions, four modules are excepted.
pub proof fn law_some_modules_are_excepted(table: RuleTable)
    ensures
        !(table is ModuleOnlyImports) || (table->ModuleOnlyImports_0).exceptions is None
            ==> Kis001Rule::exceptions_in(table) == seq![
            "__future__"@,
            "typing"@,
            "typing_extensions"@,
            "collections.abc"@,
        ],
        table is ModuleOnlyImports && (table->ModuleOnlyImports_0).exceptions is Some
            ==> Kis001Rule::exceptions_in(table) == present(
            (table->ModuleOnlyImports_0).exceptions->0@,
        ),
{
    assert(default_exceptions() =~= seq![
        "__future__"@,
        "typing"@,
        "typing_extensions"@,
        "collections.abc"@,
    ]);
}

// ---------------------------------------------------------------------------
// Module imports
// ---------------------------------------------------------------------------

/// The rule for module imports reports every imported object: with the level of its table, or as an
/// error where the table names none.
pub proof fn law_the_import_rule_reports_objects(
    rule: Kis001Rule,
    ctx: ContextView,
    table: RuleTable,
    a: int,
) -> (i: int)
    requires
        is_due(rule.input(ctx, table, None), a),
        known_of(rule.input(ctx, table, None), a) == ModuleCheck::NotModule,
    ensures
        0 <= i < rule.finds(ctx, table).len(),
        says_no_module(
            rule.input(ctx, table, None),
            a,
            if table is ModuleOnlyImports {
                level_or(opt((table->ModuleOnlyImports_0).level), Level::Error)
            } else {
                Level::Error
            },
            rule.finds(ctx, table)[i],
        ),
{
    law_every_imported_object_is_reported(
        rule.input(ctx, table, None),
        Kis001Rule::level_in(table),
        Kis001Rule::unresolved_in(table),
        a,
    )
}

/// It reports every import that cannot be found, unless its table switches that off.
pub proof fn law_the_import_rule_reports_unknown(
    rule: Kis001Rule,
    ctx: ContextView,
    table: RuleTable,
    level: Level,
    a: int,
) -> (i: int)
    requires
        is_due(rule.input(ctx, table, None), a),
        known_of(rule.input(ctx, table, None), a) == ModuleCheck::Unknown,
        if table is ModuleOnlyImports {
            unresolved_of(opt((table->ModuleOnlyImports_0).unresolved_level)) == Some(level)
        } else {
            level == Level::Warning
        },
    ensures
        0 <= i < rule.finds(ctx, table).len(),
        says_unknown(rule.input(ctx, table, None), a, level, rule.finds(ctx, table)[i]),
{
    law_every_unknown_import_is_reported(
        rule.input(ctx, table, None),
        Kis001Rule::level_in(table),
        level,
        a,
    )
}

/// It reports nothing else, and looks at the file, its comments and its exceptions alone.
pub proof fn law_the_import_rule_reports_nothing_else(
    rule: Kis001Rule,
    ctx: ContextView,
    table: RuleTable,
    i: int,
) -> (a: int)
    requires
        0 <= i < rule.finds(ctx, table).len(),
    ensures
        is_due(rule.input(ctx, table, None), a),
        known_of(rule.input(ctx, table, None), a) != ModuleCheck::Module,
        ({
            let input = rule.input(ctx, table, None);
            &&& input.source == ctx.source
            &&& input.ignore_noqa == ctx.ignore_noqa
            &&& input.aliases == ctx.aliases
            &&& input.facts == rule.facts@
            &&& input.target is None
        }),
{
    law_nothing_else_is_reported(
        rule.input(ctx, table, None),
        Kis001Rule::level_in(table),
        Kis001Rule::unresolved_in(table),
        i,
    )
}

/// A finding of an imported object says how it can be helped: it is fixable exactly where no name
/// stands in the way, and else names that.
pub proof fn law_findings_name_what_stands_in_the_way(
    it: ItemView,
    level: Level,
    name: Seq<char>,
)
    ensures
        module_violation(it, level, None).fixable,
        !module_violation(it, level, Some(name)).fixable,
        module_violation(it, level, None).help is Some,
        " (fixable)"@.is_suffix_of(module_violation(it, level, None).help->0),
        ("Use only module imports, see: https://google.github.io/styleguide/pyguide.html#22-imports (not auto-fixed: '"@
            + name).is_prefix_of(module_violation(it, level, Some(name)).help->0),
        unknown_violation(it, level).line == it.start_line,
        unknown_violation(it, level).col == it.col,
        unknown_violation(it, level).level == level,
{
    let help =
        "Use only module imports, see: https://google.github.io/styleguide/pyguide.html#22-imports"@;
    let a = module_violation(it, level, None).help->0;
    assert(a.skip(a.len() - " (fixable)"@.len()) =~= " (fixable)"@);
    let front = " (not auto-fixed: '"@;
    reveal_strlit(
        "Use only module imports, see: https://google.github.io/styleguide/pyguide.html#22-imports",
    );
    reveal_strlit(" (not auto-fixed: '");
    reveal_strlit(
        "Use only module imports, see: https://google.github.io/styleguide/pyguide.html#22-imports (not auto-fixed: '",
    );
    assert("Use only module imports, see: https://google.github.io/styleguide/pyguide.html#22-imports (not auto-fixed: '"@
        =~= help + front);
    let b = module_violation(it, level, Some(name)).help->0;
    let n = (help + front + name).len() as int;
    assert(b.take(n) =~= help + front + name);
}

/// The name that stands in the way of a fix is the imported one where that is bound otherwise, and
/// else the one that would take its place.
pub proof fn law_the_name_in_the_way_is_told(input: Input, it: ItemView, prior: Seq<PlanView>)
    ensures
        input.safe(it, prior) ==> input.colliding(it, prior) is None,
        !input.safe(it, prior) && bound(input.nodes(), it.local()) ==> input.colliding(it, prior)
            == Some(it.local()),
        !input.safe(it, prior) && !bound(input.nodes(), it.local()) ==> input.colliding(it, prior)
            == Some(input.fix(it).bound),
        bound(input.nodes(), it.local()) ==> !input.safe(it, prior),
{
}

// ---------------------------------------------------------------------------
// Aliases
// ---------------------------------------------------------------------------

/// The rule for aliases reports every needless alias, with the level of its table or as a warning,
/// and nothing else.
pub proof fn law_the_alias_rule_reports_needless_aliases(
    rule: Kis002Rule,
    ctx: ContextView,
    table: RuleTable,
    k: int,
) -> (i: int)
    requires
        0 <= k < candidates(module_nodes(ctx.source)).len(),
        is_needless(
            ctx.source,
            candidates(module_nodes(ctx.source))[k],
            ctx.ignore_noqa,
            ctx.aliases,
        ),
    ensures
        0 <= i < rule.finds(ctx, table).len(),
        says_needless(
            ctx.source,
            candidates(module_nodes(ctx.source))[k],
            if table is UnnecessaryImportAlias && (table->UnnecessaryImportAlias_0).level is Some {
                (table->UnnecessaryImportAlias_0).level->0
            } else {
                Level::Warning
            },
            rule.finds(ctx, table)[i],
        ),
{
    law_every_needless_alias_is_reported(
        ctx.source,
        Kis002Rule::level_in(table),
        ctx.ignore_noqa,
        ctx.aliases,
        candidates(module_nodes(ctx.source)).len() as int,
        k,
    )
}

/// The rule for aliases reports nothing but needless aliases.
pub proof fn law_the_alias_rule_reports_nothing_else(
    rule: Kis002Rule,
    ctx: ContextView,
    table: RuleTable,
    i: int,
) -> (k: int)
    requires
        0 <= i < rule.finds(ctx, table).len(),
    ensures
        0 <= k < candidates(module_nodes(ctx.source)).len(),
        is_needless(
            ctx.source,
            candidates(module_nodes(ctx.source))[k],
            ctx.ignore_noqa,
            ctx.aliases,
        ),
{
    law_only_needless_aliases_are_said_to_be(
        ctx.source,
        Kis002Rule::level_in(table),
        ctx.ignore_noqa,
        ctx.aliases,
        candidates(module_nodes(ctx.source)).len() as int,
        i,
    )
}

// ---------------------------------------------------------------------------
// Patterns
// ---------------------------------------------------------------------------

/// The rule for patterns reports what the patterns of its table find in the file; those that name
/// no level have that of the table, or that of a warning.
pub proof fn law_the_pattern_rule_reports_what_patterns_find(
    rule: KptRule,
    ctx: ContextView,
    table: RuleTable,
)
    requires
        countable(ctx.source),
    ensures
        table is UserDefinedPatterns ==> rule.finds(ctx, table) == rule.file_input(
            ctx,
        ).all_findings(
            all_compiled(
                (table->UserDefinedPatterns_0).sources.chosen(),
                level_or(opt((table->UserDefinedPatterns_0).level), Level::Warning),
            ),
        ),
        rule.file_input(ctx).source == ctx.source,
        rule.file_input(ctx).path == ctx.path,
        rule.file_input(ctx).ignore_noqa == ctx.ignore_noqa,
        rule.file_input(ctx).aliases == ctx.aliases,
        rule.file_input(ctx).cwd == ctx.cwd,
        rule.file_input(ctx).config_dir == opt(rule.config_dir),
        patterns_in(RuleTable::Empty).len() == 0,
        pattern_level_in(RuleTable::Empty) == Level::Warning,
{
}

// ---------------------------------------------------------------------------
// Fixes and names
// ---------------------------------------------------------------------------

/// Each rule fixes the file with the comments, the settings and the target that it is given.
pub proof fn law_rules_fix_what_they_are_given(
    imports: Kis001Rule,
    aliases: Kis002Rule,
    patterns: KptRule,
    ctx: ContextView,
    table: RuleTable,
)
    ensures
        imports.fixes(ctx, table) == Ok::<_, Seq<char>>(
            (Input { target: ctx.target, ..imports.input(ctx, table, None) }).fixed(),
        ),
        aliases.fixes(ctx, table) == Ok::<_, Seq<char>>(
            without_aliases(ctx.source, ctx.ignore_noqa, ctx.aliases, ctx.target),
        ),
        ({
            let used = all_compiled(patterns_in(table), pattern_level_in(table));
            let f = patterns.file_input(ctx);
            let new = if ctx.target is Some {
                target_result(f, used, ctx.target->0)
            } else {
                f.after_all(used)
            };
            patterns.fixes(ctx, table) == Ok::<_, Seq<char>>(
                if new == ctx.source {
                    None
                } else {
                    Some(new)
                },
            )
        }),
{
}

/// The rules have their codes, and find their tables under their names.
pub proof fn law_rules_have_their_codes(
    imports: Kis001Rule,
    aliases: Kis002Rule,
    patterns: KptRule,
)
    ensures
        imports.code_of() == "KIS001"@,
        imports.category_of() == "KIS"@,
        imports.config_name_of() == "module-only-imports"@,
        aliases.code_of() == "KIS002"@,
        aliases.category_of() == "KIS"@,
        aliases.config_name_of() == "unnecessary-import-alias"@,
        patterns.code_of() == "KPT001"@,
        patterns.category_of() == "KPT"@,
        patterns.config_name_of() == "user-defined-patterns"@,
        imports.fixable_of() && aliases.fixable_of(),
        patterns.fixable_of() == patterns.can_fix,
{
}

} // verus!
