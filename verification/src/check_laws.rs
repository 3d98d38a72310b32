//! What holds of all that is reported in a file.
use crate::config::{table_of, Config, RuleTable};
use crate::engine::{context_of, found, ignored_here, not_ignored, reported, runs};
use crate::import_items::ItemView;
use crate::kis001::{claimed, Input};
use crate::kis002::{alias_violation, alias_violations, candidates, droppable, necessary, silenced};
use crate::kpt::{all_compiled, any_replacement, countable, FileInput, KptRule, PatternView};
use crate::kpt_fix::{
    law_uncountable_text_stays, law_without_findings_nothing_changes,
    law_without_replacement_nothing_changes,
};
use crate::kpt_target::{
    law_without_findings_no_target_is_fixed, law_without_replacement_no_target_is_fixed,
};
use crate::matching::regex_find_all;
use crate::module_facts::ModuleCheck;
use crate::rules::{pattern_level_in, patterns_in, patterns_in_force, ContextView, Rule};
use crate::scope::bound;
use crate::split::lines_spec;
use crate::syntax::module_nodes;
use crate::types::{opt, Level, ViolationView};
use vstd::prelude::*;

verus! {

// ---------------------------------------------------------------------------
// All rules
// ---------------------------------------------------------------------------

/// Whether one of the first `n` rules runs and finds a violation.
pub open spec fn found_by<R: Rule>(
    rules: Seq<R>,
    path: Seq<char>,
    source: Seq<char>,
    ignore_noqa: bool,
    config: Config,
    v: ViolationView,
    n: int,
) -> bool {
    exists|k: int|
        0 <= k < n && runs(#[trigger] rules[k], config) && rules[k].finds(
            context_of(path, source, ignore_noqa, config),
            table_of(config.lint.rules@, rules[k].config_name_of()),
        ).contains(v)
}

/// All that is reported was found by a rule that runs, and is not ignored in the file.
pub proof fn law_reported_is_found_and_not_ignored<R: Rule>(
    path: Seq<char>,
    source: Seq<char>,
    ignore_noqa: bool,
    rules: Seq<R>,
    config: Config,
    i: int,
)
    requires
        0 <= i < reported(path, source, ignore_noqa, rules, config).len(),
    ensures
        ({
            let v = reported(path, source, ignore_noqa, rules, config)[i];
            &&& found_by(rules, path, source, ignore_noqa, config, v, rules.len() as int)
            &&& !ignored_here(
                path,
                v.rule,
                config.lint.per_file_ignores@,
                opt(config.config_dir),
                opt(config.cwd),
            )
        }),
{
    let ctx = context_of(path, source, ignore_noqa, config);
    let all = found(rules, ctx, config, rules.len() as int);
    lemma_kept(path, all, config, i);
    let k = choose|k: int|
        0 <= k < all.len() && #[trigger] all[k] == not_ignored(path, all, config)[i];
    lemma_found(rules, path, source, ignore_noqa, config, rules.len() as int, k);
}

proof fn lemma_kept(path: Seq<char>, all: Seq<ViolationView>, config: Config, i: int)
    requires
        0 <= i < not_ignored(path, all, config).len(),
    ensures
        exists|k: int|
            0 <= k < all.len() && #[trigger] all[k] == not_ignored(path, all, config)[i],
        !ignored_here(
            path,
            not_ignored(path, all, config)[i].rule,
            config.lint.per_file_ignores@,
            opt(config.config_dir),
            opt(config.cwd),
        ),
    decreases all.len(),
{
    let before = not_ignored(path, all.drop_last(), config);
    if i < before.len() {
        lemma_kept(path, all.drop_last(), config, i);
        let k = choose|k: int|
            0 <= k < all.drop_last().len() && #[trigger] all.drop_last()[k] == before[i];
        assert(all[k] == before[i]);
    } else {
        assert(all[all.len() - 1] == not_ignored(path, all, config)[i]);
    }
}

proof fn lemma_found<R: Rule>(
    rules: Seq<R>,
    path: Seq<char>,
    source: Seq<char>,
    ignore_noqa: bool,
    config: Config,
    n: int,
    k: int,
)
    requires
        0 <= k < found(rules, context_of(path, source, ignore_noqa, config), config, n).len(),
    ensures
        found_by(
            rules,
            path,
            source,
            ignore_noqa,
            config,
            found(rules, context_of(path, source, ignore_noqa, config), config, n)[k],
            n,
        ),
    decreases n,
{
    let ctx = context_of(path, source, ignore_noqa, config);
    if n > 0 {
        let before = found(rules, ctx, config, n - 1);
        if k < before.len() {
            lemma_found(rules, path, source, ignore_noqa, config, n - 1, k);
            let j = choose|j: int|
                0 <= j < n - 1 && runs(#[trigger] rules[j], config) && rules[j].finds(
                    ctx,
                    table_of(config.lint.rules@, rules[j].config_name_of()),
                ).contains(before[k]);
            assert(runs(rules[j], config));
        } else {
            let own = rules[n - 1].finds(
                ctx,
                table_of(config.lint.rules@, rules[n - 1].config_name_of()),
            );
            assert(own[k - before.len()] == found(rules, ctx, config, n)[k]);
            assert(runs(rules[n - 1], config));
        }
    }
}

/// All that a rule that runs finds is reported, unless it is ignored in the file.
pub proof fn law_found_is_reported_unless_ignored<R: Rule>(
    path: Seq<char>,
    source: Seq<char>,
    ignore_noqa: bool,
    rules: Seq<R>,
    config: Config,
    v: ViolationView,
)
    requires
        found_by(rules, path, source, ignore_noqa, config, v, rules.len() as int),
        !ignored_here(
            path,
            v.rule,
            config.lint.per_file_ignores@,
            opt(config.config_dir),
            opt(config.cwd),
        ),
    ensures
        reported(path, source, ignore_noqa, rules, config).contains(v),
{
    let ctx = context_of(path, source, ignore_noqa, config);
    let all = found(rules, ctx, config, rules.len() as int);
    lemma_found_at(rules, path, source, ignore_noqa, config, v, rules.len() as int);
    let k = choose|k: int| 0 <= k < all.len() && all[k] == v;
    lemma_keeps(path, all, config, k);
}

proof fn lemma_found_at<R: Rule>(
    rules: Seq<R>,
    path: Seq<char>,
    source: Seq<char>,
    ignore_noqa: bool,
    config: Config,
    v: ViolationView,
    n: int,
)
    requires
        found_by(rules, path, source, ignore_noqa, config, v, n),
    ensures
        found(rules, context_of(path, source, ignore_noqa, config), config, n).contains(v),
    decreases n,
{
    let ctx = context_of(path, source, ignore_noqa, config);
    let j = choose|j: int|
        0 <= j < n && runs(#[trigger] rules[j], config) && rules[j].finds(
            ctx,
            table_of(config.lint.rules@, rules[j].config_name_of()),
        ).contains(v);
    let before = found(rules, ctx, config, n - 1);
    let now = found(rules, ctx, config, n);
    if j < n - 1 {
        assert(runs(rules[j], config));
        lemma_found_at(rules, path, source, ignore_noqa, config, v, n - 1);
        let k = choose|k: int| 0 <= k < before.len() && before[k] == v;
        assert(now[k] == v);
    } else {
        let own = rules[j].finds(ctx, table_of(config.lint.rules@, rules[j].config_name_of()));
        let k = choose|k: int| 0 <= k < own.len() && own[k] == v;
        assert(now[before.len() + k] == v);
    }
}

proof fn lemma_keeps(path: Seq<char>, all: Seq<ViolationView>, config: Config, k: int)
    requires
        0 <= k < all.len(),
        !ignored_here(
            path,
            all[k].rule,
            config.lint.per_file_ignores@,
            opt(config.config_dir),
            opt(config.cwd),
        ),
    ensures
        not_ignored(path, all, config).contains(all[k]),
    decreases all.len(),
{
    let before = not_ignored(path, all.drop_last(), config);
    let now = not_ignored(path, all, config);
    if k < all.len() - 1 {
        lemma_keeps(path, all.drop_last(), config, k);
        let j = choose|j: int| 0 <= j < before.len() && before[j] == all[k];
        assert(now[j] == all[k]);
    } else {
        assert(now[before.len() as int] == all[k]);
    }
}

// ---------------------------------------------------------------------------
// KIS001
// ---------------------------------------------------------------------------

/// Whether a violation is about an item.
pub open spec fn is_about(v: ViolationView, it: ItemView) -> bool {
    v.rule == "KIS001"@ && v.line == it.start_line && v.col == it.col && v.end_line == it.end_line
        && v.end_col == it.end_col
}

/// Every violation of the rule is about an imported name that is not known to be a module, whose
/// module is not excepted, and whose line no `# noqa` comment silences.
pub proof fn law_only_objects_are_reported(
    input: Input,
    level: Level,
    unresolved: Option<Level>,
    n: int,
    i: int,
) -> (k: int)
    requires
        0 <= i < input.violations(level, unresolved, n).len(),
    ensures
        0 <= k < n,
        is_about(input.violations(level, unresolved, n)[i], input.items()[k]),
        input.verdict(input.items()[k]) != ModuleCheck::Module,
        !input.exceptions.contains(input.items()[k].module),
        !input.quiet(input.violations(level, unresolved, n)[i].line),
        !input.quiet(input.items()[k].line),
    decreases n,
{
    let before = input.violations(level, unresolved, n - 1);
    if i < before.len() {
        law_only_objects_are_reported(input, level, unresolved, n - 1, i)
    } else {
        n - 1
    }
}

/// Every imported name that is no module is reported, unless its module is excepted, the file
/// re-exports it, or a `# noqa` comment silences it.
pub proof fn law_every_object_is_reported(
    input: Input,
    level: Level,
    unresolved: Option<Level>,
    n: int,
    k: int,
) -> (i: int)
    requires
        0 <= k < n,
        input.reported(input.items()[k]),
        input.verdict(input.items()[k]) == ModuleCheck::NotModule,
    ensures
        0 <= i < input.violations(level, unresolved, n).len(),
        is_about(input.violations(level, unresolved, n)[i], input.items()[k]),
        input.violations(level, unresolved, n)[i].level == level,
    decreases n,
{
    let before = input.violations(level, unresolved, n - 1);
    if k < n - 1 {
        law_every_object_is_reported(input, level, unresolved, n - 1, k)
    } else {
        before.len() as int
    }
}

/// With the level of unresolved names switched off, every violation is about a name that is known
/// to be no module.
pub proof fn law_unresolved_can_be_switched_off(input: Input, level: Level, n: int, i: int) -> (k:
    int)
    requires
        0 <= i < input.violations(level, None, n).len(),
    ensures
        0 <= k < n,
        is_about(input.violations(level, None, n)[i], input.items()[k]),
        input.verdict(input.items()[k]) == ModuleCheck::NotModule,
    decreases n,
{
    let before = input.violations(level, None, n - 1);
    if i < before.len() {
        law_unresolved_can_be_switched_off(input, level, n - 1, i)
    } else {
        n - 1
    }
}

/// A name whose package was not found is never rewritten.
pub proof fn law_unresolved_is_not_rewritten(input: Input, n: int, j: int)
    requires
        0 <= j < input.plan(n).len(),
    ensures
        input.verdict(input.plan(n)[j].item) == ModuleCheck::NotModule,
    decreases n,
{
    let before = input.plan(n - 1);
    if j < before.len() {
        law_unresolved_is_not_rewritten(input, n - 1, j);
    }
}

/// An import is only rewritten where that is safe: neither its name nor the name that takes its
/// place is bound otherwise, be it by an assignment or by an import that stays.
pub proof fn law_rewrites_are_safe(input: Input, n: int, j: int)
    requires
        0 <= j < input.plan(n).len(),
    ensures
        ({
            let p = input.plan(n)[j];
            &&& p.fix == input.fix(p.item)
            &&& !bound(input.nodes(), p.item.local())
            &&& !bound(input.nodes(), p.fix.bound)
            &&& !input.overlaps(p.fix.bound, p.fix.target)
        }),
    decreases n,
{
    let before = input.plan(n - 1);
    if j < before.len() {
        law_rewrites_are_safe(input, n - 1, j);
    }
}

/// Of all imports that are rewritten no two bind one name to different modules.
pub proof fn law_rewrites_do_not_overlap(input: Input, n: int, i: int, j: int)
    requires
        0 <= i < j < input.plan(n).len(),
        input.plan(n)[i].fix.bound == input.plan(n)[j].fix.bound,
    ensures
        input.plan(n)[i].fix.target == input.plan(n)[j].fix.target,
    decreases n,
{
    let before = input.plan(n - 1);
    if j < before.len() {
        law_rewrites_do_not_overlap(input, n - 1, i, j);
    } else {
        let p = input.plan(n)[j];
        assert(before[i] == input.plan(n)[i]);
        assert(!claimed(before, p.fix.bound, p.fix.target));
    }
}

// ---------------------------------------------------------------------------
// KIS002
// ---------------------------------------------------------------------------

/// Every violation of the rule is about an alias that is not needed, and no `# noqa` comment
/// silences its line.
pub proof fn law_only_needless_aliases_are_reported(
    source: Seq<char>,
    level: Level,
    ignore_noqa: bool,
    aliases: Seq<(Seq<char>, Seq<char>)>,
    n: int,
    i: int,
) -> (k: int)
    requires
        0 <= i < alias_violations(source, level, ignore_noqa, aliases, n).len(),
    ensures
        0 <= k < n,
        ({
            let nodes = module_nodes(source);
            let c = candidates(nodes)[k];
            let v = alias_violations(source, level, ignore_noqa, aliases, n)[i];
            &&& v == alias_violation(source, c, level, droppable(nodes, c))
            &&& !necessary(nodes, c)
            &&& !silenced(source, c.start, "KIS002"@, ignore_noqa, aliases)
        }),
    decreases n,
{
    let before = alias_violations(source, level, ignore_noqa, aliases, n - 1);
    if i < before.len() {
        law_only_needless_aliases_are_reported(source, level, ignore_noqa, aliases, n - 1, i)
    } else {
        n - 1
    }
}

// ---------------------------------------------------------------------------
// KPT
// ---------------------------------------------------------------------------

/// No finding of a pattern stands on a line that a `# noqa` comment silences for it.
pub proof fn law_silenced_lines_have_no_findings(f: FileInput, p: PatternView, k: int)
    requires
        0 <= k < f.findings(p).len(),
    ensures
        !f.quiet(f.findings(p)[k].line - 1, p.id),
{
    if p.multiline {
        lemma_text_not_quiet(f, p, p.regexes.len() as int, k);
    } else {
        lemma_lines_not_quiet(f, p, lines_spec(f.source).len() as int, k);
    }
}

proof fn lemma_lines_not_quiet(f: FileInput, p: PatternView, n: int, k: int)
    requires
        0 <= k < f.in_lines(p, n).len(),
    ensures
        !f.quiet(f.in_lines(p, n)[k].line - 1, p.id),
    decreases n,
{
    if n > 0 && k < f.in_lines(p, n - 1).len() {
        lemma_lines_not_quiet(f, p, n - 1, k);
    }
}

proof fn lemma_matches_not_quiet(
    f: FileInput,
    p: PatternView,
    matches: Seq<(int, int)>,
    n: int,
    k: int,
)
    requires
        0 <= k < f.in_matches(p, matches, n).len(),
    ensures
        !f.quiet(f.in_matches(p, matches, n)[k].line - 1, p.id),
    decreases n,
{
    if n > 0 && k < f.in_matches(p, matches, n - 1).len() {
        lemma_matches_not_quiet(f, p, matches, n - 1, k);
    }
}

proof fn lemma_text_not_quiet(f: FileInput, p: PatternView, n: int, k: int)
    requires
        0 <= k < f.in_text(p, n).len(),
    ensures
        !f.quiet(f.in_text(p, n)[k].line - 1, p.id),
    decreases n,
{
    if n > 0 {
        let before = f.in_text(p, n - 1);
        let matches = regex_find_all(p.regexes[n - 1], f.source);
        if k < before.len() {
            lemma_text_not_quiet(f, p, n - 1, k);
        } else {
            lemma_matches_not_quiet(f, p, matches, matches.len() as int, k - before.len());
        }
    }
}

/// A pattern finds nothing in a file that its globs leave out.
pub proof fn law_globs_limit_a_pattern(f: FileInput, p: PatternView)
    requires
        !p.applies(f),
    ensures
        f.findings(p).len() == 0,
{
}

/// Where the patterns of a project find nothing, they fix nothing: a suppressed line stays as it is.
pub proof fn law_no_pattern_found_no_pattern_fixed(
    rule: &KptRule,
    ctx: ContextView,
    table: RuleTable,
)
    requires
        rule.finds(ctx, table).len() == 0,
    ensures
        rule.fixes(ctx, table) == Ok::<_, Seq<char>>(None::<Seq<char>>),
{
    let f = rule.file_input(ctx);
    let patterns = all_compiled(patterns_in(table), pattern_level_in(table));
    if countable(ctx.source) {
        law_without_findings_nothing_changes(f, patterns);
        if ctx.target is Some {
            law_without_findings_no_target_is_fixed(f, patterns, ctx.target->0);
        }
    } else {
        law_uncountable_text_stays(f, patterns);
    }
}

/// The pattern rule for a configuration loses no fix by saying that it cannot fix: no pattern in
/// force then has a replacement, and it changes no file.
pub proof fn law_patterns_that_cannot_fix_have_no_fix(
    rule: &KptRule,
    ctx: ContextView,
    config: Config,
)
    requires
        rule.can_fix == any_replacement(patterns_in_force(config)),
        !rule.fixable_of(),
    ensures
        rule.fixes(ctx, table_of(config.lint.rules@, rule.config_name_of())) == Ok::<_, Seq<char>>(
            None::<Seq<char>>,
        ),
{
    let f = rule.file_input(ctx);
    let patterns = patterns_in_force(config);
    law_without_replacement_nothing_changes(f, patterns);
    if ctx.target is Some {
        law_without_replacement_no_target_is_fixed(f, patterns, ctx.target->0);
    }
}

} // verus!
