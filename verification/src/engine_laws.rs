//! Which rules run, what is ignored where, and how fixes follow each other.
use crate::config::{any_prefix, enabled, table_index, table_of, Config, RuleTable};
use crate::engine::{
    all_passes, fix_for, found, glob_hits, hits_from, ignored_here, lemma_unchanged, not_ignored,
    one_pass, pass_notes, passes_for, refusal, reported, CheckInput, ModeView, StateView,
    MAX_FIX_PASSES,
};
use crate::matching::glob_match;
use crate::noqa::pairs;
use crate::paths::relative_to;
use crate::rules::{ContextView, Rule};
use crate::syntax::parses;
use crate::text::strs;
use crate::types::{opt, ViolationView};
use vstd::prelude::*;

verus! {

// ---------------------------------------------------------------------------
// Selection
// ---------------------------------------------------------------------------

/// Whether a code begins with a text.
pub open spec fn begins_with(code: Seq<char>, prefix: Seq<char>) -> bool {
    prefix.len() <= code.len() && forall|i: int|
        0 <= i < prefix.len() ==> #[trigger] code[i] == prefix[i]
}

proof fn lemma_begins(code: Seq<char>, prefix: Seq<char>)
    ensures
        prefix.is_prefix_of(code) == begins_with(code, prefix),
{
    if prefix.is_prefix_of(code) {
        assert(code.take(prefix.len() as int) =~= prefix);
        assert forall|i: int| 0 <= i < prefix.len() implies #[trigger] code[i] == prefix[i] by {
            assert(code.take(prefix.len() as int)[i] == code[i]);
        }
    }
    if begins_with(code, prefix) {
        assert(code.take(prefix.len() as int) =~= prefix);
    }
}

/// Whether a code begins with one of several texts.
pub open spec fn begins_with_one(code: Seq<char>, prefixes: Seq<Seq<char>>) -> bool {
    exists|i: int| 0 <= i < prefixes.len() && begins_with(code, #[trigger] prefixes[i])
}

proof fn lemma_begins_one(code: Seq<char>, prefixes: Seq<Seq<char>>)
    ensures
        any_prefix(prefixes, code) == begins_with_one(code, prefixes),
{
    if any_prefix(prefixes, code) {
        let i = choose|i: int|
            0 <= i < prefixes.len() && (#[trigger] prefixes[i]).is_prefix_of(code);
        lemma_begins(code, prefixes[i]);
    }
    if begins_with_one(code, prefixes) {
        let i = choose|i: int|
            0 <= i < prefixes.len() && begins_with(code, #[trigger] prefixes[i]);
        lemma_begins(code, prefixes[i]);
    }
}

/// A rule runs exactly where its code begins with something that is selected, or nothing is, and
/// with nothing that is ignored.
pub proof fn law_rules_run_where_selected_and_not_ignored(
    select: Seq<Seq<char>>,
    ignore: Seq<Seq<char>>,
    code: Seq<char>,
)
    ensures
        enabled(select, ignore, code) <==> (select.len() == 0 || begins_with_one(code, select))
            && !begins_with_one(code, ignore),
{
    lemma_begins_one(code, select);
    lemma_begins_one(code, ignore);
}

/// Ignoring more turns no rule on, and selecting more, where something is selected, none off.
pub proof fn law_ignoring_more_runs_less(
    select: Seq<Seq<char>>,
    ignore: Seq<Seq<char>>,
    more: Seq<Seq<char>>,
    code: Seq<char>,
)
    ensures
        enabled(select, ignore + more, code) ==> enabled(select, ignore, code),
        enabled(select, ignore + more, code) ==> enabled(select, more, code),
        select.len() > 0 && enabled(select, ignore, code) ==> enabled(select + more, ignore, code),
{
    let both = ignore + more;
    if any_prefix(ignore, code) {
        let i = choose|i: int| 0 <= i < ignore.len() && (#[trigger] ignore[i]).is_prefix_of(code);
        assert(both[i] == ignore[i]);
    }
    if any_prefix(more, code) {
        let i = choose|i: int| 0 <= i < more.len() && (#[trigger] more[i]).is_prefix_of(code);
        assert(both[i + ignore.len()] == more[i]);
    }
    if any_prefix(select, code) {
        let i = choose|i: int| 0 <= i < select.len() && (#[trigger] select[i]).is_prefix_of(code);
        assert((select + more)[i] == select[i]);
    }
}

/// The table of a rule is the first one with its name, and the empty one where there is none.
pub proof fn law_first_table_counts(rules: Seq<(String, RuleTable)>, name: Seq<char>)
    ensures
        (exists|i: int|
            0 <= i < rules.len() && #[trigger] rules[i].0@ == name && (forall|j: int|
                0 <= j < i ==> #[trigger] rules[j].0@ != name) && table_of(rules, name)
                == rules[i].1) || (table_of(rules, name) == RuleTable::Empty && forall|j: int|
            0 <= j < rules.len() ==> #[trigger] rules[j].0@ != name),
{
    lemma_table_index(rules, name, rules.len() as int);
    match table_index(rules, name, rules.len() as int) {
        Some(i) => {
            assert(rules[i].0@ == name);
        },
        None => {},
    }
}

proof fn lemma_table_index(rules: Seq<(String, RuleTable)>, name: Seq<char>, n: int)
    ensures
        match table_index(rules, name, n) {
            Some(i) => 0 <= i < n && rules[i].0@ == name && forall|j: int|
                0 <= j < i ==> #[trigger] rules[j].0@ != name,
            None => forall|j: int| 0 <= j < n ==> #[trigger] rules[j].0@ != name,
        },
    decreases n,
{
    if n > 0 {
        lemma_table_index(rules, name, n - 1);
    }
}

// ---------------------------------------------------------------------------
// Per-file ignores
// ---------------------------------------------------------------------------

/// Whether a glob matches a path as it is given, or as seen from one of two directories.
pub open spec fn matches_somehow(
    glob: Seq<char>,
    path: Seq<char>,
    config_dir: Option<Seq<char>>,
    cwd: Option<Seq<char>>,
) -> bool {
    exists|seen: Seq<char>| #[trigger]
        glob_match(glob, seen) == Some(true) && (seen == path || (config_dir is Some
            && relative_to(path, config_dir->0) == Some(seen)) || (cwd is Some && relative_to(
            path,
            cwd->0,
        ) == Some(seen)))
}

proof fn lemma_hits(
    glob: Seq<char>,
    path: Seq<char>,
    config_dir: Option<Seq<char>>,
    cwd: Option<Seq<char>>,
)
    ensures
        glob_hits(glob, path, config_dir, cwd) == matches_somehow(glob, path, config_dir, cwd),
{
    if glob_hits(glob, path, config_dir, cwd) {
        let seen = if glob_match(glob, path) == Some(true) {
            path
        } else if hits_from(glob, path, config_dir) {
            relative_to(path, config_dir->0)->0
        } else {
            relative_to(path, cwd->0)->0
        };
        assert(glob_match(glob, seen) == Some(true));
    }
}

/// A rule is ignored in a file exactly where one of the per-file ignores has a glob that matches
/// the file and a text that the rule's code begins with.
pub proof fn law_each_per_file_ignore_counts(
    path: Seq<char>,
    rule: Seq<char>,
    ignores: Seq<(String, Vec<String>)>,
    config_dir: Option<Seq<char>>,
    cwd: Option<Seq<char>>,
)
    ensures
        ignored_here(path, rule, ignores, config_dir, cwd) <==> exists|i: int|
            0 <= i < ignores.len() && matches_somehow(
                (#[trigger] ignores[i]).0@,
                path,
                config_dir,
                cwd,
            ) && begins_with_one(rule, strs(ignores[i].1@)),
{
    assert forall|i: int| 0 <= i < ignores.len() implies (glob_hits(
        (#[trigger] ignores[i]).0@,
        path,
        config_dir,
        cwd,
    ) && any_prefix(strs(ignores[i].1@), rule)) == (matches_somehow(
        ignores[i].0@,
        path,
        config_dir,
        cwd,
    ) && begins_with_one(rule, strs(ignores[i].1@))) by {
        lemma_hits(ignores[i].0@, path, config_dir, cwd);
        lemma_begins_one(rule, strs(ignores[i].1@));
    }
    if ignored_here(path, rule, ignores, config_dir, cwd) {
        let i = choose|i: int|
            0 <= i < ignores.len() && glob_hits((#[trigger] ignores[i]).0@, path, config_dir, cwd)
                && any_prefix(strs(ignores[i].1@), rule);
        assert(matches_somehow(ignores[i].0@, path, config_dir, cwd));
    }
    if exists|i: int|
        0 <= i < ignores.len() && matches_somehow(
            (#[trigger] ignores[i]).0@,
            path,
            config_dir,
            cwd,
        ) && begins_with_one(rule, strs(ignores[i].1@)) {
        let i = choose|i: int|
            0 <= i < ignores.len() && matches_somehow(
                (#[trigger] ignores[i]).0@,
                path,
                config_dir,
                cwd,
            ) && begins_with_one(rule, strs(ignores[i].1@));
        assert(glob_hits(ignores[i].0@, path, config_dir, cwd));
    }
}

// ---------------------------------------------------------------------------
// Checking
// ---------------------------------------------------------------------------

proof fn lemma_found_adds<R: Rule>(a: Seq<R>, b: Seq<R>, ctx: ContextView, config: Config, n: int)
    requires
        0 <= n <= b.len(),
    ensures
        found(a + b, ctx, config, a.len() + n) == found(a, ctx, config, a.len() as int) + found(
            b,
            ctx,
            config,
            n,
        ),
    decreases n,
{
    let all = a + b;
    if n == 0 {
        lemma_found_same(a, all, ctx, config, a.len() as int);
        assert(found(a, ctx, config, a.len() as int) + Seq::<ViolationView>::empty() =~= found(
            a,
            ctx,
            config,
            a.len() as int,
        ));
    } else {
        lemma_found_adds(a, b, ctx, config, n - 1);
        assert(all[a.len() + n - 1] == b[n - 1]);
        let first = found(a, ctx, config, a.len() as int);
        let before = found(b, ctx, config, n - 1);
        let more = b[n - 1].finds(ctx, table_of(config.lint.rules@, b[n - 1].config_name_of()));
        assert(first + before + more =~= first + (before + more));
    }
}

proof fn lemma_found_same<R: Rule>(a: Seq<R>, all: Seq<R>, ctx: ContextView, config: Config, n: int)
    requires
        n <= a.len() <= all.len(),
        forall|i: int| 0 <= i < a.len() ==> all[i] == a[i],
    ensures
        found(a, ctx, config, n) == found(all, ctx, config, n),
    decreases n,
{
    if n > 0 {
        lemma_found_same(a, all, ctx, config, n - 1);
    }
}

proof fn lemma_not_ignored_adds(
    path: Seq<char>,
    a: Seq<ViolationView>,
    b: Seq<ViolationView>,
    config: Config,
)
    ensures
        not_ignored(path, a + b, config) == not_ignored(path, a, config) + not_ignored(
            path,
            b,
            config,
        ),
    decreases b.len(),
{
    let all = a + b;
    if b.len() == 0 {
        assert(all =~= a);
        assert(not_ignored(path, a, config) + Seq::<ViolationView>::empty() =~= not_ignored(
            path,
            a,
            config,
        ));
    } else {
        lemma_not_ignored_adds(path, a, b.drop_last(), config);
        assert(all.drop_last() =~= a + b.drop_last());
        assert(all.last() == b.last());
        assert(not_ignored(path, all, config) =~= not_ignored(path, a, config) + not_ignored(
            path,
            b,
            config,
        ));
    }
}

/// What two lists of rules report in a file is what the one reports and then the other: no rule
/// adds to or takes from what another reports.
pub proof fn law_rules_report_one_by_one<R: Rule>(
    path: Seq<char>,
    source: Seq<char>,
    ignore_noqa: bool,
    a: Seq<R>,
    b: Seq<R>,
    config: Config,
)
    ensures
        reported(path, source, ignore_noqa, a + b, config) == reported(
            path,
            source,
            ignore_noqa,
            a,
            config,
        ) + reported(path, source, ignore_noqa, b, config),
{
    let ctx = crate::engine::context_of(path, source, ignore_noqa, config);
    lemma_found_adds(a, b, ctx, config, b.len() as int);
    lemma_not_ignored_adds(
        path,
        found(a, ctx, config, a.len() as int),
        found(b, ctx, config, b.len() as int),
        config,
    );
}

proof fn lemma_none_ignored(path: Seq<char>, v: Seq<ViolationView>, config: Config)
    requires
        config.lint.per_file_ignores@.len() == 0,
    ensures
        not_ignored(path, v, config) == v,
    decreases v.len(),
{
    if v.len() > 0 {
        lemma_none_ignored(path, v.drop_last(), config);
        assert(v.drop_last().push(v.last()) =~= v);
    }
}

/// A single rule that runs reports all that it finds in the file, seen as it is given with the
/// settings of the configuration; one that does not run reports nothing. Where no per-file ignores
/// are set, nothing is left out.
pub proof fn law_a_rule_reports_what_it_finds<R: Rule>(
    path: Seq<char>,
    source: Seq<char>,
    ignore_noqa: bool,
    rule: R,
    config: Config,
)
    requires
        config.lint.per_file_ignores@.len() == 0,
    ensures
        ({
            let select = strs(config.lint.select@);
            let seen = ContextView {
                path,
                source,
                ignore_noqa: ignore_noqa || config.ignore_noqa,
                aliases: pairs(config.lint.noqa_aliases@),
                cwd: opt(config.cwd),
                target: None,
            };
            reported(path, source, ignore_noqa, seq![rule], config) == if (select.len() == 0
                || begins_with_one(rule.code_of(), select)) && !begins_with_one(
                rule.code_of(),
                strs(config.lint.ignore@),
            ) {
                rule.finds(seen, table_of(config.lint.rules@, rule.config_name_of()))
            } else {
                Seq::empty()
            }
        }),
{
    let ctx = crate::engine::context_of(path, source, ignore_noqa, config);
    law_rules_run_where_selected_and_not_ignored(
        strs(config.lint.select@),
        strs(config.lint.ignore@),
        rule.code_of(),
    );
    let rules = seq![rule];
    assert(rules[0] == rule);
    assert(found(rules, ctx, config, 0) =~= Seq::empty());
    let all = found(rules, ctx, config, 1);
    let table = table_of(config.lint.rules@, rule.config_name_of());
    assert(Seq::<ViolationView>::empty() + rule.finds(ctx, table) =~= rule.finds(ctx, table));
    lemma_none_ignored(path, all, config);
}

// ---------------------------------------------------------------------------
// Fixing
// ---------------------------------------------------------------------------

/// One rule in one pass: a rule that runs and can fix makes its fix of the text, unless that
/// changes nothing or makes of Python what is none; any other rule leaves the text.
pub proof fn law_a_rule_makes_its_fix<R: Rule>(
    rule: R,
    path: Seq<char>,
    mode: ModeView,
    config: Config,
    text: Seq<char>,
)
    ensures
        ({
            let select = strs(config.lint.select@);
            let seen = ContextView {
                path,
                source: text,
                ignore_noqa: mode.ignore_noqa || config.ignore_noqa,
                aliases: pairs(config.lint.noqa_aliases@),
                cwd: opt(config.cwd),
                target: mode.target,
            };
            let acts = rule.fixable_of() && (select.len() == 0 || begins_with_one(
                rule.code_of(),
                select,
            )) && !begins_with_one(rule.code_of(), strs(config.lint.ignore@));
            let fix = rule.fixes(seen, table_of(config.lint.rules@, rule.config_name_of()));
            let after = one_pass(seq![rule], path, mode, config, text, 1);
            &&& acts && fix is Err ==> after.error == Some(fix->Err_0)
            &&& !(acts && fix is Err) ==> after.error is None
            &&& acts && fix is Ok && fix->Ok_0 is Some && fix->Ok_0->0 != text && (!parses(text)
                || parses(fix->Ok_0->0)) ==> after.changed && after.text == fix->Ok_0->0
            &&& !(acts && fix is Ok && fix->Ok_0 is Some && fix->Ok_0->0 != text && (!parses(text)
                || parses(fix->Ok_0->0))) ==> !after.changed && after.text == text
        }),
{
    law_rules_run_where_selected_and_not_ignored(
        strs(config.lint.select@),
        strs(config.lint.ignore@),
        rule.code_of(),
    );
    let rules = seq![rule];
    assert(rules[0] == rule);
    assert(one_pass(rules, path, mode, config, text, 0) == (StateView {
        text,
        changed: false,
        error: None,
    }));
}

proof fn lemma_pass_same<R: Rule>(
    a: Seq<R>,
    all: Seq<R>,
    path: Seq<char>,
    mode: ModeView,
    config: Config,
    text: Seq<char>,
    n: int,
)
    requires
        n <= a.len() <= all.len(),
        forall|i: int| 0 <= i < a.len() ==> all[i] == a[i],
    ensures
        one_pass(a, path, mode, config, text, n) == one_pass(all, path, mode, config, text, n),
    decreases n,
{
    if n > 0 {
        lemma_pass_same(a, all, path, mode, config, text, n - 1);
    }
}

/// In a pass each rule fixes what the rules before it made: a pass of two lists of rules is a pass
/// of the one, and then of the other over what came out. After an error no rule acts.
pub proof fn law_rules_fix_one_after_another<R: Rule>(
    a: Seq<R>,
    b: Seq<R>,
    path: Seq<char>,
    mode: ModeView,
    config: Config,
    text: Seq<char>,
    n: int,
)
    requires
        0 <= n <= b.len(),
    ensures
        ({
            let first = one_pass(a, path, mode, config, text, a.len() as int);
            let second = one_pass(b, path, mode, config, first.text, n);
            let both = one_pass(a + b, path, mode, config, text, a.len() + n);
            if first.error is Some {
                both == first
            } else {
                both.text == second.text && both.error == second.error && both.changed == (
                first.changed || second.changed)
            }
        }),
    decreases n,
{
    let all = a + b;
    if n == 0 {
        lemma_pass_same(a, all, path, mode, config, text, a.len() as int);
    } else {
        law_rules_fix_one_after_another(a, b, path, mode, config, text, n - 1);
        assert(all[a.len() + n - 1] == b[n - 1]);
    }
}

/// Passes follow each other: some passes and then more are as many passes together, where none of
/// the first fails.
pub proof fn law_passes_follow_each_other<R: Rule>(
    rules: Seq<R>,
    path: Seq<char>,
    mode: ModeView,
    config: Config,
    text: Seq<char>,
    m: nat,
    n: nat,
)
    requires
        all_passes(rules, path, mode, config, text, m).error is None,
    ensures
        ({
            let first = all_passes(rules, path, mode, config, text, m);
            let second = all_passes(rules, path, mode, config, first.text, n);
            let both = all_passes(rules, path, mode, config, text, m + n);
            both.text == second.text && both.error == second.error && both.changed == (
            first.changed || second.changed)
        }),
    decreases m,
{
    if m > 0 {
        let pass = one_pass(rules, path, mode, config, text, rules.len() as int);
        if pass.error is None && pass.changed {
            law_passes_follow_each_other(
                rules,
                path,
                mode,
                config,
                pass.text,
                (m - 1) as nat,
                n,
            );
            assert((m - 1) as nat + n == (m + n - 1) as nat);
        } else {
            lemma_unchanged(rules, path, mode, config, text, rules.len() as int);
            lemma_unchanged_passes(rules, path, mode, config, text, n);
        }
    }
}

proof fn lemma_unchanged_passes<R: Rule>(
    rules: Seq<R>,
    path: Seq<char>,
    mode: ModeView,
    config: Config,
    text: Seq<char>,
    n: nat,
)
    requires
        !one_pass(rules, path, mode, config, text, rules.len() as int).changed,
        one_pass(rules, path, mode, config, text, rules.len() as int).error is None,
    ensures
        all_passes(rules, path, mode, config, text, n) == (StateView {
            text,
            changed: false,
            error: None,
        }),
{
    lemma_unchanged(rules, path, mode, config, text, rules.len() as int);
}

/// What is found is sorted out one by one: a finding is left out exactly where a glob that matches
/// the file comes with a prefix of its rule.
pub proof fn law_findings_are_sorted_out_one_by_one(
    path: Seq<char>,
    a: Seq<ViolationView>,
    b: Seq<ViolationView>,
    v: ViolationView,
    config: Config,
)
    ensures
        not_ignored(path, a + b, config) == not_ignored(path, a, config) + not_ignored(
            path,
            b,
            config,
        ),
        ({
            let ignored = exists|i: int|
                0 <= i < config.lint.per_file_ignores@.len() && matches_somehow(
                    (#[trigger] config.lint.per_file_ignores@[i]).0@,
                    path,
                    opt(config.config_dir),
                    opt(config.cwd),
                ) && begins_with_one(v.rule, strs(config.lint.per_file_ignores@[i].1@));
            not_ignored(path, seq![v], config) == if ignored {
                Seq::empty()
            } else {
                seq![v]
            }
        }),
{
    lemma_not_ignored_adds(path, a, b, config);
    law_each_per_file_ignore_counts(
        path,
        v.rule,
        config.lint.per_file_ignores@,
        opt(config.config_dir),
        opt(config.cwd),
    );
    let one = seq![v];
    assert(one.drop_last() =~= Seq::empty());
    assert(not_ignored(path, one.drop_last(), config) =~= Seq::empty());
    assert(one.last() == v);
    assert(Seq::<ViolationView>::empty().push(v) =~= one);
}

/// A fix that would turn Python into what is none is said to be refused, and no other is.
pub proof fn law_refused_fixes_are_told<R: Rule>(
    rule: R,
    path: Seq<char>,
    mode: ModeView,
    config: Config,
    text: Seq<char>,
    new: Seq<char>,
)
    requires
        fix_for(rule, path, mode, config, text) == Ok::<_, Seq<char>>(Some(new)),
        parses(text),
    ensures
        !parses(new) && new != text ==> pass_notes(seq![rule], path, mode, config, text, 1) == seq![
            refusal(rule.code_of(), path),
        ],
        parses(new) ==> pass_notes(seq![rule], path, mode, config, text, 1).len() == 0,
        ("warning: "@ + rule.code_of() + "'s fix for "@ + path).is_prefix_of(
            refusal(rule.code_of(), path),
        ),
{
    let one = seq![rule];
    assert(pass_notes(one, path, mode, config, text, 0) =~= Seq::empty());
    assert(one_pass(one, path, mode, config, text, 0) == (StateView {
        text,
        changed: false,
        error: None,
    }));
    assert(one[0] == rule);
    let note = refusal(rule.code_of(), path);
    assert(Seq::<Seq<char>>::empty().push(note) =~= seq![note]);
    let front = "warning: "@ + rule.code_of() + "'s fix for "@ + path;
    assert(note.take(front.len() as int) =~= front);
}

/// All rules are run over a file once where a single violation is to be fixed, and else up to the
/// limit.
pub proof fn law_single_fixes_take_one_pass(input: CheckInput<'_>)
    ensures
        input.fix_target is Some ==> passes_for(input) == 1,
        input.fix_target is None ==> passes_for(input) == MAX_FIX_PASSES,
{
}

} // verus!
