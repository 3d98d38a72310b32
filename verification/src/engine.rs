//! Running rules over a file: checking and fixing.
use crate::config::{any_prefix, enabled, has_prefix, table_of, Config};
use crate::matching::{glob_match, match_glob};
use crate::noqa::pairs;
use crate::paths::{relative_to, strip_prefix};
use crate::rules::{ContextView, FileContext, Rule};
use crate::syntax::{outline, parses};
use crate::text::strs;
use crate::types::{
    copy_opt, copy_target, opt, target_of, violation_views, FixError, FixTarget, TargetView, Violation,
    ViolationView,
};
use vstd::prelude::*;
use vstd::string::*;

verus! {

// ---------------------------------------------------------------------------
// Input
// ---------------------------------------------------------------------------

/// A file to check or fix.
pub struct CheckInput<'a> {
    pub path: &'a str,
    pub source: &'a str,
    /// Whether `# noqa` comments are ignored.
    pub ignore_noqa: bool,
    /// The violation that alone is to be fixed.
    pub fix_target: Option<FixTarget>,
}

impl<'a> CheckInput<'a> {
    /// The file at `path` with the text `source`.
    pub fn new(path: &'a str, source: &'a str) -> (r: CheckInput<'a>)
        ensures
            r.path@ == path@,
            r.source@ == source@,
            !r.ignore_noqa,
            r.fix_target is None,
    {
        CheckInput { path, source, ignore_noqa: false, fix_target: None }
    }
}

impl FileContext {
    /// The context of a file to check.
    pub fn from(input: &CheckInput<'_>) -> (r: FileContext)
        ensures
            r.wf(),
            r@ == (ContextView {
                path: input.path@,
                source: input.source@,
                ignore_noqa: input.ignore_noqa,
                aliases: Seq::empty(),
                cwd: None,
                target: target_of(input.fix_target),
            }),
    {
        let mut ctx = FileContext::from_source(input.path.to_owned(), input.source.to_owned());
        ctx.ignore_noqa = input.ignore_noqa;
        ctx.fix_target = copy_target(&input.fix_target);
        ctx
    }
}

/// The context in which rules see the text `source` of a file.
pub open spec fn context_of(
    path: Seq<char>,
    source: Seq<char>,
    ignore_noqa: bool,
    config: Config,
) -> ContextView {
    ContextView {
        path,
        source,
        ignore_noqa: ignore_noqa || config.ignore_noqa,
        aliases: pairs(config.lint.noqa_aliases@),
        cwd: opt(config.cwd),
        target: None,
    }
}

/// How fixes are made.
pub struct FixMode {
    /// Whether `# noqa` comments are ignored.
    pub ignore_noqa: bool,
    /// The violation that alone is to be fixed.
    pub target: Option<FixTarget>,
}

/// What a [`FixMode`] says.
#[verifier::ext_equal]
pub struct ModeView {
    pub ignore_noqa: bool,
    pub target: Option<TargetView>,
}

impl View for FixMode {
    type V = ModeView;

    open spec fn view(&self) -> ModeView {
        ModeView { ignore_noqa: self.ignore_noqa, target: target_of(self.target) }
    }
}

/// The context in which rules fix the text `source` of a file.
pub open spec fn context_for(
    path: Seq<char>,
    source: Seq<char>,
    mode: ModeView,
    config: Config,
) -> ContextView {
    ContextView { target: mode.target, ..context_of(path, source, mode.ignore_noqa, config) }
}

/// Copies of pairs of strings.
pub fn copy_pairs(v: &Vec<(String, String)>) -> (r: Vec<(String, String)>)
    ensures
        pairs(r@) == pairs(v@),
{
    let mut out: Vec<(String, String)> = Vec::new();
    let mut i: usize = 0;
    assert(pairs(out@) =~= pairs(v@).take(0));
    while i < v.len()
        invariant
            i <= v@.len(),
            pairs(out@) == pairs(v@).take(i as int),
        decreases v@.len() - i,
    {
        let ghost before = out@;
        let pair = (v[i].0.clone(), v[i].1.clone());
        out.push(pair);
        assert(pairs(out@) =~= pairs(before).push((pair.0@, pair.1@)));
        assert(pairs(v@).take(i + 1) =~= pairs(v@).take(i as int).push((pair.0@, pair.1@)));
        i += 1;
    }
    assert(pairs(v@).take(pairs(v@).len() as int) =~= pairs(v@));
    out
}

/// The context in which rules see the text `source` of a file.
fn make_context(path: &str, source: &str, ignore_noqa: bool, config: &Config) -> (r: FileContext)
    ensures
        r.wf(),
        r@ == context_of(path@, source@, ignore_noqa, *config),
{
    let mut ctx = FileContext::from_source(path.to_owned(), source.to_owned());
    ctx.ignore_noqa = ignore_noqa || config.ignore_noqa;
    ctx.noqa_aliases = copy_pairs(&config.lint.noqa_aliases);
    ctx.cwd = copy_opt(&config.cwd);
    ctx
}

/// The context in which rules fix the text `source` of a file.
fn make_fix_context(path: &str, source: &str, mode: &FixMode, config: &Config) -> (r: FileContext)
    ensures
        r.wf(),
        r@ == context_for(path@, source@, mode@, *config),
{
    let mut ctx = make_context(path, source, mode.ignore_noqa, config);
    ctx.fix_target = copy_target(&mode.target);
    ctx
}

// ---------------------------------------------------------------------------
// Per-file ignores
// ---------------------------------------------------------------------------

/// Whether a glob matches a path: as it is given, or as seen from the configuration's directory
/// or the working directory.
pub open spec fn glob_hits(
    glob: Seq<char>,
    path: Seq<char>,
    config_dir: Option<Seq<char>>,
    cwd: Option<Seq<char>>,
) -> bool {
    ||| glob_match(glob, path) == Some(true)
    ||| hits_from(glob, path, config_dir)
    ||| hits_from(glob, path, cwd)
}

/// Whether a glob matches a path as seen from `dir`.
pub open spec fn hits_from(glob: Seq<char>, path: Seq<char>, dir: Option<Seq<char>>) -> bool {
    match dir {
        Some(dir) => match relative_to(path, dir) {
            Some(rel) => glob_match(glob, rel) == Some(true),
            None => false,
        },
        None => false,
    }
}

/// Whether `rule` is not reported in the file at `path`: a glob that matches the file comes with
/// a prefix of the rule.
pub open spec fn ignored_here(
    path: Seq<char>,
    rule: Seq<char>,
    ignores: Seq<(String, Vec<String>)>,
    config_dir: Option<Seq<char>>,
    cwd: Option<Seq<char>>,
) -> bool {
    exists|i: int|
        0 <= i < ignores.len() && glob_hits((#[trigger] ignores[i]).0@, path, config_dir, cwd)
            && any_prefix(strs(ignores[i].1@), rule)
}

fn does_hit_from(glob: &str, path: &str, dir: &Option<String>) -> (r: bool)
    ensures
        r == hits_from(glob@, path@, opt(*dir)),
{
    match dir {
        Some(dir) => match strip_prefix(path, dir.as_str()) {
            Some(rel) => match match_glob(glob, rel.as_str()) {
                Some(hit) => hit,
                None => false,
            },
            None => false,
        },
        None => false,
    }
}

/// Whether `rule` is not reported in the file at `path`.
pub fn per_file_ignored(
    path: &str,
    rule: &str,
    ignores: &Vec<(String, Vec<String>)>,
    config_dir: &Option<String>,
    cwd: &Option<String>,
) -> (r: bool)
    ensures
        r == ignored_here(path@, rule@, ignores@, opt(*config_dir), opt(*cwd)),
{
    let mut i: usize = 0;
    while i < ignores.len()
        invariant
            i <= ignores@.len(),
            forall|j: int|
                0 <= j < i ==> !(glob_hits(
                    (#[trigger] ignores@[j]).0@,
                    path@,
                    opt(*config_dir),
                    opt(*cwd),
                ) && any_prefix(strs(ignores@[j].1@), rule@)),
        decreases ignores@.len() - i,
    {
        let glob = ignores[i].0.as_str();
        let direct = match match_glob(glob, path) {
            Some(hit) => hit,
            None => false,
        };
        let hit = direct || does_hit_from(glob, path, config_dir) || does_hit_from(glob, path, cwd);
        if hit && has_prefix(&ignores[i].1, rule) {
            return true;
        }
        i += 1;
    }
    false
}

// ---------------------------------------------------------------------------
// Checking
// ---------------------------------------------------------------------------

/// Whether a rule runs.
pub open spec fn runs<R: Rule>(rule: R, config: Config) -> bool {
    enabled(strs(config.lint.select@), strs(config.lint.ignore@), rule.code_of())
}

/// What the first `n` rules find, those that run.
pub open spec fn found<R: Rule>(
    rules: Seq<R>,
    ctx: ContextView,
    config: Config,
    n: int,
) -> Seq<ViolationView>
    decreases n,
{
    if n <= 0 {
        Seq::empty()
    } else {
        let before = found(rules, ctx, config, n - 1);
        let rule = rules[n - 1];
        if runs(rule, config) {
            before + rule.finds(ctx, table_of(config.lint.rules@, rule.config_name_of()))
        } else {
            before
        }
    }
}

/// Those of several findings that are reported in the file at `path`.
pub open spec fn not_ignored(
    path: Seq<char>,
    violations: Seq<ViolationView>,
    config: Config,
) -> Seq<ViolationView>
    decreases violations.len(),
{
    if violations.len() == 0 {
        Seq::empty()
    } else {
        let before = not_ignored(path, violations.drop_last(), config);
        if ignored_here(
            path,
            violations.last().rule,
            config.lint.per_file_ignores@,
            opt(config.config_dir),
            opt(config.cwd),
        ) {
            before
        } else {
            before.push(violations.last())
        }
    }
}

/// What is reported in a file: what the rules that run find there, without what is ignored in
/// that file.
pub open spec fn reported<R: Rule>(
    path: Seq<char>,
    source: Seq<char>,
    ignore_noqa: bool,
    rules: Seq<R>,
    config: Config,
) -> Seq<ViolationView> {
    not_ignored(
        path,
        found(
            rules,
            context_of(path, source, ignore_noqa, config),
            config,
            rules.len() as int,
        ),
        config,
    )
}

/// Moves violations behind others.
fn push_violations(out: &mut Vec<Violation>, mut more: Vec<Violation>)
    ensures
        violation_views(final(out)@) == violation_views(old(out)@) + violation_views(more@),
{
    let ghost a = out@;
    let ghost b = more@;
    out.append(&mut more);
    assert(violation_views(out@) =~= violation_views(a) + violation_views(b));
}

/// A copy of a violation.
pub fn copy_violation(v: &Violation) -> (r: Violation)
    ensures
        r@ == v@,
{
    Violation {
        rule: v.rule.clone(),
        line: v.line,
        col: v.col,
        end_line: v.end_line,
        end_col: v.end_col,
        message: v.message.clone(),
        help: copy_opt(&v.help),
        level: v.level,
        fixable: v.fixable,
    }
}

/// Checks a file against every rule that runs.
pub fn run_check<R: Rule>(input: &CheckInput<'_>, rules: &Vec<R>, config: &Config) -> (r: Vec<
    Violation,
>)
    ensures
        violation_views(r@) == reported(
            input.path@,
            input.source@,
            input.ignore_noqa,
            rules@,
            *config,
        ),
{
    let ctx = make_context(input.path, input.source, input.ignore_noqa, config);
    let mut all: Vec<Violation> = Vec::new();
    let mut i: usize = 0;
    assert(violation_views(all@) =~= Seq::empty());
    while i < rules.len()
        invariant
            i <= rules@.len(),
            ctx@ == context_of(input.path@, input.source@, input.ignore_noqa, *config),
            violation_views(all@) == found(rules@, ctx@, *config, i as int),
        decreases rules@.len() - i,
    {
        let rule = &rules[i];
        let code = rule.code();
        if config.is_enabled(code.as_str()) {
            let name = rule.config_name();
            let table = config.rule_config(name.as_str());
            push_violations(&mut all, rule.check(&ctx, table));
        }
        i += 1;
    }
    let ghost before = violation_views(all@);
    let mut out: Vec<Violation> = Vec::new();
    let mut k: usize = 0;
    assert(violation_views(out@) =~= Seq::empty());
    assert(before.take(0) =~= Seq::empty());
    while k < all.len()
        invariant
            k <= all@.len(),
            before == violation_views(all@),
            violation_views(out@) == not_ignored(input.path@, before.take(k as int), *config),
        decreases all@.len() - k,
    {
        assert(before.take(k + 1).drop_last() =~= before.take(k as int));
        assert(before.take(k + 1).last() == all@[k as int]@);
        if !per_file_ignored(
            input.path,
            all[k].rule.as_str(),
            &config.lint.per_file_ignores,
            &config.config_dir,
            &config.cwd,
        ) {
            let ghost prior = out@;
            let v = copy_violation(&all[k]);
            out.push(v);
            assert(violation_views(out@) =~= violation_views(prior).push(v@));
        }
        k += 1;
    }
    assert(before.take(before.len() as int) =~= before);
    out
}

// ---------------------------------------------------------------------------
// Fixing
// ---------------------------------------------------------------------------

/// How often all rules are run over a file at most.
pub const MAX_FIX_PASSES: u32 = 100;

/// What a rule makes of a text: its fix, unless that changes nothing or turns Python into what is
/// no Python.
pub open spec fn accepted(source: Seq<char>, fixed: Option<Seq<char>>) -> Option<Seq<char>> {
    match fixed {
        Some(text) => if text == source || (parses(source) && !parses(text)) {
            None
        } else {
            Some(text)
        },
        None => None,
    }
}

/// Whether the fix of a rule is refused because it turns Python into what is no Python.
pub open spec fn refused(source: Seq<char>, fixed: Option<Seq<char>>) -> bool {
    match fixed {
        Some(text) => text != source && parses(source) && !parses(text),
        None => false,
    }
}

/// A text and whether it was changed.
pub struct FixState {
    pub text: String,
    pub changed: bool,
}

/// A text, whether it was changed, and why a rule could not go on.
#[verifier::ext_equal]
pub struct StateView {
    pub text: Seq<char>,
    pub changed: bool,
    pub error: Option<Seq<char>>,
}

impl View for FixState {
    type V = StateView;

    open spec fn view(&self) -> StateView {
        StateView { text: self.text@, changed: self.changed, error: None }
    }
}

/// What a rule's fix for the text of a state is, where the rule can fix and runs.
pub open spec fn fix_for<R: Rule>(
    rule: R,
    path: Seq<char>,
    mode: ModeView,
    config: Config,
    text: Seq<char>,
) -> Result<Option<Seq<char>>, Seq<char>> {
    if rule.fixable_of() && runs(rule, config) {
        rule.fixes(
            context_for(path, text, mode, config),
            table_of(config.lint.rules@, rule.config_name_of()),
        )
    } else {
        Ok(None)
    }
}

/// The text after the first `n` rules, each of which sees what the one before it made. A rule that
/// fails is the last.
pub open spec fn one_pass<R: Rule>(
    rules: Seq<R>,
    path: Seq<char>,
    mode: ModeView,
    config: Config,
    text: Seq<char>,
    n: int,
) -> StateView
    decreases n,
{
    if n <= 0 {
        StateView { text, changed: false, error: None }
    } else {
        let before = one_pass(rules, path, mode, config, text, n - 1);
        if before.error is Some {
            before
        } else {
            match fix_for(rules[n - 1], path, mode, config, before.text) {
                Ok(fixed) => match accepted(before.text, fixed) {
                    Some(text) => StateView { text, changed: true, error: None },
                    None => before,
                },
                Err(e) => StateView { error: Some(e), ..before },
            }
        }
    }
}

/// The text after at most `n` passes, the last of which is the first to change nothing or to fail.
pub open spec fn all_passes<R: Rule>(
    rules: Seq<R>,
    path: Seq<char>,
    mode: ModeView,
    config: Config,
    text: Seq<char>,
    n: nat,
) -> StateView
    decreases n,
{
    if n == 0 {
        StateView { text, changed: false, error: None }
    } else {
        let first = one_pass(rules, path, mode, config, text, rules.len() as int);
        if first.error is None && first.changed {
            let rest = all_passes(rules, path, mode, config, first.text, (n - 1) as nat);
            StateView { changed: true, ..rest }
        } else {
            first
        }
    }
}

/// Whether a text is a Python module.
pub fn is_python(source: &str) -> (r: bool)
    ensures
        r == parses(source@),
{
    outline(source).is_some()
}

/// What is said when the fix of a rule is refused.
pub open spec fn refusal(code: Seq<char>, path: Seq<char>) -> Seq<char> {
    "warning: "@ + code + "'s fix for "@ + path
        + " would produce invalid Python; skipping this fix (this is a bug in the rule -- please report it)"@
}

/// What is said of refused fixes in one run of the first `n` rules.
pub open spec fn pass_notes<R: Rule>(
    rules: Seq<R>,
    path: Seq<char>,
    mode: ModeView,
    config: Config,
    text: Seq<char>,
    n: int,
) -> Seq<Seq<char>>
    decreases n,
{
    if n <= 0 {
        Seq::empty()
    } else {
        let before = pass_notes(rules, path, mode, config, text, n - 1);
        let state = one_pass(rules, path, mode, config, text, n - 1);
        if state.error is Some {
            before
        } else {
            match fix_for(rules[n - 1], path, mode, config, state.text) {
                Ok(fixed) => if refused(state.text, fixed) {
                    before.push(refusal(rules[n - 1].code_of(), path))
                } else {
                    before
                },
                Err(_) => before,
            }
        }
    }
}

/// What is said of refused fixes in at most `n` passes.
pub open spec fn fix_notes<R: Rule>(
    rules: Seq<R>,
    path: Seq<char>,
    mode: ModeView,
    config: Config,
    text: Seq<char>,
    n: nat,
) -> Seq<Seq<char>>
    decreases n,
{
    if n == 0 {
        Seq::empty()
    } else {
        let len = rules.len() as int;
        let here = pass_notes(rules, path, mode, config, text, len);
        let first = one_pass(rules, path, mode, config, text, len);
        if first.error is None && first.changed {
            here + fix_notes(rules, path, mode, config, first.text, (n - 1) as nat)
        } else {
            here
        }
    }
}

proof fn lemma_failed_pass<R: Rule>(
    rules: Seq<R>,
    path: Seq<char>,
    mode: ModeView,
    config: Config,
    text: Seq<char>,
    i: int,
    n: int,
)
    requires
        0 <= i <= n,
        one_pass(rules, path, mode, config, text, i).error is Some,
    ensures
        one_pass(rules, path, mode, config, text, n) == one_pass(rules, path, mode, config, text, i),
        pass_notes(rules, path, mode, config, text, n) == pass_notes(
            rules,
            path,
            mode,
            config,
            text,
            i,
        ),
    decreases n,
{
    if i < n {
        lemma_failed_pass(rules, path, mode, config, text, i, n - 1);
    }
}

/// Runs every enabled rule that can fix over a text once, up to the first that fails.
pub fn fix_pass<R: Rule>(
    path: &str,
    source: &str,
    mode: &FixMode,
    rules: &Vec<R>,
    config: &Config,
    notes: &mut Vec<String>,
) -> (r: Result<FixState, FixError>)
    ensures
        ({
            let end = one_pass(rules@, path@, mode@, *config, source@, rules@.len() as int);
            match r {
                Ok(state) => state@ == end,
                Err(e) => end.error == Some(e.message@),
            }
        }),
        strs(final(notes)@) == strs(old(notes)@) + pass_notes(
            rules@,
            path@,
            mode@,
            *config,
            source@,
            rules@.len() as int,
        ),
{
    let ghost notes_before = strs(notes@);
    let mut state = FixState { text: source.to_owned(), changed: false };
    let mut i: usize = 0;
    assert(notes_before + Seq::<Seq<char>>::empty() =~= notes_before);
    while i < rules.len()
        invariant
            i <= rules@.len(),
            notes_before == strs(old(notes)@),
            state@ == one_pass(rules@, path@, mode@, *config, source@, i as int),
            strs(notes@) == notes_before + pass_notes(
                rules@,
                path@,
                mode@,
                *config,
                source@,
                i as int,
            ),
        decreases rules@.len() - i,
    {
        let rule = &rules[i];
        let code = rule.code();
        let ghost earlier = pass_notes(rules@, path@, mode@, *config, source@, i as int);
        if rule.fixable() && config.is_enabled(code.as_str()) {
            let ctx = make_fix_context(path, state.text.as_str(), mode, config);
            let name = rule.config_name();
            let table = config.rule_config(name.as_str());
            match rule.fix(&ctx, table) {
                Ok(Some(fixed)) => {
                    if fixed != state.text {
                        if is_python(state.text.as_str()) && !is_python(fixed.as_str()) {
                            let mut note = "warning: ".to_owned();
                            note.append(code.as_str());
                            note.append("'s fix for ");
                            note.append(path);
                            note.append(" would produce invalid Python; skipping this fix (this is a bug in the rule -- please report it)");
                            let ghost prior = notes@;
                            notes.push(note);
                            assert(strs(notes@) =~= strs(prior).push(note@));
                            assert((notes_before + earlier).push(note@) =~= notes_before
                                + earlier.push(note@));
                        } else {
                            state = FixState { text: fixed, changed: true };
                        }
                    }
                },
                Ok(None) => {},
                Err(e) => {
                    proof {
                        lemma_failed_pass(
                            rules@,
                            path@,
                            mode@,
                            *config,
                            source@,
                            i + 1,
                            rules@.len() as int,
                        );
                    }
                    return Err(e);
                },
            }
        }
        i += 1;
    }
    Ok(state)
}

/// How a file is to be fixed.
pub open spec fn mode_of(input: CheckInput<'_>) -> ModeView {
    ModeView { ignore_noqa: input.ignore_noqa, target: target_of(input.fix_target) }
}

/// How often all rules are run over a file at most: once where a single violation is to be fixed.
pub open spec fn passes_for(input: CheckInput<'_>) -> nat {
    if input.fix_target is Some {
        1
    } else {
        MAX_FIX_PASSES as nat
    }
}

/// Runs all enabled rules that can fix over a file again and again until nothing changes, at most
/// [`MAX_FIX_PASSES`] times. Where a single violation is to be fixed, they run once. Gives the
/// fixed text, or `None` where no rule changed anything, or the error of the first rule that fails.
pub fn run_fix<R: Rule>(
    input: &CheckInput<'_>,
    rules: &Vec<R>,
    config: &Config,
    notes: &mut Vec<String>,
) -> (r: Result<Option<String>, FixError>)
    ensures
        ({
            let end = all_passes(
                rules@,
                input.path@,
                mode_of(*input),
                *config,
                input.source@,
                passes_for(*input),
            );
            match r {
                Ok(Some(text)) => end.error is None && end.changed && text@ == end.text,
                Ok(None) => end.error is None && !end.changed,
                Err(e) => end.error == Some(e.message@),
            }
        }),
        strs(final(notes)@) == strs(old(notes)@) + fix_notes(
            rules@,
            input.path@,
            mode_of(*input),
            *config,
            input.source@,
            passes_for(*input),
        ),
{
    let ghost said = strs(notes@) + fix_notes(
        rules@,
        input.path@,
        mode_of(*input),
        *config,
        input.source@,
        passes_for(*input),
    );
    let ghost path = input.path@;
    let ghost end = all_passes(
        rules@,
        path,
        mode_of(*input),
        *config,
        input.source@,
        passes_for(*input),
    );
    let mut text = input.source.to_owned();
    let mut changed = false;
    let mode = FixMode {
        ignore_noqa: input.ignore_noqa,
        target: copy_target(&input.fix_target),
    };
    let mut left: u32 = if input.fix_target.is_some() {
        1
    } else {
        MAX_FIX_PASSES
    };
    while left > 0
        invariant
            path == input.path@,
            mode@ == mode_of(*input),
            said == strs(old(notes)@) + fix_notes(
                rules@,
                path,
                mode_of(*input),
                *config,
                input.source@,
                passes_for(*input),
            ),
            said == strs(notes@) + fix_notes(
                rules@,
                path,
                mode_of(*input),
                *config,
                text@,
                left as nat,
            ),
            end == all_passes(
                rules@,
                path,
                mode_of(*input),
                *config,
                input.source@,
                passes_for(*input),
            ),
            ({
                let rest = all_passes(
                    rules@,
                    path,
                    mode_of(*input),
                    *config,
                    text@,
                    left as nat,
                );
                end.text == rest.text && end.changed == (changed || rest.changed) && end.error
                    == rest.error
            }),
        decreases left,
    {
        let ghost before = strs(notes@);
        let state = match fix_pass(
            input.path,
            text.as_str(),
            &mode,
            rules,
            config,
            notes,
        ) {
            Ok(state) => state,
            Err(e) => return Err(e),
        };
        if !state.changed {
            proof {
                lemma_unchanged(
                    rules@,
                    path,
                    mode_of(*input),
                    *config,
                    text@,
                    rules@.len() as int,
                );
            }
            return Ok(
                if changed {
                    Some(text)
                } else {
                    None
                },
            );
        }
        proof {
            let here = pass_notes(
                rules@,
                path,
                mode_of(*input),
                *config,
                text@,
                rules@.len() as int,
            );
            let rest = fix_notes(
                rules@,
                path,
                mode_of(*input),
                *config,
                state.text@,
                (left - 1) as nat,
            );
            assert(before + (here + rest) =~= (before + here) + rest);
        }
        text = state.text;
        changed = true;
        left -= 1;
    }
    assert(strs(notes@) + Seq::<Seq<char>>::empty() =~= strs(notes@));
    Ok(
        if changed {
            Some(text)
        } else {
            None
        },
    )
}

/// A pass that changes nothing leaves the text.
pub proof fn lemma_unchanged<R: Rule>(
    rules: Seq<R>,
    path: Seq<char>,
    mode: ModeView,
    config: Config,
    text: Seq<char>,
    n: int,
)
    ensures
        !one_pass(rules, path, mode, config, text, n).changed ==> one_pass(
            rules,
            path,
            mode,
            config,
            text,
            n,
        ).text == text,
    decreases n,
{
    if n > 0 {
        lemma_unchanged(rules, path, mode, config, text, n - 1);
    }
}

// ---------------------------------------------------------------------------
// Laws
// ---------------------------------------------------------------------------

/// Fixing never turns a Python module into what is none.
pub proof fn law_fix_keeps_python<R: Rule>(
    rules: Seq<R>,
    path: Seq<char>,
    mode: ModeView,
    config: Config,
    text: Seq<char>,
    n: nat,
)
    requires
        parses(text),
    ensures
        parses(all_passes(rules, path, mode, config, text, n).text),
    decreases n,
{
    if n > 0 {
        lemma_pass_keeps_python(rules, path, mode, config, text, rules.len() as int);
        let first = one_pass(rules, path, mode, config, text, rules.len() as int);
        if first.error is None && first.changed {
            law_fix_keeps_python(rules, path, mode, config, first.text, (n - 1) as nat);
        }
    }
}

proof fn lemma_pass_keeps_python<R: Rule>(
    rules: Seq<R>,
    path: Seq<char>,
    mode: ModeView,
    config: Config,
    text: Seq<char>,
    n: int,
)
    requires
        parses(text),
    ensures
        parses(one_pass(rules, path, mode, config, text, n).text),
    decreases n,
{
    if n > 0 {
        lemma_pass_keeps_python(rules, path, mode, config, text, n - 1);
    }
}

/// Without rules nothing is found and nothing changes.
pub proof fn law_without_rules_nothing_happens<R: Rule>(
    rules: Seq<R>,
    path: Seq<char>,
    source: Seq<char>,
    mode: ModeView,
    config: Config,
)
    requires
        rules.len() == 0,
    ensures
        reported(path, source, mode.ignore_noqa, rules, config).len() == 0,
        !all_passes(rules, path, mode, config, source, MAX_FIX_PASSES as nat).changed,
{
}

/// Where fixing stops before its last pass, no rule has an error, and fixing what came out once
/// more changes nothing.
pub proof fn law_fix_ends_stable<R: Rule>(
    rules: Seq<R>,
    path: Seq<char>,
    mode: ModeView,
    config: Config,
    text: Seq<char>,
    n: nat,
    m: nat,
)
    requires
        stops_within(rules, path, mode, config, text, n),
    ensures
        all_passes(rules, path, mode, config, text, n).error is None,
        ({
            let end = all_passes(rules, path, mode, config, text, n).text;
            all_passes(rules, path, mode, config, end, m) == (StateView {
                text: end,
                changed: false,
                error: None,
            })
        }),
        !one_pass(
            rules,
            path,
            mode,
            config,
            all_passes(rules, path, mode, config, text, n).text,
            rules.len() as int,
        ).changed,
    decreases n,
{
    if n > 0 {
        let first = one_pass(rules, path, mode, config, text, rules.len() as int);
        if first.changed {
            law_fix_ends_stable(rules, path, mode, config, first.text, (n - 1) as nat, m);
        } else {
            lemma_unchanged(rules, path, mode, config, text, rules.len() as int);
        }
    }
}

/// Whether one of the first `n` passes changes nothing, and none before it fails.
pub open spec fn stops_within<R: Rule>(
    rules: Seq<R>,
    path: Seq<char>,
    mode: ModeView,
    config: Config,
    text: Seq<char>,
    n: nat,
) -> bool
    decreases n,
{
    if n == 0 {
        false
    } else {
        let first = one_pass(rules, path, mode, config, text, rules.len() as int);
        first.error is None && (!first.changed || stops_within(
            rules,
            path,
            mode,
            config,
            first.text,
            (n - 1) as nat,
        ))
    }
}

/// Where no enabled rule can fix, nothing changes, nothing fails and nothing is said: the fixes of
/// rules that are switched off or cannot fix play no part.
pub proof fn law_only_enabled_fixable_rules_fix<R: Rule>(
    rules: Seq<R>,
    path: Seq<char>,
    mode: ModeView,
    config: Config,
    text: Seq<char>,
    n: nat,
)
    requires
        forall|i: int|
            0 <= i < rules.len() ==> !(#[trigger] rules[i]).fixable_of() || !runs(rules[i], config),
    ensures
        all_passes(rules, path, mode, config, text, n) == (StateView {
            text,
            changed: false,
            error: None,
        }),
        fix_notes(rules, path, mode, config, text, n).len() == 0,
{
    lemma_idle_pass(rules, path, mode, config, text, rules.len() as int);
}

proof fn lemma_idle_pass<R: Rule>(
    rules: Seq<R>,
    path: Seq<char>,
    mode: ModeView,
    config: Config,
    text: Seq<char>,
    n: int,
)
    requires
        n <= rules.len(),
        forall|i: int|
            0 <= i < rules.len() ==> !(#[trigger] rules[i]).fixable_of() || !runs(rules[i], config),
    ensures
        one_pass(rules, path, mode, config, text, n) == (StateView {
            text,
            changed: false,
            error: None,
        }),
        pass_notes(rules, path, mode, config, text, n).len() == 0,
    decreases n,
{
    if n > 0 {
        lemma_idle_pass(rules, path, mode, config, text, n - 1);
    }
}

} // verus!
