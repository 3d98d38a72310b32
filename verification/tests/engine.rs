//! Running rules over files.
use konform::config::{Config, RuleTable};
use konform::engine::{fix_pass, is_python, run_check, run_fix, CheckInput, FixMode};
use konform::fix_run::FixRun;
use konform::module_facts::{ModuleCheck, ModuleFacts};
use konform::rules::{all_rules, BuiltinRule, FileContext, Rule};
use konform::types::{FixError, FixTarget, Violation};

/// The rules, where `os.path` is known and `join` in it is no module.
fn rules() -> Vec<BuiltinRule> {
    let mut facts = ModuleFacts::new();
    facts.record("os.path", "join", ModuleCheck::NotModule);
    facts.record("os", "path", ModuleCheck::NotModule);
    all_rules(facts, None, vec![])
}

fn no_rules() -> Vec<BuiltinRule> {
    vec![]
}

fn fix<R: Rule>(input: &CheckInput<'_>, rules: &Vec<R>) -> Option<String> {
    run_fix(input, rules, &Config::default(), &mut Vec::new()).unwrap()
}

#[test]
fn empty_rules_yields_no_violations() {
    let input = CheckInput::new("test.py", "from os.path import join\n");
    let violations = run_check(&input, &no_rules(), &Config::default());
    assert!(violations.is_empty());
}

#[test]
fn empty_rules_fix_returns_none() {
    let input = CheckInput::new("test.py", "from os.path import join\n");
    let result = fix(&input, &no_rules());
    assert!(result.is_none());
}

#[test]
fn run_check_finds_kis001_violation() {
    let input = CheckInput::new("test.py", "from os.path import join\n");
    let violations = run_check(&input, &rules(), &Config::default());
    assert!(!violations.is_empty());
    assert_eq!(violations[0].rule, "KIS001");
}

#[test]
fn run_check_clean_source_no_violations() {
    // Source is clean for all active rules: valid module import + docstring.
    let input = CheckInput::new("test.py", "\"\"\"Clean module.\"\"\"\nimport os.path\n");
    let violations = run_check(&input, &rules(), &Config::default());
    assert!(violations.is_empty());
}

#[test]
fn run_fix_rewrites_violation() {
    let source = "from os.path import join\n";
    let input = CheckInput::new("test.py", source);
    let fixed = fix(&input, &rules());
    assert!(fixed.is_some());
    assert!(!fixed.unwrap().contains("from os.path import join"));
}

#[test]
fn run_fix_clean_source_returns_none() {
    let source = "import os.path\n";
    let input = CheckInput::new("test.py", source);
    let result = fix(&input, &rules());
    assert!(result.is_none());
}

#[test]
fn check_input_from_converts_to_file_context() {
    let input = CheckInput::new("test.py", "x = 1\n");
    let ctx = FileContext::from(&input);
    assert_eq!(ctx.path, "test.py");
    assert_eq!(ctx.source, "x = 1\n");
    assert_eq!(ctx.lines, vec!["x = 1"]);
}

#[test]
fn per_file_ignores_suppresses_matching_path() {
    // Use a relative path that matches the glob directly.
    // Source with a docstring produces only a KIS001 violation.
    let p = "tests/test_foo.py";
    let input = CheckInput::new(p, "\"\"\"Test module.\"\"\"\nfrom os.path import join\n");
    let mut config = Config::default();
    config.lint.per_file_ignores.push(("tests/**".to_owned(), vec!["KIS001".to_owned()]));
    let violations = run_check(&input, &rules(), &config);
    assert!(
        violations.is_empty(),
        "per_file_ignores should suppress KIS001 for tests/**"
    );
}

#[test]
fn per_file_ignores_non_matching_path_still_reports() {
    let p = "src/foo.py";
    let input = CheckInput::new(p, "from os.path import join\n");
    let mut config = Config::default();
    config.lint.per_file_ignores.push(("tests/**".to_owned(), vec!["KIS001".to_owned()]));
    let violations = run_check(&input, &rules(), &config);
    assert!(!violations.is_empty(), "src/foo.py should not be ignored");
}

#[test]
fn per_file_ignores_category_prefix_suppresses() {
    let p = "tests/test_foo.py";
    // Source with a docstring produces only a KIS001 violation.
    let input = CheckInput::new(p, "\"\"\"Test module.\"\"\"\nfrom os.path import join\n");
    let mut config = Config::default();
    // Category prefix "KIS" should suppress KIS001.
    config.lint.per_file_ignores.push(("tests/**".to_owned(), vec!["KIS".to_owned()]));
    let violations = run_check(&input, &rules(), &config);
    assert!(
        violations.is_empty(),
        "category prefix KIS should suppress KIS001"
    );
}

#[test]
fn noqa_alias_suppresses_violation() {
    let input = CheckInput::new("test.py", "from os.path import join  # noqa: IS001\n");
    let mut config = Config::default();
    config.lint.noqa_aliases.push(("IS001".to_owned(), "KIS001".to_owned()));
    let violations = run_check(&input, &rules(), &config);
    assert!(
        violations.is_empty(),
        "noqa_aliases should let IS001 suppress KIS001"
    );
}

#[test]
fn noqa_alias_category_suppresses_violation() {
    let input = CheckInput::new("test.py", "from os.path import join  # noqa: IS\n");
    let mut config = Config::default();
    config.lint.noqa_aliases.push(("IS".to_owned(), "KIS".to_owned()));
    let violations = run_check(&input, &rules(), &config);
    assert!(
        violations.is_empty(),
        "category noqa_aliases should let IS suppress KIS001"
    );
}

#[test]
fn noqa_alias_unrelated_code_does_not_suppress() {
    let input = CheckInput::new("test.py", "from os.path import join  # noqa: IS002\n");
    let mut config = Config::default();
    config.lint.noqa_aliases.push(("IS001".to_owned(), "KIS001".to_owned()));
    let violations = run_check(&input, &rules(), &config);
    assert!(
        !violations.is_empty(),
        "unrelated alias should not suppress KIS001"
    );
}

// ── AST-validity safety net: a rule's fix must not corrupt syntax ───────

/// Rules that stand in for real ones.
enum Stub {
    /// Its fix always "succeeds" but emits syntactically invalid Python.
    BrokenFix,
    /// Always applies a trivial, syntactically valid fix.
    GoodFix,
    /// Turns `NEEDS_A` into `NEEDS_B`: a fix that creates work for another rule.
    NeedsA,
    /// Resolves `NEEDS_B`.
    NeedsB,
    /// Flips the source between two states, never converging.
    Oscillating,
    /// Would change the source, but says that it cannot fix.
    NotFixable,
    /// Cannot fix and says why.
    Failing,
}

impl Rule for Stub {
    fn code(&self) -> String {
        match self {
            Stub::BrokenFix => "ZZ999",
            Stub::GoodFix => "ZZ998",
            Stub::NeedsA => "ZZ997",
            Stub::NeedsB => "ZZ996",
            Stub::Oscillating => "ZZ995",
            Stub::NotFixable => "ZZ994",
            Stub::Failing => "ZZ993",
        }
        .to_owned()
    }
    fn category(&self) -> String {
        "ZZ".to_owned()
    }
    fn config_name(&self) -> String {
        "stub".to_owned()
    }
    fn name(&self) -> String {
        "stub".to_owned()
    }
    fn description(&self) -> String {
        "test-only rule".to_owned()
    }
    fn fixable(&self) -> bool {
        !matches!(self, Stub::NotFixable)
    }
    fn check(&self, _ctx: &FileContext, _table: &RuleTable) -> Vec<Violation> {
        Vec::new()
    }
    fn fix(&self, ctx: &FileContext, _table: &RuleTable) -> Result<Option<String>, FixError> {
        let source = &ctx.source;
        Ok(match self {
            Stub::BrokenFix => Some("def (((( not valid python".to_owned()),
            Stub::GoodFix => {
                // Idempotent, like a real rule: nothing left to fix once applied.
                if source.contains("# fixed by GoodFixRule") {
                    return Ok(None);
                }
                Some(format!("{}\n# fixed by GoodFixRule\n", source.trim_end()))
            }
            Stub::NeedsA => {
                if !source.contains("NEEDS_A") {
                    return Ok(None);
                }
                Some(source.replace("NEEDS_A", "FIXED_A NEEDS_B"))
            }
            Stub::NeedsB => {
                if !source.contains("NEEDS_B") {
                    return Ok(None);
                }
                Some(source.replace("NEEDS_B", "FIXED_B"))
            }
            Stub::Oscillating => {
                if source.contains("STATE_A") {
                    Some(source.replace("STATE_A", "STATE_B"))
                } else {
                    Some(source.replace("STATE_B", "STATE_A"))
                }
            }
            Stub::NotFixable => Some(format!("{source}# changed all the same\n")),
            Stub::Failing => return Err(FixError { message: "no luck".to_owned() }),
        })
    }
    fn explain(&self) -> String {
        String::new()
    }
}

#[test]
fn run_fix_rejects_a_fix_that_produces_invalid_python() {
    let rules = vec![Stub::BrokenFix];
    let input = CheckInput::new("test.py", "x = 1\n");
    let result = fix(&input, &rules);
    assert!(
        result.is_none(),
        "a fix that produces invalid Python must be rejected, not written out"
    );
}

#[test]
fn run_fix_continues_past_a_rejected_fix() {
    // BrokenFixRule's corrupting fix must not prevent GoodFixRule's
    // legitimate, valid fix from still being applied.
    let rules = vec![Stub::BrokenFix, Stub::GoodFix];
    let input = CheckInput::new("test.py", "x = 1\n");
    let result = fix(&input, &rules);
    let fixed = result.expect("GoodFixRule's valid fix should still be applied");
    assert!(fixed.contains("# fixed by GoodFixRule"), "got: {fixed:?}");
    assert!(
        is_python(&fixed),
        "final result must remain valid Python"
    );
}

#[test]
fn run_fix_iterates_across_passes_until_stable() {
    // Single-pass semantics would leave this unresolved: within pass 1,
    // RuleNeedsB runs first and finds nothing (NEEDS_B doesn't exist
    // yet), then RuleNeedsA runs and introduces NEEDS_B. Only a second
    // pass -- driven by the engine's fixed-point loop -- lets
    // RuleNeedsB see and resolve it, mirroring Ruff's iterate-to-a-
    // fixed-point `check --fix` behavior.
    let rules = vec![Stub::NeedsB, Stub::NeedsA];
    let input = CheckInput::new("test.py", "# NEEDS_A\nx = 1\n");
    let result = fix(&input, &rules);
    let fixed = result.expect("cascading fix should be applied");
    assert!(
        fixed.contains("FIXED_A") && fixed.contains("FIXED_B"),
        "both the original and the cascaded violation should be resolved \
         within a single run_fix call, got: {fixed:?}"
    );
    assert!(
        !fixed.contains("NEEDS_A") && !fixed.contains("NEEDS_B"),
        "no unresolved placeholder should remain, got: {fixed:?}"
    );
}

#[test]
fn run_fix_terminates_when_a_rule_never_converges() {
    let rules = vec![Stub::Oscillating];
    let input = CheckInput::new("test.py", "# STATE_A\nx = 1\n");
    // Must return rather than loop forever; the iteration cap in
    // run_fix bounds the pathological case.
    let result = fix(&input, &rules);
    assert!(
        result.is_some(),
        "an oscillating rule still reports a change"
    );
}

#[test]
fn refused_fix_is_told_of() {
    let mut notes = Vec::new();
    let input = CheckInput::new("test.py", "x = 1\n");
    assert!(run_fix(&input, &vec![Stub::BrokenFix], &Config::default(), &mut notes).unwrap().is_none());
    assert_eq!(
        notes,
        vec![
            "warning: ZZ999's fix for test.py would produce invalid Python; skipping this fix \
             (this is a bug in the rule -- please report it)"
        ]
    );
}

#[test]
fn one_pass_runs_each_rule_once() {
    let rules = vec![Stub::NeedsB, Stub::NeedsA];
    let mode = FixMode { ignore_noqa: false, target: None };
    let state = fix_pass(
        "test.py",
        "# NEEDS_A\nx = 1\n",
        &mode,
        &rules,
        &Config::default(),
        &mut Vec::new(),
    )
    .unwrap();
    assert!(state.changed);
    assert_eq!(state.text, "# FIXED_A NEEDS_B\nx = 1\n");
}

#[test]
fn a_single_violation_is_fixed_in_one_pass() {
    let mut input = CheckInput::new("test.py", "# NEEDS_A\nx = 1\n");
    input.fix_target = Some(FixTarget { rule: "ZZ997".to_owned(), line: 1, col: 0 });
    let fixed = fix(&input, &vec![Stub::NeedsB, Stub::NeedsA]).unwrap();
    assert_eq!(fixed, "# FIXED_A NEEDS_B\nx = 1\n");
}

#[test]
fn comments_are_ignored_where_asked() {
    let mut input = CheckInput::new("test.py", "from os.path import join  # noqa\n");
    let config = Config::default();
    assert!(run_check(&input, &rules(), &config).is_empty());
    input.ignore_noqa = true;
    assert_eq!(run_check(&input, &rules(), &config).len(), 1);
}

#[test]
fn ignored_rule_does_not_run() {
    let input = CheckInput::new("test.py", "from os.path import join\n");
    let mut config = Config::default();
    config.lint.ignore.push("KIS".to_owned());
    assert!(run_check(&input, &rules(), &config).is_empty());
    assert!(run_fix(&input, &rules(), &config, &mut Vec::new()).unwrap().is_none());
}

#[test]
fn per_file_ignores_are_seen_from_the_configuration() {
    let input = CheckInput::new("/proj/tests/test_foo.py", "from os.path import join\n");
    let mut config = Config::default();
    config.config_dir = Some("/proj".to_owned());
    config.lint.per_file_ignores.push(("tests/**".to_owned(), vec!["KIS001".to_owned()]));
    assert!(run_check(&input, &rules(), &config).is_empty());
}

#[test]
fn fixing_step_by_step_gives_the_same() {
    let rules = vec![Stub::NeedsB, Stub::NeedsA];
    let input = CheckInput::new("test.py", "# NEEDS_A\nx = 1\n");
    let mut run = FixRun::start(&input);
    let mut passes = 0;
    while run.goes_on() {
        run.advance(&rules, &Config::default(), &mut Vec::new());
        passes += 1;
    }
    assert_eq!(passes, 3);
    assert_eq!(run.result().unwrap(), fix(&input, &rules));
}

#[test]
fn rules_that_cannot_fix_are_left_out() {
    let input = CheckInput::new("test.py", "x = 1\n");
    assert_eq!(fix(&input, &vec![Stub::NotFixable]), None);
    assert_eq!(fix(&input, &vec![Stub::NotFixable, Stub::GoodFix]).unwrap().lines().count(), 2);
}

#[test]
fn the_first_error_ends_fixing() {
    let input = CheckInput::new("test.py", "# NEEDS_A\nx = 1\n");
    let rules = vec![Stub::NeedsA, Stub::Failing, Stub::BrokenFix];
    let mut notes = Vec::new();
    let error = run_fix(&input, &rules, &Config::default(), &mut notes).unwrap_err();
    assert_eq!(error.message, "no luck");
    assert!(notes.is_empty());
    let mut run = FixRun::start(&input);
    while run.goes_on() {
        run.advance(&rules, &Config::default(), &mut notes);
    }
    assert_eq!(run.result().unwrap_err().message, "no luck");
}

#[test]
fn what_came_out_is_not_fixed_further() {
    let rules = vec![Stub::NeedsB, Stub::NeedsA, Stub::GoodFix];
    let fixed = fix(&CheckInput::new("test.py", "# NEEDS_A\nx = 1\n"), &rules).unwrap();
    assert_eq!(fix(&CheckInput::new("test.py", &fixed), &rules), None);
}
