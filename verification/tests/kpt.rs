//! Patterns that a project defines: reading them, what they find and what they replace.
use konform::config::{Config, RuleTable};
use konform::config_read::read_table;
use konform::engine::{run_fix, CheckInput};
use konform::json::Json;
use konform::kpt::{is_yaml, resolve_path, KptRule, RawPattern};
use konform::kpt_read::{load_from_file, read_pattern_file};
use konform::module_facts::ModuleFacts;
use konform::parse::read_toml;
use konform::rules::{load_patterns, rules_for, FileContext, Rule};
use konform::types::{FixTarget, Level};

fn toml_document(text: &str) -> Json {
    read_toml(text).unwrap()
}

fn ctx(source: &str) -> FileContext {
    ctx_path("src/test.py", source)
}

fn ctx_path(path: &str, source: &str) -> FileContext {
    FileContext::from_source(path.to_owned(), source.to_owned())
}

fn rule() -> KptRule {
    KptRule::new(None)
}

/// The table of the rule, with the patterns of the files beside it.
fn with_files(
    table: &str,
    explicit: Option<Vec<RawPattern>>,
    toml_file: Option<Vec<RawPattern>>,
    yaml_file: Option<Vec<RawPattern>>,
) -> RuleTable {
    match read_table("user-defined-patterns", &toml_document(table)) {
        RuleTable::UserDefinedPatterns(mut t) => {
            t.sources.rules_file = explicit;
            t.sources.toml_file = toml_file;
            t.sources.yaml_file = yaml_file;
            RuleTable::UserDefinedPatterns(t)
        }
        other => other,
    }
}

fn cfg_with_rules(rules_toml: &str) -> RuleTable {
    with_files(rules_toml, None, None, None)
}

// ── no patterns ────────────────────────────────────────────────────────

#[test]
fn no_patterns_yields_no_violations() {
    let cfg = cfg_with_rules("");
    let violations = rule().check(&ctx("print('hello')\n"), &cfg);
    assert!(violations.is_empty());
}

// ── inline rules ──────────────────────────────────────────────────────

#[test]
fn inline_pattern_fires_on_match() {
    let cfg = cfg_with_rules(
        r#"
[[rules]]
id      = "KPT001"
message = "No bare print."
pattern = '^\s*print\('
"#,
    );
    let violations = rule().check(&ctx("print('hello')\n"), &cfg);
    assert_eq!(violations.len(), 1);
    assert_eq!(violations[0].rule, "KPT001");
    assert_eq!(violations[0].line, 1);
    assert!(!violations[0].fixable);
}

#[test]
fn inline_pattern_no_match_is_clean() {
    let cfg = cfg_with_rules(
        r#"
[[rules]]
id      = "KPT001"
message = "No bare print."
pattern = '^\s*print\('
"#,
    );
    let violations = rule().check(&ctx("logger.info('hello')\n"), &cfg);
    assert!(violations.is_empty());
}

#[test]
fn multiple_matching_lines_each_reported() {
    let cfg = cfg_with_rules(
        r#"
[[rules]]
id      = "KPT001"
message = "No bare print."
pattern = 'print\('
"#,
    );
    let src = "print('a')\nlogger.info('b')\nprint('c')\n";
    let violations = rule().check(&ctx(src), &cfg);
    assert_eq!(violations.len(), 2);
    assert_eq!(violations[0].line, 1);
    assert_eq!(violations[1].line, 3);
}

// ── glob file filter ──────────────────────────────────────────────────

#[test]
fn glob_filter_absolute_path_stripped_by_config_dir() {
    // Simulates a CLI invocation with an absolute path when config_dir
    // equals the project root.  `src/**/*.py` must still match.
    let rule = KptRule::new(Some("/proj".to_owned()));
    let cfg = cfg_with_rules(
        r#"
[[rules]]
id      = "KPT001"
message = "No bare print."
pattern = 'print\('
files   = ["src/**/*.py"]
"#,
    );

    // Absolute path — should be stripped to `src/pkg/mod.py` and match.
    let v = rule.check(
        &ctx_path("/proj/src/pkg/mod.py", "print('x')\n"),
        &cfg,
    );
    assert_eq!(
        v.len(),
        1,
        "absolute path under config_dir should match src/**/*.py"
    );

    // Absolute path outside src/ — must not match.
    let v2 = rule.check(
        &ctx_path("/proj/tests/test_mod.py", "print('x')\n"),
        &cfg,
    );
    assert!(
        v2.is_empty(),
        "absolute path outside src/ must not match src/**/*.py"
    );
}

#[test]
fn glob_filter_matches_correct_path() {
    let cfg = cfg_with_rules(
        r#"
[[rules]]
id      = "KPT001"
message = "No bare print."
pattern = 'print\('
files   = ["src/**/*.py"]
"#,
    );
    // matches
    let v = rule().check(&ctx_path("src/foo/bar.py", "print('x')\n"), &cfg);
    assert_eq!(v.len(), 1, "should fire for src/foo/bar.py");

    // does not match
    let v2 = rule().check(&ctx_path("tests/test_bar.py", "print('x')\n"), &cfg);
    assert!(v2.is_empty(), "should not fire for tests/test_bar.py");
}

#[test]
fn no_files_filter_applies_to_all() {
    let cfg = cfg_with_rules(
        r#"
[[rules]]
id      = "KPT001"
message = "No bare print."
pattern = 'print\('
"#,
    );
    let v = rule().check(&ctx_path("tests/test_foo.py", "print('x')\n"), &cfg);
    assert_eq!(v.len(), 1);
}

// ── noqa suppression ─────────────────────────────────────────────────

#[test]
fn noqa_exact_code_suppresses() {
    let cfg = cfg_with_rules(
        r#"
[[rules]]
id      = "KPT001"
message = "No bare print."
pattern = 'print\('
"#,
    );
    let v = rule().check(&ctx("print('x')  # noqa: KPT001\n"), &cfg);
    assert!(v.is_empty());
}

#[test]
fn noqa_category_prefix_suppresses() {
    let cfg = cfg_with_rules(
        r#"
[[rules]]
id      = "KPT001"
message = "No bare print."
pattern = 'print\('
"#,
    );
    let v = rule().check(&ctx("print('x')  # noqa: KPT\n"), &cfg);
    assert!(v.is_empty());
}

#[test]
fn bare_noqa_suppresses() {
    let cfg = cfg_with_rules(
        r#"
[[rules]]
id      = "KPT001"
message = "No bare print."
pattern = 'print\('
"#,
    );
    let v = rule().check(&ctx("print('x')  # noqa\n"), &cfg);
    assert!(v.is_empty());
}

// ── per-pattern level ─────────────────────────────────────────────────

#[test]
fn per_pattern_level_respected() {
    let cfg = cfg_with_rules(
        r#"
[[rules]]
id      = "KPT001"
message = "No bare print."
pattern = 'print\('
level   = "error"
"#,
    );
    let v = rule().check(&ctx("print('x')\n"), &cfg);
    assert_eq!(v[0].level, Level::Error);
}

#[test]
fn default_level_is_warning() {
    let cfg = cfg_with_rules(
        r#"
[[rules]]
id      = "KPT001"
message = "No bare print."
pattern = 'print\('
"#,
    );
    let v = rule().check(&ctx("print('x')\n"), &cfg);
    assert_eq!(v[0].level, Level::Warning);
}

#[test]
fn category_level_propagates_to_patterns() {
    let cfg = cfg_with_rules(
        r#"
level = "error"

[[rules]]
id      = "KPT001"
message = "No bare print."
pattern = 'print\('
"#,
    );
    let v = rule().check(&ctx("print('x')\n"), &cfg);
    assert_eq!(v[0].level, Level::Error);
}

// ── violation fields ──────────────────────────────────────────────────

#[test]
fn violation_fields_are_correct() {
    let cfg = cfg_with_rules(
        r#"
[[rules]]
id      = "KPT042"
message = "Avoid TODO."
pattern = '#\s*TODO'
"#,
    );
    let v = rule().check(&ctx("x = 1  # TODO: fix\n"), &cfg);
    assert_eq!(v.len(), 1);
    let viol = &v[0];
    assert_eq!(viol.rule, "KPT042");
    assert_eq!(viol.line, 1);
    assert_eq!(viol.end_line, 1);
    assert!(!viol.fixable);
    assert!(viol.message.contains("KPT042"));
    assert!(viol.message.contains("Avoid TODO."));
    // col/end_col must cover only the matched regex span, not the whole line.
    assert_eq!(viol.col, 7, "col must be start of match");
    assert_eq!(viol.end_col, 13, "end_col must be end of match");
    assert!(
        viol.end_col < "x = 1  # TODO: fix".len(),
        "end_col must not cover full line"
    );
}

// ── invalid regex skipped ─────────────────────────────────────────────

// ── top-level list pattern ─────────────────────────────────────────

#[test]
fn top_level_list_pattern_fires_on_any_match() {
    let cfg = cfg_with_rules(
        r#"
[[rules]]
id      = "KPT001"
message = "Debugging artefact."
pattern = ['print\(', 'breakpoint\(']
"#,
    );
    // First pattern matches.
    let v1 = rule().check(&ctx("print('x')\n"), &cfg);
    assert_eq!(v1.len(), 1, "first list pattern should fire");
    assert_eq!(v1[0].rule, "KPT001");

    // Second pattern matches.
    let v2 = rule().check(&ctx("breakpoint()\n"), &cfg);
    assert_eq!(v2.len(), 1, "second list pattern should fire");

    // Neither matches.
    let v3 = rule().check(&ctx("logger.info('x')\n"), &cfg);
    assert!(v3.is_empty(), "no match should yield no violations");
}

#[test]
fn top_level_list_pattern_col_from_widest_match() {
    // When multiple patterns match the same line, col/end_col must reflect
    // the widest match, not the first one in declaration order.
    let cfg = cfg_with_rules(
        r#"
[[rules]]
id      = "KPT001"
message = "hit."
pattern = ['print', "print\\('x'\\)"]
"#,
    );
    //  line: "    print('x')"
    //  'print'        → col 4, end_col  9  (span = 5)
    //  "print('x')"   → col 4, end_col 14  (span = 10)  ← widest
    let v = rule().check(&ctx("    print('x')\n"), &cfg);
    assert_eq!(v.len(), 1);
    assert_eq!(v[0].col, 4, "col must be start of widest match");
    assert_eq!(v[0].end_col, 14, "end_col must be end of widest match");
}

#[test]
fn top_level_invalid_regex_in_list_skipped_gracefully() {
    let cfg = cfg_with_rules(
        r#"
[[rules]]
id      = "KPT001"
message = "hit."
pattern = ['[', 'print\(']
"#,
    );
    // Invalid first regex is dropped; valid second regex still fires.
    let v = rule().check(&ctx("print('x')\n"), &cfg);
    assert_eq!(
        v.len(),
        1,
        "valid regex in list should still fire after invalid one is skipped"
    );
}

#[test]
fn top_level_all_invalid_regexes_drops_rule() {
    let cfg = cfg_with_rules(
        r#"
[[rules]]
id      = "KPT001"
message = "hit."
pattern = ['[', '(']
"#,
    );
    // All patterns invalid — rule is silently dropped, no violations, no panic.
    let v = rule().check(&ctx("anything\n"), &cfg);
    assert!(v.is_empty());
}

// ── invalid regex skipped ─────────────────────────────────────────

#[test]
fn invalid_regex_skipped_gracefully() {
    let cfg = cfg_with_rules(
        r#"
[[rules]]
id      = "KPT001"
message = "Bad pattern."
pattern = '['   # invalid regex
"#,
    );
    // Should not panic; just emit no violations.
    let v = rule().check(&ctx("anything\n"), &cfg);
    assert!(v.is_empty());
}

// ── file loading ──────────────────────────────────────────────────────

#[test]
fn load_from_toml_file() {
    let patterns = load_from_file(
        "konform_patterns.toml",
        r#"
[[rules]]
id      = "KPT001"
message = "No bare print."
pattern = 'print\('
"#,
    );
    let cfg = with_files("", None, patterns, None);
    let v = rule().check(&ctx("print('x')\n"), &cfg);
    assert_eq!(
        v.len(),
        1,
        "should load patterns from konform_patterns.toml"
    );
}

#[test]
fn load_from_yaml_file_fallback() {
    let patterns = load_from_file(
        "konform_patterns.yaml",
        "rules:\n  - id: KPT001\n    message: No bare print.\n    pattern: 'print\\('\n",
    );
    let cfg = with_files("", None, None, patterns);
    let v = rule().check(&ctx("print('x')\n"), &cfg);
    assert_eq!(
        v.len(),
        1,
        "should load patterns from konform_patterns.yaml"
    );
}

#[test]
fn explicit_rules_file_takes_priority_over_auto_discover() {
    // Auto-discover file (should be ignored)
    let discovered = load_from_file(
        "konform_patterns.toml",
        "[[rules]]\nid = \"KPT099\"\nmessage = \"wrong\"\npattern = 'NEVER_MATCH_THIS'\n",
    );
    // Explicit rules file (should be used)
    let explicit = load_from_file(
        "konform_patterns.toml",
        "[[rules]]\nid = \"KPT001\"\nmessage = \"No bare print.\"\npattern = 'print\\('\n",
    );
    let cfg = with_files("rules_file = \"/proj/my_rules.toml\"\n", explicit, discovered, None);
    let v = rule().check(&ctx("print('x')\n"), &cfg);
    assert_eq!(v.len(), 1);
    assert_eq!(v[0].rule, "KPT001");
}

#[test]
fn inline_rules_take_priority_over_file() {
    let discovered = load_from_file(
        "konform_patterns.toml",
        "[[rules]]\nid = \"KPT099\"\nmessage = \"file rule\"\npattern = 'NEVER'\n",
    );
    let cfg = with_files(
        r#"
[[rules]]
id      = "KPT001"
message = "Inline rule."
pattern = 'print\('
"#,
        None,
        discovered,
        None,
    );
    let v = rule().check(&ctx("print('x')\n"), &cfg);
    assert_eq!(v.len(), 1);
    assert_eq!(v[0].rule, "KPT001", "inline rule should take priority");
}

// ── help field ────────────────────────────────────────────────────────

#[test]
fn help_text_propagated_to_violation() {
    let cfg = cfg_with_rules(
        r#"
[[rules]]
id      = "KPT001"
message = "No bare print."
pattern = 'print\('
help    = "Use logger.info() instead."
"#,
    );
    let v = rule().check(&ctx("print('x')\n"), &cfg);
    assert_eq!(v.len(), 1);
    assert_eq!(v[0].help.as_deref(), Some("Use logger.info() instead."));
}

#[test]
fn no_help_field_yields_none_in_violation() {
    let cfg = cfg_with_rules(
        r#"
[[rules]]
id      = "KPT001"
message = "No bare print."
pattern = 'print\('
"#,
    );
    let v = rule().check(&ctx("print('x')\n"), &cfg);
    assert_eq!(v.len(), 1);
    assert!(v[0].help.is_none());
}

// ── sub_rules ─────────────────────────────────────────────────────────

#[test]
fn sub_rule_overrides_message_on_specific_match() {
    let cfg = cfg_with_rules(
        r#"
[[rules]]
id      = "KPT001"
message = "Generic os.environ hit."
pattern = 'os\.environ'

[[rules.sub_rules]]
pattern = 'baseline_handle'
message = "baseline_handle specific hit."
"#,
    );
    let v = rule().check(&ctx("os.environ.get('baseline_handle')\n"), &cfg);
    assert_eq!(v.len(), 1);
    assert!(
        v[0].message.contains("baseline_handle specific hit."),
        "sub-rule message should win: {:?}",
        v[0].message
    );
}

#[test]
fn sub_rule_overrides_help() {
    let cfg = cfg_with_rules(
        r#"
[[rules]]
id      = "KPT001"
message = "Generic hit."
pattern = 'os\.environ'
help    = "Generic help."

[[rules.sub_rules]]
pattern = 'baseline_handle'
message = "Specific hit."
help    = "Use core_baseline fixture."
"#,
    );
    let v = rule().check(&ctx("os.environ['baseline_handle']\n"), &cfg);
    assert_eq!(v.len(), 1);
    assert_eq!(v[0].help.as_deref(), Some("Use core_baseline fixture."));
}

#[test]
fn sub_rule_no_match_falls_back_to_parent() {
    let cfg = cfg_with_rules(
        r#"
[[rules]]
id      = "KPT001"
message = "Generic os.environ hit."
pattern = 'os\.environ'
help    = "Parent help."

[[rules.sub_rules]]
pattern = 'baseline_handle'
message = "baseline_handle specific hit."
help    = "Sub-rule help."
"#,
    );
    // Line matches parent pattern but not the sub-rule.
    let v = rule().check(&ctx("os.environ.get('OTHER_KEY')\n"), &cfg);
    assert_eq!(v.len(), 1);
    assert!(
        v[0].message.contains("Generic os.environ hit."),
        "parent message should be used: {:?}",
        v[0].message
    );
    assert_eq!(v[0].help.as_deref(), Some("Parent help."));
}

#[test]
fn sub_rule_list_pattern_fires_on_any_match() {
    let cfg = cfg_with_rules(
        r#"
[[rules]]
id      = "KPT001"
message = "Generic hit."
pattern = 'os\.environ'

[[rules.sub_rules]]
pattern = ['baseline_handle', 'some_other_key']
message = "Specific key hit."
"#,
    );
    // First pattern in the list matches.
    let v1 = rule().check(&ctx("os.environ.get('baseline_handle')\n"), &cfg);
    assert!(
        v1[0].message.contains("Specific key hit."),
        "first list pattern should fire"
    );
    // Second pattern in the list matches.
    let v2 = rule().check(&ctx("os.environ['some_other_key']\n"), &cfg);
    assert!(
        v2[0].message.contains("Specific key hit."),
        "second list pattern should fire"
    );
    // Neither matches → parent message.
    let v3 = rule().check(&ctx("os.environ.get('unrelated')\n"), &cfg);
    assert!(
        v3[0].message.contains("Generic hit."),
        "parent message when no list pattern matches"
    );
}

#[test]
fn first_matching_sub_rule_wins() {
    let cfg = cfg_with_rules(
        r#"
[[rules]]
id      = "KPT001"
message = "Generic hit."
pattern = 'os\.environ'

[[rules.sub_rules]]
pattern = 'baseline'
message = "First sub-rule."

[[rules.sub_rules]]
pattern = 'baseline_handle'
message = "Second sub-rule."
"#,
    );
    // 'baseline' matches before 'baseline_handle' is even tested.
    let v = rule().check(&ctx("os.environ.get('baseline_handle')\n"), &cfg);
    assert_eq!(v.len(), 1);
    assert!(
        v[0].message.contains("First sub-rule."),
        "first matching sub-rule should win: {:?}",
        v[0].message
    );
}

#[test]
fn invalid_sub_rule_regex_skipped_gracefully() {
    let cfg = cfg_with_rules(
        r#"
[[rules]]
id      = "KPT001"
message = "Generic hit."
pattern = 'os\.environ'

[[rules.sub_rules]]
pattern = '['
message = "Should be skipped."
"#,
    );
    // Must not panic; sub-rule is dropped, parent message is used.
    let v = rule().check(&ctx("os.environ.get('x')\n"), &cfg);
    assert_eq!(v.len(), 1);
    assert!(v[0].message.contains("Generic hit."));
}

#[test]
fn yaml_sub_rules_loaded_from_file() {
    let patterns = load_from_file(
        "konform_patterns.yaml",
        r#"rules:
  - id: CTFW001
message: "os.environ found."
pattern: 'os\.environ'
help: "Contact maintainers."
sub_rules:
  - pattern:
      - 'baseline_handle'
    message: "baseline_handle access detected."
    help: "Use the core_baseline fixture."
"#,
    );
    let cfg = with_files("", None, None, patterns);

    // Sub-rule message for baseline_handle access.
    let v = rule().check(&ctx("os.environ.get('baseline_handle')\n"), &cfg);
    assert_eq!(v.len(), 1);
    assert!(
        v[0].message.contains("baseline_handle access detected."),
        "YAML sub-rule should fire: {:?}",
        v[0].message
    );
    assert_eq!(v[0].help.as_deref(), Some("Use the core_baseline fixture."));

    // Parent message for an unrelated environ access.
    let v2 = rule().check(&ctx("os.environ.get('OTHER')\n"), &cfg);
    assert_eq!(v2.len(), 1);
    assert!(v2[0].message.contains("os.environ found."));
    assert_eq!(v2[0].help.as_deref(), Some("Contact maintainers."));
}

// ── multiline pattern matching ─────────────────────────────────────────

#[test]
fn multiline_false_does_not_match_across_lines() {
    // \n in a regex only matches when applied to the full source;
    // line-by-line mode splits on \n so the pattern cannot fire.
    let cfg = cfg_with_rules(
        r#"
[[rules]]
id      = "KPT001"
message = "Forbidden sequence."
pattern = 'foo\nbar'
multiline = false
"#,
    );
    let v = rule().check(&ctx("foo\nbar\n"), &cfg);
    assert!(v.is_empty());
}

#[test]
fn multiline_true_matches_across_lines() {
    let cfg = cfg_with_rules(
        r#"
[[rules]]
id      = "KPT001"
message = "Forbidden sequence."
pattern = 'foo\nbar'
multiline = true
"#,
    );
    let v = rule().check(&ctx("foo\nbar\n"), &cfg);
    assert_eq!(v.len(), 1);
    assert_eq!(v[0].rule, "KPT001");
}

#[test]
fn multiline_violation_line_number_is_correct() {
    let cfg = cfg_with_rules(
        r#"
[[rules]]
id      = "KPT001"
message = "Forbidden sequence."
pattern = 'foo\nbar'
multiline = true
"#,
    );
    // Match starts on line 2 (1-based) because "header\n" precedes it.
    let v = rule().check(&ctx("header\nfoo\nbar\n"), &cfg);
    assert_eq!(v.len(), 1);
    assert_eq!(v[0].line, 2);
}

#[test]
fn multiline_violation_noqa_respected() {
    let cfg = cfg_with_rules(
        r#"
[[rules]]
id      = "KPT001"
message = "Forbidden sequence."
pattern = 'foo\nbar'
multiline = true
"#,
    );
    // noqa on the first line of the match suppresses the violation.
    let v = rule().check(&ctx("foo  # noqa: KPT001\nbar\n"), &cfg);
    assert!(v.is_empty());
}

// ── replacement / auto-fix ────────────────────────────────────────────

#[test]
fn replacement_fixes_source() {
    let cfg = cfg_with_rules(
        r#"
[[rules]]
id          = "KPT001"
message     = "Use logger."
pattern     = 'print\((.*?)\)'
replacement = "logger.info($1)"
"#,
    );
    let src = "print('hello')\n";
    let result = rule().fix(&ctx(src), &cfg).unwrap();
    assert!(result.is_some());
    assert!(result.unwrap().contains("logger.info("));
}

#[test]
fn no_replacement_leaves_fixable_false() {
    let cfg = cfg_with_rules(
        r#"
[[rules]]
id      = "KPT001"
message = "No bare print."
pattern = 'print\(.*?\)'
"#,
    );
    let v = rule().check(&ctx("print('hello')\n"), &cfg);
    assert_eq!(v.len(), 1);
    assert!(!v[0].fixable);
}

#[test]
fn fixable_true_when_replacement_present() {
    let cfg = cfg_with_rules(
        r#"
[[rules]]
id          = "KPT001"
message     = "No bare print."
pattern     = 'print\(.*?\)'
replacement = "logger.info()"
"#,
    );
    let v = rule().check(&ctx("print('hello')\n"), &cfg);
    assert_eq!(v.len(), 1);
    assert!(v[0].fixable);
}

#[test]
fn replacement_with_capture_group() {
    let cfg = cfg_with_rules(
        r#"
[[rules]]
id          = "KPT001"
message     = "Use logger."
pattern     = 'print\((.*?)\)'
replacement = "log($1)"
"#,
    );
    let src = "print('hello')\n";
    let result = rule().fix(&ctx(src), &cfg).unwrap().unwrap();
    assert!(result.contains("log('hello')"));
}

#[test]
fn multiline_replacement_rewrites_source() {
    let cfg = cfg_with_rules(
        r#"
[[rules]]
id          = "KPT001"
message     = "Replace sequence."
pattern     = 'foo\nbar'
replacement = "foobar"
multiline   = true
"#,
    );
    let src = "foo\nbar\n";
    let result = rule().fix(&ctx(src), &cfg).unwrap();
    assert!(result.is_some());
    let rewritten = result.unwrap();
    assert!(!rewritten.contains("foo\nbar"));
    assert!(rewritten.contains("foobar"));
}

#[test]
fn replacement_no_match_returns_none() {
    let cfg = cfg_with_rules(
        r#"
[[rules]]
id          = "KPT001"
message     = "Use logger."
pattern     = 'print\(.*?\)'
replacement = "logger.info()"
"#,
    );
    // Source has no match — fix should be a no-op.
    let result = rule().fix(&ctx("x = 1\n"), &cfg).unwrap();
    assert!(result.is_none());
}

// ── exact results ─────────────────────────────────────────────────────────

#[test]
fn replacement_keeps_the_rest_of_the_line() {
    let cfg = cfg_with_rules(
        r#"
[[rules]]
id          = "KPT001"
message     = "Use logger."
pattern     = 'print\((.*?)\)'
replacement = "log($1)"
"#,
    );
    let fixed = rule().fix(&ctx("a = 1\nprint('x'); print('y')  # end\n"), &cfg).unwrap().unwrap();
    assert_eq!(fixed, "a = 1\nlog('x'); log('y')  # end\n");
}

#[test]
fn only_the_match_aimed_at_is_replaced() {
    let cfg = cfg_with_rules(
        r#"
[[rules]]
id          = "KPT001"
message     = "Use logger."
pattern     = 'print\((\w+)\)'
replacement = "log($1)"
"#,
    );
    let mut aimed = ctx("print(a)\nprint(b)\n");
    aimed.fix_target = Some(FixTarget { rule: "KPT001".to_owned(), line: 2, col: 0 });
    assert_eq!(rule().fix(&aimed, &cfg).unwrap().unwrap(), "print(a)\nlog(b)\n");
    aimed.fix_target = Some(FixTarget { rule: "KPT002".to_owned(), line: 2, col: 0 });
    assert!(rule().fix(&aimed, &cfg).unwrap().is_none());
}

#[test]
fn unusable_patterns_are_told_of() {
    let cfg = cfg_with_rules(
        r#"
[[rules]]
id      = "KPT001"
message = "Bad pattern."
pattern = ['[', 'print']
"#,
    );
    let mut notes = Vec::new();
    assert_eq!(load_patterns(&cfg, &mut notes).len(), 1);
    assert_eq!(notes.len(), 1);
    assert!(notes[0].contains("KPT001"), "got: {}", notes[0]);
}

#[test]
fn rule_that_cannot_be_read_is_left_out() {
    let cfg = cfg_with_rules(
        r#"
[[rules]]
id      = "KPT001"
message = "No pattern."

[[rules]]
id      = "KPT002"
message = "No bare print."
pattern = 'print'
"#,
    );
    let v = rule().check(&ctx("print(1)\n"), &cfg);
    assert_eq!(v.len(), 1);
    assert_eq!(v[0].rule, "KPT002");
}

#[test]
fn file_with_a_rule_that_cannot_be_read_gives_none() {
    let document = toml_document("[[rules]]\nid = \"KPT001\"\nmessage = \"No pattern.\"\n");
    assert!(read_pattern_file(&document, false).is_none());
    assert!(read_pattern_file(&toml_document(""), false).unwrap().is_empty());
    assert!(read_pattern_file(&Json::Null, false).is_none());
    assert!(load_from_file("p.toml", "rules = [").is_none());
    assert!(load_from_file("p.yaml", "rules: [").is_none());
    assert!(load_from_file("p.yaml", "rules = []").is_none());
}

#[test]
fn fixable_goes_by_the_discovered_patterns() {
    let with_replacement = load_from_file(
        "konform_patterns.toml",
        "[[rules]]\nid = \"KPT001\"\nmessage = \"m\"\npattern = 'a'\nreplacement = 'b'\n",
    )
    .unwrap();
    assert!(KptRule::with_discovered(None, with_replacement).fixable());
    assert!(!rule().fixable());
}

#[test]
fn rules_file_is_seen_from_the_configuration() {
    assert_eq!(resolve_path("my.toml", &Some("/proj".to_owned())), "/proj/my.toml");
    assert_eq!(resolve_path("/etc/my.toml", &Some("/proj".to_owned())), "/etc/my.toml");
    assert_eq!(resolve_path("my.toml", &None), "my.toml");
    assert!(is_yaml("a/b.yaml") && is_yaml("b.yml") && !is_yaml("b.toml") && !is_yaml("yaml"));
}

#[test]
fn yaml_takes_plain_values_for_texts() {
    let text = "rules:\n  - id: 7\n    message: true\n    pattern: 'None'\n    files:\n    replacement: 0\n    level: ~\n";
    let patterns = load_from_file("p.yaml", text).unwrap();
    assert_eq!(patterns.len(), 1);
    assert_eq!(patterns[0].id, "7");
    assert_eq!(patterns[0].message, "true");
    assert!(patterns[0].files.is_empty());
    assert_eq!(patterns[0].replacement.as_deref(), Some("0"));
    assert!(patterns[0].level.is_none());
    let number = "rules:\n  - id: A\n    message: m\n    pattern: 5\n";
    assert!(load_from_file("p.yaml", number).is_none());
    let toml = "[[rules]]\nid = 7\nmessage = \"m\"\npattern = 'a'\n";
    assert!(load_from_file("p.toml", toml).is_none());
}

#[test]
fn empty_yaml_file_holds_no_pattern() {
    assert!(load_from_file("p.yaml", "").unwrap().is_empty());
    assert!(load_from_file("p.yaml", "rules:\n").unwrap().is_empty());
    assert!(load_from_file("p.yml", "# nothing yet\n").unwrap().is_empty());
    assert!(load_from_file("p.toml", "").unwrap().is_empty());
}

#[test]
fn a_suppressed_line_is_not_fixed() {
    let cfg = cfg_with_rules(
        r#"
[[rules]]
id          = "KPT001"
message     = "Use logger."
pattern     = 'print\('
replacement = "log("
"#,
    );
    let quiet = ctx("print(1)  # noqa: KPT001\n");
    assert!(rule().check(&quiet, &cfg).is_empty());
    assert!(rule().fix(&quiet, &cfg).unwrap().is_none());
    let mixed = ctx("print(1)  # noqa: KPT001\nprint(2)\n");
    assert_eq!(rule().fix(&mixed, &cfg).unwrap().unwrap(), "print(1)  # noqa: KPT001\nlog(2)\n");
    let mut loud = ctx("print(1)  # noqa: KPT001\n");
    loud.ignore_noqa = true;
    assert_eq!(rule().fix(&loud, &cfg).unwrap().unwrap(), "log(1)  # noqa: KPT001\n");
    let mut aimed = ctx("print(1)  # noqa: KPT001\n");
    aimed.fix_target = Some(FixTarget { rule: "KPT001".to_owned(), line: 1, col: 0 });
    assert!(rule().fix(&aimed, &cfg).unwrap().is_none());
}

#[test]
fn a_suppressed_match_over_lines_is_not_fixed() {
    let cfg = cfg_with_rules(
        r#"
[[rules]]
id          = "KPT001"
message     = "m"
pattern     = 'begin(.*?)end'
replacement = "[$1]"
multiline   = true
"#,
    );
    let source = "begin  # noqa: KPT001\nend\nbegin x\nend\nbegin y end";
    assert_eq!(
        rule().fix(&ctx(source), &cfg).unwrap().unwrap(),
        "begin  # noqa: KPT001\nend\n[ x\n]\n[ y ]"
    );
    assert!(rule().fix(&ctx("begin  # noqa\nend\n"), &cfg).unwrap().is_none());
}

#[test]
fn replaced_lines_keep_their_ends() {
    let cfg = cfg_with_rules(
        r#"
[[rules]]
id          = "KPT001"
message     = "m"
pattern     = 'a'
replacement = "b"
"#,
    );
    assert!(rule().fix(&ctx("x = 1"), &cfg).unwrap().is_none());
    assert_eq!(rule().fix(&ctx("a\r\nx\na"), &cfg).unwrap().unwrap(), "b\r\nx\nb");
    assert_eq!(rule().fix(&ctx("a\n\n"), &cfg).unwrap().unwrap(), "b\n\n");
}

#[test]
fn replacements_of_inline_patterns_are_made() {
    let mut config = Config::default();
    let table = cfg_with_rules(
        "[[rules]]\nid = \"KPT001\"\nmessage = \"m\"\npattern = 'print'\nreplacement = 'log'\n",
    );
    config.lint.rules.push(("user-defined-patterns".to_owned(), table));
    let rules = rules_for(ModuleFacts::new(), &config);
    assert!(rules[1].fixable());
    let input = CheckInput::new("src/test.py", "print(1)\n");
    let fixed = run_fix(&input, &rules, &config, &mut Vec::new()).unwrap();
    assert_eq!(fixed.as_deref(), Some("log(1)\n"));

    let mut config = Config::default();
    let table =
        cfg_with_rules("[[rules]]\nid = \"KPT001\"\nmessage = \"m\"\npattern = 'print'\n");
    config.lint.rules.push(("user-defined-patterns".to_owned(), table));
    let rules = rules_for(ModuleFacts::new(), &config);
    assert!(!rules[1].fixable());
    assert_eq!(run_fix(&input, &rules, &config, &mut Vec::new()).unwrap(), None);
}
