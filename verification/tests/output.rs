//! What is printed of the findings.
use konform::formats::{collect_rules, render_github, render_gitlab, render_junit, render_sarif};
use konform::output::{
    format_fix_hint, print_violations, render_for_file, rule_category, OutputFormat, Printed,
};
use konform::report::{
    collect_findings, exit_code_for, sort_files, sort_records, strip_code, FileRecords,
};
use konform::statistics::print_statistics;
use konform::theme::{
    colors_enabled, init_colors, init_log_level, is_quiet, is_silent, is_verbose, log_level,
    palette, ColorWhen, LogLevel, Preferences, Terminal,
};
use konform::types::{ChangedFiles, Level, Record};
use konform::xml::xml_escape;
use seahash::SeaHasher;
use std::hash::{Hash, Hasher};

fn hint(args: &[&str]) -> String {
    format_fix_hint(&args.iter().map(|a| a.to_string()).collect(), false)
}

// ── rule_category ──────────────────────────────────────────────────────

#[test]
fn rule_category_strips_digits() {
    assert_eq!(rule_category("KIS001"), "KIS");
    assert_eq!(rule_category("PT001"), "PT");
    assert_eq!(rule_category("FMIS001"), "FMIS");
}

#[test]
fn rule_category_all_alpha_unchanged() {
    assert_eq!(rule_category("UNKNOWN"), "UNKNOWN");
    assert_eq!(rule_category("KIS"), "KIS");
}

// ── format_fix_hint ────────────────────────────────────────────────────

#[test]
fn fix_hint_replaces_check_subcommand() {
    let hint = hint(&["check", "--all-files", "src/"]);
    assert!(
        hint.contains("konform check --fix --all-files src/"),
        "got: {hint}"
    );
}

#[test]
fn fix_hint_drops_level_flag_and_value() {
    let hint = hint(&[
        "check",
        "--level",
        "error",
        "src/",
    ]);
    assert!(!hint.contains("--level"), "got: {hint}");
    assert!(hint.contains("konform check --fix src/"), "got: {hint}");
}

#[test]
fn fix_hint_drops_level_equals_form() {
    let hint = hint(&["check", "--level=error", "src/"]);
    assert!(!hint.contains("--level"), "got: {hint}");
    assert!(hint.contains("konform check --fix src/"), "got: {hint}");
}

#[test]
fn fix_hint_drops_bool_flags() {
    let hint = hint(&[
        "check",
        "--no-cache",
        "--fix",
        "src/",
    ]);
    assert!(!hint.contains("--no-cache"), "got: {hint}");
    // --fix is already baked into the prefix; the original --fix arg
    // must be stripped so it is not duplicated.
    assert!(!hint.contains("--fix --fix"), "got: {hint}");
    assert!(hint.contains("konform check --fix src/"), "got: {hint}");
}

#[test]
fn fix_hint_preserves_common_flags() {
    let hint = hint(&[
        "check",
        "--select",
        "KIS",
        "--all-files",
        "src/",
    ]);
    assert!(hint.contains("--select KIS"), "got: {hint}");
    assert!(hint.contains("--all-files"), "got: {hint}");
    assert!(hint.contains("src/"), "got: {hint}");
}

#[test]
fn fix_hint_no_subcommand_in_raw_args() {
    let hint = hint(&["src/"]);
    assert!(hint.contains("konform check --fix src/"), "got: {hint}");
}

#[test]
fn fix_hint_is_colored_where_wanted() {
    assert_eq!(hint(&["src/"]), "hint: To auto-fix violations run: konform check --fix src/");
    let colored = format_fix_hint(&vec!["src/".to_owned()], true);
    assert!(colored.contains("\u{1b}["), "got: {colored:?}");
}

// ── formats ────────────────────────────────────────────────────────────

fn record(rule: &str, line: u64, level: &str, fixable: bool, help: Option<&str>) -> Record {
    Record {
        rule: Some(rule.to_owned()),
        line: Some(line),
        message: Some(format!("{rule}: bad <name>")),
        level: Some(level.to_owned()),
        help: help.map(|h| h.to_owned()),
        start_line: Some(line),
        start_character: Some(3),
        end_line: Some(line),
        end_character: Some(9),
        fixable: Some(fixable),
    }
}

fn reported() -> Vec<FileRecords> {
    vec![
        FileRecords {
            path: "src/b.py".to_owned(),
            records: vec![record("KPT001", 1, "warning", false, None)],
        },
        FileRecords {
            path: "src/a.py".to_owned(),
            records: vec![
                record("KIS001", 9, "error", true, Some("use a module (fixable)")),
                record("KIS002", 2, "warning", true, None),
            ],
        },
    ]
}

fn no_changes() -> ChangedFiles {
    ChangedFiles { files: vec![] }
}

fn printed(files: &Vec<FileRecords>, format: OutputFormat) -> Printed {
    print_violations(
        files,
        &no_changes(),
        Level::Error,
        Level::Error,
        format,
        &Preferences::new(),
        false,
    )
}

#[test]
fn full_format_shows_blocks_and_a_summary() {
    let shown = printed(&reported(), OutputFormat::Full);
    assert_eq!(
        shown.stderr,
        "warning[KIS002][*]: bad <name>\n  --> src/a.py:2:3\n\n\
         error[KIS001][*]: bad <name>\n  --> src/a.py:9:3\n  help: use a module\n\n\
         warning[KPT001]: bad <name>\n  --> src/b.py:1:3\n\n\
         Found 1 error and 2 warnings.\n\
         [*] 2 fixable with the `--fix` option.\n"
    );
    assert_eq!(shown.stdout, "");
    assert_eq!(shown.code, 1);
    let clean = printed(&vec![], OutputFormat::Full);
    assert_eq!(clean.stderr, "All checks passed.\n");
    assert_eq!(clean.code, 0);
}

#[test]
fn concise_format_shows_a_line_each() {
    let shown = printed(&reported(), OutputFormat::Concise);
    assert_eq!(
        shown.stderr,
        "src/a.py:2:3: warning[KIS002][*] bad <name>\n\
         src/a.py:9:3: error[KIS001][*] bad <name>\n\
         src/b.py:1:3: warning[KPT001] bad <name>\n"
    );
}

#[test]
fn github_format_gives_commands() {
    let text = render_github(&reported());
    assert_eq!(
        text,
        "::warning file=src/a.py,line=2,col=3,title=KIS002::bad <name>\n\
         ::error file=src/a.py,line=9,col=3,title=KIS001::bad <name>\n\
         ::warning file=src/b.py,line=1,col=3,title=KPT001::bad <name>\n"
    );
    assert_eq!(printed(&reported(), OutputFormat::Github).stdout, text);
}

#[test]
fn json_format_gives_entries() {
    let shown = printed(&reported(), OutputFormat::Json);
    let value: serde_json::Value = serde_json::from_str(&shown.stdout).unwrap();
    let entries = value.as_array().unwrap();
    assert_eq!(entries.len(), 3);
    assert_eq!(entries[0]["filename"], "src/a.py");
    assert_eq!(entries[0]["line"], 2);
    assert_eq!(entries[0]["col"], 3);
    assert_eq!(entries[0]["end_line"], 2);
    assert_eq!(entries[0]["rule"], "KIS002");
    assert_eq!(entries[0]["message"], "bad <name>");
    assert_eq!(entries[0]["level"], "warning");
    assert_eq!(entries[0]["fixable"], true);
    let file: serde_json::Value =
        serde_json::from_str(&render_for_file(&reported(), OutputFormat::Full)).unwrap();
    assert_eq!(file.as_array().unwrap().len(), 3);
    assert!(file[0].get("end_line").is_none());
}

#[test]
fn gitlab_format_tells_findings_apart() {
    let value: serde_json::Value = serde_json::from_str(&render_gitlab(&reported())).unwrap();
    assert_eq!(value[0]["description"], "bad <name>");
    assert_eq!(value[0]["severity"], "minor");
    assert_eq!(value[1]["severity"], "critical");
    assert_eq!(value[0]["location"]["path"], "src/a.py");
    assert_eq!(value[0]["location"]["lines"]["begin"], 2);
    let prints: Vec<&str> =
        (0..3).map(|i| value[i]["fingerprint"].as_str().unwrap()).collect();
    let mut hasher = SeaHasher::new();
    "src/a.py".hash(&mut hasher);
    "KIS002".hash(&mut hasher);
    2u64.hash(&mut hasher);
    assert_eq!(prints[0], format!("{:016x}", hasher.finish()));
    assert!(prints[0] != prints[1] && prints[1] != prints[2] && prints[0] != prints[2]);
}

#[test]
fn sarif_format_names_every_rule_once() {
    let value: serde_json::Value = serde_json::from_str(&render_sarif(&reported())).unwrap();
    assert_eq!(value["version"], "2.1.0");
    let rules = value["runs"][0]["tool"]["driver"]["rules"].as_array().unwrap();
    let ids: Vec<&str> = rules.iter().map(|r| r["id"].as_str().unwrap()).collect();
    assert_eq!(ids, vec!["KIS001", "KIS002", "KPT001"]);
    assert_eq!(rules[0]["shortDescription"]["text"], "konform KIS001");
    let results = value["runs"][0]["results"].as_array().unwrap();
    assert_eq!(results.len(), 3);
    let place = &results[0]["locations"][0]["physicalLocation"];
    assert_eq!(place["artifactLocation"]["uri"], "src/a.py");
    assert_eq!(place["region"]["startLine"], 2);
    assert_eq!(place["region"]["startColumn"], 3);
    assert_eq!(collect_rules(&collect_findings(&reported())), vec!["KIS001", "KIS002", "KPT001"]);
}

#[test]
fn junit_format_escapes_messages() {
    let files = vec![FileRecords {
        path: "src/a.py".to_owned(),
        records: vec![record("KIS001", 9, "error", true, None)],
    }];
    let text = render_junit(&files);
    assert_eq!(
        text,
        "<?xml version=\"1.0\" encoding=\"UTF-8\"?>\n\
         <testsuites>\n\
         <testsuite name=\"konform\" tests=\"1\" failures=\"1\" errors=\"0\">\n\
         \x20   <testcase name=\"src/a.py:9:3\" classname=\"src.a.py\">\n\
         <failure message=\"bad &lt;name&gt;\" type=\"KIS001\"/>\n\
         </testcase>\n\
         </testsuite>\n\
         </testsuites>\n"
    );
    assert_eq!(xml_escape("<a href='x'>\"&\"</a>"), "&lt;a href=&apos;x&apos;&gt;&quot;&amp;&quot;&lt;/a&gt;");
}

#[test]
fn escaping_loses_nothing() {
    assert_eq!(xml_escape("&lt;"), "&amp;lt;");
    assert_ne!(xml_escape("&lt;"), xml_escape("<"));
    assert!(!xml_escape("a<b>'\"&").contains(|c| matches!(c, '<' | '>' | '\'' | '"')));
}

#[test]
fn silence_leaves_the_code_only() {
    let mut silent = Preferences::new();
    init_log_level(&mut silent, LogLevel::Silent);
    let shown = print_violations(
        &reported(),
        &no_changes(),
        Level::Error,
        Level::Error,
        OutputFormat::Json,
        &silent,
        false,
    );
    assert_eq!((shown.stdout.as_str(), shown.stderr.as_str(), shown.code), ("", "", 1));
    let mut quiet = Preferences::new();
    init_log_level(&mut quiet, LogLevel::Quiet);
    let shown = print_violations(
        &vec![],
        &no_changes(),
        Level::Error,
        Level::Error,
        OutputFormat::Full,
        &quiet,
        false,
    );
    assert_eq!(shown.stderr, "");
}

// ── exit codes ─────────────────────────────────────────────────────────

#[test]
fn code_goes_by_the_threshold_of_the_file() {
    let files = vec![FileRecords {
        path: "a.py".to_owned(),
        records: vec![record("KPT001", 1, "warning", false, None)],
    }];
    let changed = ChangedFiles { files: vec!["a.py".to_owned()] };
    assert_eq!(exit_code_for(&files, &no_changes(), Level::Error, Level::Warning), 0);
    assert_eq!(exit_code_for(&files, &no_changes(), Level::Warning, Level::Error), 1);
    assert_eq!(exit_code_for(&files, &changed, Level::Error, Level::Warning), 1);
    assert_eq!(exit_code_for(&files, &changed, Level::Warning, Level::Error), 0);
    assert_eq!(exit_code_for(&vec![], &changed, Level::Warning, Level::Warning), 0);
}

#[test]
fn findings_are_shown_in_order() {
    let files = reported();
    let order: Vec<&str> = sort_files(&files).iter().map(|f| f.path.as_str()).collect();
    assert_eq!(order, vec!["src/a.py", "src/b.py"]);
    let lines: Vec<Option<u64>> = sort_records(&files[1].records).iter().map(|r| r.line).collect();
    assert_eq!(lines, vec![Some(2), Some(9)]);
    assert_eq!(strip_code("KIS001: text", "KIS001"), "text");
    assert_eq!(strip_code("KIS001 text", "KIS001"), "KIS001 text");
}

// ── statistics ─────────────────────────────────────────────────────────

#[test]
fn most_frequent_rule_comes_first() {
    let mut files = reported();
    files[0].records.push(record("KPT001", 4, "warning", false, None));
    let names = vec![("KPT001".to_owned(), "Pattern rules".to_owned())];
    assert_eq!(
        print_statistics(&files, &names),
        "\n   2  KPT001      Pattern rules\n   1  KIS001      \n   1  KIS002      \n"
    );
    assert_eq!(print_statistics(&vec![], &names), "");
}

// ── colors and verbosity ───────────────────────────────────────────────

#[test]
fn colors_go_by_preference_and_terminal() {
    let plain = Terminal { no_color: false, term: None, is_terminal: true };
    let mut p = Preferences::new();
    assert!(colors_enabled(&p, &plain));
    assert!(!colors_enabled(&p, &Terminal { no_color: true, term: None, is_terminal: true }));
    let dumb = Terminal { no_color: false, term: Some("dumb".to_owned()), is_terminal: true };
    assert!(!colors_enabled(&p, &dumb));
    assert!(!colors_enabled(&p, &Terminal { no_color: false, term: None, is_terminal: false }));
    init_colors(&mut p, ColorWhen::Always);
    assert!(colors_enabled(&p, &dumb));
    init_colors(&mut p, ColorWhen::Never);
    assert!(colors_enabled(&p, &dumb), "the first preference stays");
}

#[test]
fn palette_styles_only_where_wanted() {
    let on = palette(true);
    let off = palette(false);
    for (styled, plain) in [
        (on.error("error"), off.error("error")),
        (on.warning("warning"), off.warning("warning")),
        (on.arrow("-->"), off.arrow("-->")),
        (on.help_label("help"), off.help_label("help")),
        (on.hint_label("hint:"), off.hint_label("hint:")),
        (on.hint_cmd("konform"), off.hint_cmd("konform")),
        (on.flag("--fix"), off.flag("--fix")),
        (on.fixable_star(), off.fixable_star()),
        (on.summary_star(), off.summary_star()),
        (on.rule_brackets("[KIS001]", true), off.rule_brackets("[KIS001]", true)),
        (on.rule_brackets("[KIS001]", false), off.rule_brackets("[KIS001]", false)),
    ] {
        assert!(styled.starts_with("\u{1b}["), "got: {styled:?}");
        assert!(styled.contains(plain.as_str()));
        assert!(!plain.contains('\u{1b}'));
    }
}

#[test]
fn styles_have_their_escape_codes() {
    let on = palette(true);
    assert_eq!(on.error("e"), "\u{1b}[1m\u{1b}[91me\u{1b}[39m\u{1b}[0m");
    assert_eq!(on.warning("w"), "\u{1b}[1m\u{1b}[93mw\u{1b}[39m\u{1b}[0m");
    assert_eq!(on.arrow("-->"), "\u{1b}[1m\u{1b}[94m-->\u{1b}[39m\u{1b}[0m");
    assert_eq!(on.help_label("help"), "\u{1b}[1m\u{1b}[96mhelp\u{1b}[39m\u{1b}[0m");
    assert_eq!(on.message("m"), "\u{1b}[1mm\u{1b}[0m");
    assert_eq!(on.hint_label("hint:"), "\u{1b}[33mhint:\u{1b}[39m");
    assert_eq!(on.summary_star(), "\u{1b}[36m*\u{1b}[39m");
}

#[test]
fn verbosity_is_set_once() {
    let mut p = Preferences::new();
    assert_eq!(log_level(&p), LogLevel::Default);
    assert!(!is_verbose(&p) && !is_quiet(&p) && !is_silent(&p));
    init_log_level(&mut p, LogLevel::Silent);
    init_log_level(&mut p, LogLevel::Verbose);
    assert_eq!(log_level(&p), LogLevel::Silent);
    assert!(is_quiet(&p) && is_silent(&p) && !is_verbose(&p));
}
