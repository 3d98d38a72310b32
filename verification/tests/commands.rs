//! The commands: what they are asked, what they decide and what they say.
use konform::cache::{Cache, FileCacheKey};
use konform::cli::{
    default_subcommand_at, inject_default_subcommand, parse_level, CheckArgs, Cli, CommonArgs,
    Done, Phase, RuleArgs,
};
use konform::config::{Config, DirFacts};
use konform::diff::{print_file_diff, print_unified_diff};
use konform::git::{find_repo_root, get_changed_files, git_lines};
use konform::init::{
    find_ruff_file, init_config, init_patterns, patch_ruff_config, ConfigStep, RuffFile,
    RuffFiles, RuffStep, EXTERNAL_LINE, KONFORM_TOML, PATTERNS_TOML, PYPROJECT_APPEND,
};
use konform::kpt_read::load_from_file;
use konform::json::Json;
use konform::parse::to_string_pretty;
use konform::module_facts::ModuleFacts;
use konform::output::OutputFormat;
use konform::overrides::{apply_cli_overrides, configure, parse_per_file_ignores};
use konform::report::FileRecords;
use konform::rule_command::{describe, run_rule};
use konform::rules::all_rules;
use konform::run::{
    is_looked_at, part_findings, plan_run, put_findings, recheck_header, show_files, shows_hint,
    sort_paths, split_cached, take_in, to_records, Target, WatchState,
};
use konform::theme::{ColorWhen, LogLevel};
use konform::types::{ChangedFiles, Level, Record, Violation};
use konform::zed::{
    asset_name, command_for, command_in_settings, is_stale, language_server_binary_path,
    Architecture, Asset, BinarySettings, KonformExtension, Lookup, Os, Release, NO_BINARY,
};
use konform::zuul::{merge_zuul_return, write_zuul_return, ZuulError};

fn texts(v: &[&str]) -> Vec<String> {
    v.iter().map(|t| t.to_string()).collect()
}

fn args(paths: &[&str]) -> CheckArgs {
    CheckArgs {
        common: CommonArgs {
            file_paths: texts(paths),
            select: vec![],
            ignore: vec![],
            extend_select: vec![],
            extend_ignore: vec![],
            exclude: vec![],
            extend_exclude: vec![],
            per_file_ignores: vec![],
            extend_per_file_ignores: vec![],
            config: None,
        },
        stdin_filename: None,
        fix: false,
        diff: false,
        show_files: false,
        output_format: OutputFormat::Full,
        statistics: false,
        fix_only: false,
        exit_non_zero_on_fix: false,
        ignore_noqa: false,
        add_noqa: false,
        output_file: None,
        level: Level::Error,
        changed_files_level: None,
        no_cache: false,
        cache_dir: None,
        exit_zero: false,
        watch: false,
        output_path: String::new(),
    }
}

fn record(rule: &str, line: u64) -> Record {
    Record {
        rule: Some(rule.to_owned()),
        line: Some(line),
        message: Some(format!("{rule}: m")),
        level: Some("error".to_owned()),
        help: None,
        start_line: Some(line),
        start_character: Some(1),
        end_line: Some(line),
        end_character: Some(2),
        fixable: Some(true),
    }
}

// ── the command line ───────────────────────────────────────────────────

#[test]
fn check_is_the_default_command() {
    let inject = |v: &[&str]| {
        let mut args = texts(v);
        inject_default_subcommand(&mut args);
        args
    };
    assert_eq!(inject(&["konform", "src"]), vec!["konform", "check", "src"]);
    assert_eq!(
        inject(&["konform", "--color", "never", "src"]),
        vec!["konform", "--color", "never", "check", "src"]
    );
    assert_eq!(
        inject(&["konform", "--color=never", "--fix"]),
        vec!["konform", "--color=never", "check", "--fix"]
    );
    for kept in [
        vec!["konform"],
        vec!["konform", "check", "src"],
        vec!["konform", "rule", "--list"],
        vec!["konform", "--version"],
        vec!["konform", "-h"],
        vec!["konform", "--color", "never"],
        vec!["konform", "-q", "check", "src/"],
        vec!["konform", "--isolated", "-v", "--color", "never", "rule", "--list"],
        vec!["konform", "--config", "check", "check", "src/"],
    ] {
        assert_eq!(inject(&kept), kept);
    }
    assert_eq!(inject(&["konform", "-q", "src"]), vec!["konform", "check", "-q", "src"]);
    assert_eq!(
        inject(&["konform", "--select", "check", "src"]),
        vec!["konform", "check", "--select", "check", "src"]
    );
    assert_eq!(inject(&["konform", "-"]), vec!["konform", "check", "-"]);
    assert_eq!(inject(&["konform", "--", "check"]), vec!["konform", "check", "--", "check"]);
    let once = inject(&["konform", "src"]);
    assert_eq!(default_subcommand_at(&once), None);
}

#[test]
fn levels_are_read_in_any_case() {
    assert_eq!(parse_level("Warning"), Ok(Level::Warning));
    assert_eq!(parse_level("ERROR"), Ok(Level::Error));
    assert_eq!(parse_level("Loud"), Err("Unknown level: loud".to_owned()));
    for level in [Level::Warning, Level::Error] {
        assert_eq!(parse_level(&level.to_string()), Ok(level));
    }
    assert!(Level::Error.at_least(Level::Warning) && !Level::Warning.at_least(Level::Error));
}

#[test]
fn least_talkative_flag_wins() {
    let cli = |verbose: bool, quiet: bool, silent: bool| Cli {
        command: None,
        color: ColorWhen::Auto,
        verbose,
        quiet,
        silent,
        isolated: false,
    };
    assert_eq!(cli(true, true, true).log_level(), LogLevel::Silent);
    assert_eq!(cli(true, true, false).log_level(), LogLevel::Quiet);
    assert_eq!(cli(true, false, false).log_level(), LogLevel::Verbose);
    assert_eq!(cli(false, false, false).log_level(), LogLevel::Default);
}

#[test]
fn run_goes_through_its_phases() {
    let a = args(&["src"]);
    assert_eq!(a.next_phase(Done::Start), Phase::Check);
    assert_eq!(a.next_phase(Done::Checked), Phase::Report);
    assert_eq!(a.next_phase(Done::Reported(1)), Phase::Exit(1));
    let mut fixing = args(&["src"]);
    fixing.fix = true;
    fixing.exit_zero = true;
    assert_eq!(fixing.next_phase(Done::Start), Phase::Fix);
    assert_eq!(fixing.next_phase(Done::Fixed(true)), Phase::Check);
    assert_eq!(fixing.next_phase(Done::Reported(1)), Phase::Exit(0));
    fixing.exit_non_zero_on_fix = true;
    assert_eq!(fixing.next_phase(Done::Fixed(true)), Phase::Exit(1));
    assert_eq!(fixing.next_phase(Done::Fixed(false)), Phase::Check);
    let mut showing = args(&["src"]);
    showing.show_files = true;
    showing.diff = true;
    assert_eq!(showing.next_phase(Done::Start), Phase::ShowFiles);
    assert_eq!(showing.next_phase(Done::ShowedFiles), Phase::Exit(0));
    let mut diffing = args(&["src"]);
    diffing.diff = true;
    diffing.fix = true;
    assert_eq!(diffing.next_phase(Done::Start), Phase::Diff);
    assert_eq!(diffing.next_phase(Done::Diffed(true)), Phase::Exit(1));
    let mut only = args(&["src"]);
    only.fix_only = true;
    assert_eq!(only.next_phase(Done::Fixed(true)), Phase::Exit(0));
    let mut adding = args(&["src"]);
    adding.add_noqa = true;
    assert_eq!(adding.next_phase(Done::Checked), Phase::AddNoqa);
    assert_eq!(adding.next_phase(Done::AddedNoqa), Phase::Exit(0));
    let mut watching = args(&["src"]);
    watching.watch = true;
    assert_eq!(watching.next_phase(Done::Reported(1)), Phase::Watch);
}

// ── overrides ──────────────────────────────────────────────────────────

#[test]
fn per_file_ignores_are_split_at_the_colon() {
    let parsed = parse_per_file_ignores(&texts(&["tests/**:KIS001", "tests/**:KPT", "nothing"]));
    assert_eq!(parsed, vec![("tests/**".to_owned(), texts(&["KIS001", "KPT"]))]);
}

#[test]
fn command_line_comes_before_the_configuration() {
    let mut config = Config::default();
    config.lint.select = texts(&["KIS"]);
    config.lint.ignore = texts(&["KIS002"]);
    let none = vec![];
    apply_cli_overrides(&mut config, &none, &none, &texts(&["KPT"]), &texts(&["KPT9"]), &none, &none);
    assert_eq!(config.lint.select, vec!["KIS", "KPT"]);
    assert_eq!(config.lint.ignore, vec!["KIS002", "KPT9"]);
    apply_cli_overrides(&mut config, &texts(&["KPT"]), &texts(&["KIS"]), &none, &none, &none, &none);
    assert_eq!(config.lint.select, vec!["KPT"]);
    assert_eq!(config.lint.ignore, vec!["KIS002", "KPT9", "KIS"]);
    let mut a = args(&["src"]);
    a.ignore_noqa = true;
    a.common.per_file_ignores = texts(&["tests/**:KIS"]);
    configure(&mut config, &a);
    assert!(config.ignore_noqa);
    assert_eq!(config.lint.per_file_ignores, vec![("tests/**".to_owned(), texts(&["KIS"]))]);
}

// ── files ──────────────────────────────────────────────────────────────

#[test]
fn standard_input_is_told_apart() {
    let mut a = args(&["-", "src", "lib"]);
    a.common.exclude = texts(&["a"]);
    a.common.extend_exclude = texts(&["b"]);
    let plan = plan_run(&a);
    assert!(plan.wants_stdin);
    assert_eq!(plan.stdin_display, "<stdin>");
    assert_eq!(plan.anchor.as_deref(), Some("src"));
    assert_eq!(plan.walk, vec!["src", "lib"]);
    assert_eq!(plan.exclude, vec!["a", "b"]);
    a.stdin_filename = Some("x.py".to_owned());
    assert_eq!(plan_run(&a).stdin_display, "x.py");
    let shown = show_files(&plan, &texts(&["src/b.py", "src/a.py"]));
    assert_eq!(shown, "<stdin>\nsrc/a.py\nsrc/b.py\n");
}

#[test]
fn python_files_are_looked_at_unless_excluded() {
    let none = vec![];
    assert!(is_looked_at("src/a.py", &none));
    assert!(!is_looked_at("src/a.pyi", &none));
    assert!(!is_looked_at("src/py", &none));
    assert!(!is_looked_at("src/a.py", &texts(&["a.py"])));
    assert!(!is_looked_at("build/x/a.py", &texts(&["build/**"])));
    assert!(is_looked_at("src/a.py", &texts(&["[", "b.py"])));
}

#[test]
fn paths_are_sorted_part_by_part() {
    assert_eq!(
        sort_paths(&texts(&["a-b/x.py", "a/x.py", "a/b/x.py", "a.py"])),
        vec!["a/b/x.py", "a/x.py", "a-b/x.py", "a.py"]
    );
}

// ── findings ───────────────────────────────────────────────────────────

#[test]
fn findings_of_a_file_replace_those_before() {
    let mut found = vec![];
    put_findings(&mut found, "a.py", vec![record("KIS001", 1)]);
    put_findings(&mut found, "b.py", vec![]);
    put_findings(&mut found, "a.py", vec![record("KIS001", 1), record("KIS002", 2)]);
    assert_eq!(found.len(), 1);
    assert_eq!(found[0].records.len(), 2);
}

#[test]
fn known_files_are_not_checked_again() {
    let none = vec![];
    let mut cache = Cache::open("/p".to_owned(), "/c", false, "error", &none, &none, None);
    let key = FileCacheKey { mtime_secs: 5, mtime_nanos: 0, permissions: 0 };
    let target = |path: &str| Target {
        path: path.to_owned(),
        key: Some(FileCacheKey { mtime_secs: 5, mtime_nanos: 0, permissions: 0 }),
    };
    let mut found = vec![];
    take_in(&mut cache, &mut found, &target("a.py"), vec![record("KIS001", 1)]);
    take_in(&mut cache, &mut found, &Target { path: "c.py".to_owned(), key: None }, vec![]);
    assert_eq!(found.len(), 1);
    let bytes = cache.persist(1).unwrap();
    let cache = Cache::open("/p".to_owned(), "/c", false, "error", &none, &none, bytes);
    assert!(cache.get("a.py", &key).is_some());
    let mut known = vec![];
    let open = split_cached(
        &cache,
        &vec![target("a.py"), target("b.py"), Target { path: "c.py".to_owned(), key: None }],
        &mut known,
    );
    assert_eq!(open, vec![1, 2]);
    assert_eq!(known.len(), 1);
    assert_eq!(known[0].path, "a.py");
}

#[test]
fn without_a_cache_every_file_is_checked() {
    let none = vec![];
    let mut cache = Cache::open("/p".to_owned(), "/c", true, "error", &none, &none, None);
    let target = || Target {
        path: "a.py".to_owned(),
        key: Some(FileCacheKey { mtime_secs: 5, mtime_nanos: 0, permissions: 0 }),
    };
    take_in(&mut cache, &mut vec![], &target(), vec![record("KIS001", 1)]);
    assert_eq!(split_cached(&cache, &vec![target()], &mut vec![]), vec![0]);
}

#[test]
fn findings_are_parted_by_what_changed() {
    let found = vec![
        FileRecords { path: "a.py".to_owned(), records: vec![record("KIS001", 1)] },
        FileRecords { path: "b.py".to_owned(), records: vec![record("KIS001", 7)] },
    ];
    let changed = ChangedFiles { files: texts(&["a.py"]) };
    let (comments, warnings) = part_findings(&found, &changed);
    assert_eq!(comments.len(), 1);
    assert_eq!(comments[0].path, "a.py");
    assert_eq!(warnings, vec!["b.py:7: KIS001: m"]);
    assert!(shows_hint(&found, false, false));
    assert!(!shows_hint(&found, true, false));
    assert!(!shows_hint(&found, false, true));
    assert!(!shows_hint(&vec![], false, false));
}

#[test]
fn violations_count_columns_from_one() {
    let v = Violation {
        rule: "KIS001".to_owned(),
        line: 3,
        col: 4,
        end_line: 3,
        end_col: 10,
        message: "m".to_owned(),
        help: None,
        level: Level::Warning,
        fixable: true,
    };
    let records = to_records(&vec![v]).unwrap();
    assert_eq!(records[0].start_character, Some(5));
    assert_eq!(records[0].end_line, Some(3));
    let back = Violation::from_json(&records[0]).unwrap();
    assert_eq!((back.line, back.col, back.end_col), (3, 4, 10));
    assert_eq!(back.level, Level::Warning);
}

#[test]
fn changed_files_are_checked_once() {
    let mut watch = WatchState::new();
    watch.note("a.py", true, &vec![]);
    watch.note("a.py", true, &vec![]);
    watch.note("a.txt", true, &vec![]);
    watch.note("gone.py", false, &vec![]);
    watch.note("b.py", true, &texts(&["b.py"]));
    assert_eq!(watch.flush(), vec!["a.py"]);
    assert!(watch.flush().is_empty());
    assert!(recheck_header(1).starts_with("\n─── 1 file changed, rechecking ─"));
    assert!(recheck_header(2).starts_with("\n─── 2 files changed, rechecking ─"));
}

// ── git ────────────────────────────────────────────────────────────────

#[test]
fn pending_changes_hide_the_last_commit() {
    assert_eq!(git_lines("a.py\n\nb.py\n"), vec!["a.py", "b.py"]);
    let changed = get_changed_files("b.py\na.py\n", "a.py\nc.py\n", "z.py\n");
    assert_eq!(changed.files, vec!["a.py", "b.py", "c.py"]);
    assert!(changed.contains("c.py") && !changed.contains("z.py"));
    assert_eq!(get_changed_files("", "\n", "z.py\n").files, vec!["z.py"]);
}

#[test]
fn nearest_repository_is_found() {
    let dir = |path: &str, has_git: bool| DirFacts {
        path: path.to_owned(),
        has_konform: false,
        has_pyproject: false,
        has_git,
    };
    let found = find_repo_root(&vec![dir("/a/b/c", false), dir("/a/b", true), dir("/a", true)]);
    assert_eq!(found.as_deref(), Some("/a/b"));
    assert_eq!(find_repo_root(&vec![dir("/a", false)]), None);
}

// ── diffs ──────────────────────────────────────────────────────────────

#[test]
fn diffs_name_the_file() {
    let text = print_unified_diff("a.py", "x\ny\n", "x\nz\n");
    assert!(text.contains("--- a.py\n+++ a.py\n"), "got:\n{text}");
    assert!(text.contains("-y\n+z\n"), "got:\n{text}");
    assert_eq!(print_unified_diff("a.py", "x\n", "x\n"), "");
    let text = print_file_diff("new.toml", "", "x\n");
    assert!(text.contains("--- /dev/null\n+++ new.toml\n"), "got:\n{text}");
}

// ── rule ───────────────────────────────────────────────────────────────

#[test]
fn rules_are_listed_and_explained() {
    let rules = describe(&all_rules(ModuleFacts::new(), None, vec![]));
    let list = run_rule(&RuleArgs { list: true, explain: None }, &rules);
    assert_eq!(list.code, 0);
    assert!(list.stdout.starts_with("KIS001    KIS         Google-style imports  — "));
    assert!(list.stdout.contains("\nKPT001    KPT         Pattern rules  — "));
    for name in ["module-only-imports", "user-defined-patterns"] {
        assert!(list.stdout.contains(&format!("  [{name}]\n")), "got: {}", list.stdout);
    }
    let told = run_rule(&RuleArgs { list: false, explain: Some("KIS001".to_owned()) }, &rules);
    assert!(told.stdout.starts_with("KIS001 — Google-style imports"));
    let unknown = run_rule(&RuleArgs { list: false, explain: Some("ZZ1".to_owned()) }, &rules);
    assert_eq!(unknown.code, 2);
    assert_eq!(
        unknown.stderr,
        "Unknown rule: ZZ1\nRun `konform rule --list` to see all available rules.\n"
    );
    assert_eq!(run_rule(&RuleArgs { list: false, explain: None }, &rules).code, 1);
}

// ── init ───────────────────────────────────────────────────────────────

#[test]
fn configuration_is_added_where_there_is_none() {
    match init_config(false, Some("[project]\n"), false) {
        ConfigStep::Append(text) => {
            assert!(text.starts_with("[project]\n"));
            assert!(text.ends_with(PYPROJECT_APPEND));
            assert!(matches!(init_config(false, Some(&text), false), ConfigStep::TableExists));
        }
        _ => panic!("expected a table"),
    }
    assert!(matches!(init_config(true, None, false), ConfigStep::KonformExists));
    match init_config(false, None, false) {
        ConfigStep::Create(text) => assert_eq!(text, KONFORM_TOML),
        _ => panic!("expected a file"),
    }
    assert!(matches!(init_config(true, Some(""), true), ConfigStep::Create(_)));
    assert_eq!(init_patterns(false).as_deref(), Some(PATTERNS_TOML));
    assert!(load_from_file("konform_patterns.toml", PATTERNS_TOML).unwrap().is_empty());
    let mut examples = String::new();
    for line in PATTERNS_TOML.lines() {
        let bare = line.strip_prefix("# ").unwrap_or(line);
        if bare.starts_with("[[") || bare.contains(" = ") {
            examples.push_str(bare);
            examples.push('\n');
        }
    }
    let patterns = load_from_file("konform_patterns.toml", &examples).unwrap();
    assert_eq!(patterns.len(), 3);
    assert_eq!(patterns[0].pattern, vec![r"^\s*print\s*\(".to_owned()]);
    assert_eq!(init_patterns(true), None);
}

#[test]
fn ruff_is_told_of_the_codes() {
    let files = RuffFiles {
        pyproject: Some("[tool.ruff]\n".to_owned()),
        ruff: Some(String::new()),
        dot_ruff: None,
    };
    let file = find_ruff_file(&files).unwrap();
    assert_eq!(file, RuffFile::Pyproject);
    let section = file.lint_section();
    match patch_ruff_config("pyproject.toml", "[tool.ruff]\n", &section) {
        RuffStep::Append(text) => {
            assert!(text.ends_with(&format!("{section}\n{EXTERNAL_LINE}\n")));
            assert!(matches!(
                patch_ruff_config("pyproject.toml", &text, &section),
                RuffStep::Nothing
            ));
        }
        _ => panic!("expected a table"),
    }
    match patch_ruff_config("pyproject.toml", &section, &section) {
        RuffStep::Tell(note) => assert!(note.contains(EXTERNAL_LINE)),
        _ => panic!("expected a note"),
    }
    assert!(find_ruff_file(&RuffFiles { pyproject: None, ruff: None, dot_ruff: None }).is_none());
}

// ── Zuul ───────────────────────────────────────────────────────────────

#[test]
fn comments_are_merged_into_what_is_there() {
    let mut with_help = record("KIS001", 4);
    with_help.help = Some("do it".to_owned());
    let comments = vec![FileRecords { path: "a.py".to_owned(), records: vec![with_help] }];
    let existing = Json::Object(vec![(
        "data".to_owned(),
        Json::Object(vec![("other".to_owned(), Json::Bool(true))]),
    )]);
    let merged = merge_zuul_return(existing, &comments, &texts(&["w"])).unwrap();
    let value: serde_json::Value = serde_json::from_str(&to_string_pretty(&merged)).unwrap();
    assert_eq!(value["data"]["other"], true);
    assert_eq!(value["data"]["zuul"]["warnings"][0], "w");
    let comment = &value["data"]["zuul"]["file_comments"]["a.py"][0];
    assert_eq!(comment["message"], "KIS001: m do it");
    assert_eq!(comment["line"], 4);
    assert!(comment.get("help").is_none());
    assert!(to_string_pretty(&merged).contains("\n  \"data\": {"));
}

#[test]
fn merging_twice_changes_nothing_more() {
    let comments = vec![FileRecords { path: "a.py".to_owned(), records: vec![record("KIS001", 4)] }];
    let once = merge_zuul_return(Json::Null, &comments, &texts(&["w"])).unwrap();
    let text = to_string_pretty(&once);
    let twice = merge_zuul_return(once, &comments, &texts(&["w"])).unwrap();
    assert_eq!(to_string_pretty(&twice), text);
}

#[test]
fn findings_are_written_as_yaml() {
    let comments = vec![FileRecords { path: "a.py".to_owned(), records: vec![record("KIS001", 4)] }];
    let existing = Some("data:\n  other: 1\nkeep: yes\n".to_owned());
    let text = write_zuul_return(&existing, &comments, &vec![]).unwrap();
    let value: serde_json::Value = serde_yaml::from_str(&text).unwrap();
    assert_eq!(value["data"]["other"], 1);
    assert_eq!(value["keep"], "yes");
    assert_eq!(value["data"]["zuul"]["file_comments"]["a.py"][0]["line"], 4);
    assert!(text.starts_with("data:\n"), "got:\n{text}");
    let fresh = write_zuul_return(&None, &comments, &vec![]).unwrap();
    let broken = write_zuul_return(&Some("a: [".to_owned()), &comments, &vec![]).unwrap();
    assert_eq!(fresh, broken);
    assert!(write_zuul_return(&Some("data: 1\n".to_owned()), &comments, &vec![]).is_err());
}

#[test]
fn documents_of_another_shape_are_refused() {
    let data = Json::Object(vec![("data".to_owned(), Json::Bool(true))]);
    let refused = merge_zuul_return(data, &vec![], &vec![]);
    assert!(matches!(refused, Err(ZuulError::DataIsNoObject)));
    let zuul = Json::Object(vec![(
        "data".to_owned(),
        Json::Object(vec![("zuul".to_owned(), Json::Null)]),
    )]);
    let refused = merge_zuul_return(zuul, &vec![], &vec![]);
    assert!(matches!(refused, Err(ZuulError::ZuulIsNoObject)));
    assert_eq!(ZuulError::ZuulIsNoObject.message(), "zuul is not an object");
    assert!(merge_zuul_return(Json::Null, &vec![], &vec![]).is_ok());
}

// ── the Zed extension ──────────────────────────────────────────────────

#[test]
fn release_gives_the_binary_of_the_platform() {
    let name = asset_name(Os::Linux, Architecture::X8664).unwrap();
    let release = Release {
        version: "v1".to_owned(),
        assets: vec![Asset { name: name.clone(), url: "https://x/y".to_owned() }],
    };
    let found = language_server_binary_path(Os::Linux, Architecture::X8664, &release).unwrap();
    assert_eq!(found.url, "https://x/y");
    assert_eq!(found.version_dir, "konform-v1");
    assert_eq!(found.binary_path, "konform-v1/konform");
    let missing = language_server_binary_path(Os::Mac, Architecture::X8664, &release);
    assert_eq!(
        missing.err().unwrap(),
        "no asset named konform-x86_64-apple-darwin found in konform release v1"
    );
    let none = language_server_binary_path(Os::Linux, Architecture::X86, &release);
    assert_eq!(none.err().unwrap(), NO_BINARY);
    assert!(is_stale("konform-v0", "konform-v1"));
    assert!(!is_stale("konform-v1", "konform-v1") && !is_stale("other", "konform-v1"));
}

#[test]
fn binary_on_the_path_comes_first() {
    let mut zed = KonformExtension::new();
    assert!(matches!(zed.look(None, true), Lookup::AskRelease));
    zed.remember("konform-v1/konform");
    assert!(matches!(zed.look(None, false), Lookup::AskRelease));
    match zed.look(None, true) {
        Lookup::Found(path) => assert_eq!(path, "konform-v1/konform"),
        Lookup::AskRelease => panic!("expected the cached binary"),
    }
    match zed.look(Some("/usr/bin/konform".to_owned()), true) {
        Lookup::Found(path) => assert_eq!(path, "/usr/bin/konform"),
        Lookup::AskRelease => panic!("expected the binary on the path"),
    }
    assert_eq!(command_for("k".to_owned()).args, vec!["server"]);
    let settings = BinarySettings { path: Some("p".to_owned()), arguments: Some(texts(&["x"])) };
    let command = command_in_settings(Some(settings)).unwrap();
    assert_eq!((command.command.as_str(), command.args), ("p", texts(&["x"])));
    assert!(command_in_settings(None).is_none());
}
