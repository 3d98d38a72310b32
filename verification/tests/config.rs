//! The configuration: finding it, reading it, and what it selects.
use konform::config::{
    discover_python, find_config_file, resolve_python, Config, DirFacts, LintConfig, RuleTable,
    VenvFacts,
};
use konform::config_read::{
    add_pattern_files, find_pattern_file, load_config, read_table, ConfigFile, PatternFiles,
};
use konform::json::Json;
use konform::kis001::Kis001Table;
use konform::kpt_read::load_from_file;
use konform::parse::read_toml;
use konform::types::Level;

fn toml_document(text: &str) -> Json {
    read_toml(text).unwrap()
}

/// The configuration that a `pyproject.toml` gives.
fn pyproject(text: &str) -> Config {
    load("pyproject.toml", text)
}

fn load(file_name: &str, text: &str) -> Config {
    load_config(Some(ConfigFile {
        file_name: file_name.to_owned(),
        config_dir: Some("/proj".to_owned()),
        content: Some(text.to_owned()),
    }))
}

fn level_in(table: &RuleTable) -> Option<&str> {
    match table {
        RuleTable::ModuleOnlyImports(t) => t.level.as_deref(),
        _ => None,
    }
}

#[test]
fn default_all_rules_enabled() {
    let cfg = Config::default();
    assert!(cfg.is_enabled("KIS001"));
    assert!(cfg.is_enabled("KPT001"));
}

#[test]
fn select_prefix_enables_only_matching() {
    let cfg = Config {
        lint: LintConfig {
            select: vec!["KIS".into()],
            ..LintConfig::default()
        },
        ..Config::default()
    };
    assert!(cfg.is_enabled("KIS001"));
    assert!(!cfg.is_enabled("KPT001"));
}

#[test]
fn ignore_prefix_disables_matching() {
    let cfg = Config {
        lint: LintConfig {
            ignore: vec!["KIS".into()],
            ..LintConfig::default()
        },
        ..Config::default()
    };
    assert!(!cfg.is_enabled("KIS001"));
    assert!(cfg.is_enabled("KPT001"));
}

#[test]
fn exact_ignore_beats_category_select() {
    let cfg = Config {
        lint: LintConfig {
            select: vec!["KIS".into()],
            ignore: vec!["KIS001".into()],
            ..LintConfig::default()
        },
        ..Config::default()
    };
    assert!(!cfg.is_enabled("KIS001"));
    assert!(cfg.is_enabled("KIS002")); // hypothetical second KIS rule
}

#[test]
fn rule_config_returns_empty_for_unknown_rule() {
    let cfg = Config::default();
    assert!(matches!(cfg.rule_config("unknown-rule"), RuleTable::Empty));
}

#[test]
fn rule_config_returns_section_when_present() {
    let mut cfg = Config::default();
    let table = Kis001Table {
        exceptions: None,
        level: Some("warning".to_owned()),
        unresolved_level: None,
    };
    cfg.lint
        .rules
        .push(("module-only-imports".into(), RuleTable::ModuleOnlyImports(table)));
    assert_eq!(level_in(cfg.rule_config("module-only-imports")), Some("warning"));
}

#[test]
fn discover_python_finds_venv() {
    let facts = VenvFacts { dot_venv: true, venv: false, dot_env: false };
    assert_eq!(discover_python("/proj", false, &facts), "/proj/.venv/bin/python3");
    assert_eq!(discover_python("/proj", true, &facts), "/proj/.venv/Scripts/python.exe");
}

#[test]
fn discover_python_falls_back_to_system() {
    let facts = VenvFacts { dot_venv: false, venv: false, dot_env: false };
    assert_eq!(discover_python("/proj", false, &facts), "python3");
    assert_eq!(discover_python("/proj", true, &facts), "python.exe");
}

#[test]
fn per_file_ignores_parsed_from_pyproject() {
    let cfg = pyproject(
        "[tool.konform.lint]\nper-file-ignores = {\"tests/**\" = [\"KIS001\", \"KPT\"]}",
    );
    let (_, codes) = cfg
        .lint
        .per_file_ignores
        .iter()
        .find(|(glob, _)| glob == "tests/**")
        .expect("glob missing");
    assert!(codes.contains(&"KIS001".to_owned()));
    assert!(codes.contains(&"KPT".to_owned()));
}

#[test]
fn per_file_ignores_not_inserted_into_rules_map() {
    let cfg = pyproject("[tool.konform.lint]\nper-file-ignores = {\"tests/**\" = [\"KIS001\"]}");
    assert!(
        !cfg.lint.rules.iter().any(|(name, _)| name == "per-file-ignores"),
        "per-file-ignores must not be in the rules map"
    );
}

#[test]
fn noqa_aliases_parsed_from_pyproject() {
    let cfg = pyproject(
        "[tool.konform.lint]\nnoqa-aliases = {\"IS001\" = \"KIS001\", \"IS\" = \"KIS\"}",
    );
    let get = |code: &str| {
        cfg.lint.noqa_aliases.iter().find(|(from, _)| from == code).map(|(_, to)| to.as_str())
    };
    assert_eq!(get("IS001"), Some("KIS001"));
    assert_eq!(get("IS"), Some("KIS"));
}

#[test]
fn noqa_aliases_not_inserted_into_rules_map() {
    let cfg = pyproject("[tool.konform.lint]\nnoqa-aliases = {\"IS001\" = \"KIS001\"}");
    assert!(
        !cfg.lint.rules.iter().any(|(name, _)| name == "noqa-aliases"),
        "noqa-aliases must not be in the rules map"
    );
}

#[test]
fn rule_config_table_parsed_from_pyproject() {
    let cfg = pyproject("[tool.konform.lint.module-only-imports]\nlevel = \"warning\"\n");
    assert_eq!(level_in(cfg.rule_config("module-only-imports")), Some("warning"));
}

#[test]
fn src_defaults_to_dot_and_src_when_unset() {
    let cfg = pyproject("[tool.konform.lint]\nlevel = \"error\"");
    assert_eq!(cfg.src, vec![".".to_owned(), "src".to_owned()]);
}

#[test]
fn src_read_from_tool_konform() {
    let cfg = pyproject("[tool.konform]\nsrc = [\"lib\"]");
    assert_eq!(cfg.src, vec!["lib".to_owned()]);
}

#[test]
fn src_falls_back_to_tool_ruff_when_konform_src_absent() {
    let cfg = pyproject(
        "[tool.konform.lint]\nlevel = \"error\"\n\n[tool.ruff]\nsrc = [\"lib\", \"test\"]",
    );
    assert_eq!(cfg.src, vec!["lib".to_owned(), "test".to_owned()]);
}

#[test]
fn src_prefers_tool_konform_over_tool_ruff() {
    let cfg = pyproject(
        "[tool.konform]\nsrc = [\"lib\"]\n\n[tool.ruff]\nsrc = [\"should-not-be-used\"]",
    );
    assert_eq!(cfg.src, vec!["lib".to_owned()]);
}

// ── which part of a file counts ───────────────────────────────────────

#[test]
fn settings_are_read_from_either_file() {
    let text = "[konform]\nworkers = 3\ncache-dir = \".c\"\npython = \"py\"\n\n[konform.lint]\nselect = [\"KIS\"]\nlevel = \"warning\"\n";
    let cfg = load("konform.toml", text);
    assert_eq!(cfg.workers, 3);
    assert_eq!(cfg.cache_dir, ".c");
    assert_eq!(cfg.python.as_deref(), Some("py"));
    assert_eq!(cfg.lint.select, vec!["KIS"]);
    assert_eq!(cfg.lint.level, Level::Warning);
    assert_eq!(cfg.config_dir.as_deref(), Some("/proj"));
    let cfg = load("konform.toml", "workers = 4\n");
    assert_eq!(cfg.workers, 4);
    let cfg = load("pyproject.toml", "[konform]\nworkers = 3\n");
    assert_eq!(cfg.workers, 0);
}

#[test]
fn unreadable_section_gives_defaults() {
    for text in [
        "[tool.konform]\nworkers = \"many\"\n[tool.konform.lint]\nselect = [\"KIS\"]\n",
        "[tool.konform]\nworkers = -1\n[tool.konform.lint]\nselect = [\"KIS\"]\n",
        "[tool.konform.lint]\nselect = [\"KIS\"]\nlevel = \"ERROR\"\n",
        "[tool.konform.lint]\nselect = [\"KIS\", 1]\n",
        "[tool.konform.lint]\nselect = [\"KIS\"]\nnoqa-aliases = {\"A\" = 1}\n",
        "[tool.konform.lint]\nselect = [\"KIS\"]\nper-file-ignores = {\"A\" = \"B\"}\n",
        "[tool]\nkonform = 3\n",
    ] {
        let cfg = pyproject(text);
        assert!(cfg.lint.select.is_empty(), "for {text}");
        assert_eq!(cfg.workers, 0);
        assert_eq!(cfg.config_dir.as_deref(), Some("/proj"));
    }
}

#[test]
fn file_that_is_no_toml_gives_defaults() {
    let cfg = pyproject("[tool.konform]\nworkers = 3\nworkers = 4\n");
    assert_eq!(cfg.workers, 0);
    assert_eq!(cfg.config_dir.as_deref(), Some("/proj"));
}

#[test]
fn without_a_file_all_is_default() {
    let cfg = load_config(None);
    assert_eq!(cfg.cache_dir, ".konform_cache");
    assert_eq!(cfg.lint.level, Level::Error);
    assert_eq!(cfg.config_dir, None);
    let cfg = load_config(Some(ConfigFile {
        file_name: "konform.toml".to_owned(),
        config_dir: Some("/proj".to_owned()),
        content: None,
    }));
    assert_eq!(cfg.src, vec![".", "src"]);
    assert_eq!(cfg.config_dir.as_deref(), Some("/proj"));
}

#[test]
fn tables_are_read_by_their_names() {
    let table = toml_document(
        "level = \"error\"\nexceptions = [\"a\", 1]\nunresolved_level = \"off\"\nrules_file = \"p.toml\"\n",
    );
    match read_table("module-only-imports", &table) {
        RuleTable::ModuleOnlyImports(t) => {
            assert_eq!(t.exceptions, Some(vec![Some("a".to_owned()), None]));
            assert_eq!(t.level.as_deref(), Some("error"));
            assert_eq!(t.unresolved_level.as_deref(), Some("off"));
        }
        _ => panic!("wrong table"),
    }
    match read_table("unnecessary-import-alias", &table) {
        RuleTable::UnnecessaryImportAlias(t) => assert_eq!(t.level, Some(Level::Error)),
        _ => panic!("wrong table"),
    }
    match read_table("user-defined-patterns", &table) {
        RuleTable::UserDefinedPatterns(t) => {
            assert_eq!(t.rules_file.as_deref(), Some("p.toml"));
            assert!(t.sources.inline.is_none());
        }
        _ => panic!("wrong table"),
    }
    assert!(matches!(read_table("other", &table), RuleTable::Empty));
}

#[test]
fn nearest_file_up_to_the_repository_is_used() {
    let dir = |path: &str, has_konform: bool, has_pyproject: bool, has_git: bool| DirFacts {
        path: path.to_owned(),
        has_konform,
        has_pyproject,
        has_git,
    };
    let found = find_config_file(&vec![
        dir("/a/b/c", false, false, false),
        dir("/a/b", true, true, false),
        dir("/a", true, true, true),
    ]);
    assert_eq!(found.as_deref(), Some("/a/b/konform.toml"));
    let found = find_config_file(&vec![
        dir("/a/b", false, false, true),
        dir("/a", true, true, false),
    ]);
    assert_eq!(found, None);
    let found = find_config_file(&vec![dir("/a", false, true, true)]);
    assert_eq!(found.as_deref(), Some("/a/pyproject.toml"));
}

#[test]
fn named_interpreter_comes_first() {
    let facts = VenvFacts { dot_venv: false, venv: true, dot_env: true };
    let mut cfg = Config::default();
    assert_eq!(resolve_python(&cfg, false, &facts), "python3");
    cfg.config_dir = Some("/proj".to_owned());
    assert_eq!(resolve_python(&cfg, false, &facts), "/proj/venv/bin/python3");
    cfg.python = Some("/opt/py".to_owned());
    assert_eq!(resolve_python(&cfg, false, &facts), "/opt/py");
}

#[test]
fn patterns_of_files_are_taken_in() {
    let patterns = || {
        load_from_file("p.toml", "[[rules]]\nid = \"K1\"\nmessage = \"m\"\npattern = \"x\"\n")
    };
    let mut cfg = pyproject("[tool.konform.lint.user-defined-patterns]\nlevel = \"error\"\nrules_file = \"p.toml\"\n");
    assert_eq!(find_pattern_file(&cfg).as_deref(), Some("/proj/p.toml"));
    let files = PatternFiles { rules_file: patterns(), toml_file: None, yaml_file: None };
    add_pattern_files(&mut cfg, files);
    match cfg.rule_config("user-defined-patterns") {
        RuleTable::UserDefinedPatterns(t) => {
            assert_eq!(t.level.as_deref(), Some("error"));
            assert_eq!(t.sources.rules_file.as_ref().map(|v| v.len()), Some(1));
        }
        _ => panic!("no table"),
    }
    let mut cfg = Config::default();
    assert_eq!(find_pattern_file(&cfg), None);
    let files = PatternFiles { rules_file: None, toml_file: patterns(), yaml_file: None };
    add_pattern_files(&mut cfg, files);
    match cfg.rule_config("user-defined-patterns") {
        RuleTable::UserDefinedPatterns(t) => {
            assert_eq!(t.sources.toml_file.as_ref().map(|v| v[0].id.clone()).as_deref(), Some("K1"));
        }
        _ => panic!("no table"),
    }
}

#[test]
fn search_roots_of_ruff_count_without_a_section() {
    let config = load_config(Some(ConfigFile {
        file_name: "pyproject.toml".to_owned(),
        config_dir: None,
        content: Some("[tool.ruff]\nsrc = [\"lib\"]\n".to_owned()),
    }));
    assert_eq!(config.src, vec!["lib".to_owned()]);
    let config = load_config(Some(ConfigFile {
        file_name: "pyproject.toml".to_owned(),
        config_dir: None,
        content: Some("[tool.other]\nx = 1\n".to_owned()),
    }));
    assert_eq!(config.src, vec![".".to_owned(), "src".to_owned()]);
}
