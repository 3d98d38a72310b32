//! Rewriting older configurations.
use konform::config::RuleTable;
use konform::config_read::{load_config, ConfigFile};
use konform::migrations::{
    load_migrated, migrate_content, ConfigMigration, LintSectionMigration, Shape,
};
use toml_edit::{DocumentMut, Item, TableLike};

fn parse(toml: &str) -> DocumentMut {
    toml.parse().expect("valid toml")
}

fn keys(table: &dyn TableLike) -> Vec<String> {
    table.iter().map(|(key, _)| key.to_owned()).collect()
}

fn shape_of(table: &dyn TableLike) -> Shape {
    Shape {
        top: keys(table),
        kis: table.get("KIS").and_then(Item::as_table_like).map(keys).unwrap_or_default(),
    }
}

/// The document that a text without a table of its own becomes.
fn migrated(toml: &str) -> DocumentMut {
    let (text, _) = migrate_content("konform.toml", toml).expect("should migrate");
    parse(&text)
}

#[test]
fn detect_false_when_lint_already_present() {
    let doc = parse("[lint]\nselect = []\n");
    assert!(!LintSectionMigration.detect(&shape_of(doc.as_table())));
}

#[test]
fn detect_false_when_nothing_to_migrate() {
    let doc = parse("workers = 4\n");
    assert!(!LintSectionMigration.detect(&shape_of(doc.as_table())));
}

#[test]
fn detect_true_for_flat_keys() {
    let doc = parse("select = [\"KIS\"]\n");
    assert!(LintSectionMigration.detect(&shape_of(doc.as_table())));
}

#[test]
fn detect_true_for_category_tables() {
    let doc = parse("[KIS]\nlevel = \"error\"\n");
    assert!(LintSectionMigration.detect(&shape_of(doc.as_table())));
}

#[test]
fn apply_moves_flat_keys_under_lint_with_kebab_case_renames() {
    let doc = migrated(
        "select = [\"KIS\"]\nignore = [\"KPT001\"]\nlevel = \"error\"\ncache_dir = \".cache\"\nper_file_ignores = {\"tests/**\" = [\"KIS001\"]}\nnoqa_aliases = {\"IS\" = \"KIS\"}\n",
    );
    let table = doc.as_table();

    assert!(!table.contains_key("select"));
    assert!(!table.contains_key("cache_dir"));
    assert_eq!(
        table.get("cache-dir").and_then(|v| v.as_str()),
        Some(".cache")
    );

    let lint = table.get("lint").and_then(|v| v.as_table()).unwrap();
    assert_eq!(
        lint.get("select")
            .and_then(|v| v.as_array())
            .and_then(|a| a.get(0))
            .and_then(|v| v.as_str()),
        Some("KIS")
    );
    assert_eq!(lint.get("level").and_then(|v| v.as_str()), Some("error"));
    assert!(lint.contains_key("per-file-ignores"));
    assert!(lint.contains_key("noqa-aliases"));
}

#[test]
fn apply_moves_kis_category_table_and_renames_unresolved_level() {
    let doc = migrated(
        "[KIS]\nlevel = \"error\"\nunresolved_level = \"warning\"\nexceptions = [\"typing\"]\n",
    );
    let table = doc.as_table();

    assert!(!table.contains_key("KIS"));
    let lint = table.get("lint").and_then(|v| v.as_table()).unwrap();
    let kis = lint
        .get("module-only-imports")
        .and_then(|v| v.as_table())
        .expect("module-only-imports table");
    assert_eq!(kis.get("level").and_then(|v| v.as_str()), Some("error"));
    assert_eq!(
        kis.get("unresolved-level").and_then(|v| v.as_str()),
        Some("warning")
    );
    assert!(!kis.contains_key("unresolved_level"));
    assert_eq!(
        kis.get("exceptions")
            .and_then(|v| v.as_array())
            .and_then(|a| a.get(0))
            .and_then(|v| v.as_str()),
        Some("typing")
    );
}

#[test]
fn apply_moves_kpt_category_table_unchanged() {
    let doc = migrated("[KPT]\nlevel = \"warning\"\nrules_file = \"patterns.toml\"\n");
    let table = doc.as_table();

    assert!(!table.contains_key("KPT"));
    let lint = table.get("lint").and_then(|v| v.as_table()).unwrap();
    let kpt = lint
        .get("user-defined-patterns")
        .and_then(|v| v.as_table())
        .expect("user-defined-patterns table");
    assert_eq!(kpt.get("level").and_then(|v| v.as_str()), Some("warning"));
    assert_eq!(
        kpt.get("rules_file").and_then(|v| v.as_str()),
        Some("patterns.toml")
    );
}

#[test]
fn apply_is_idempotent_via_detect() {
    let old = "select = [\"KIS\"]\n[KIS]\nlevel = \"error\"\n";
    assert!(LintSectionMigration.detect(&shape_of(parse(old).as_table())));
    let doc = migrated(old);
    // Second pass: detect must now report false since `lint` exists.
    assert!(!LintSectionMigration.detect(&shape_of(doc.as_table())));
    assert!(migrate_content("konform.toml", &doc.to_string()).is_none());
}

#[test]
fn migrate_content_returns_none_for_already_current_config() {
    let content =
        "[tool.konform]\ncache-dir = \".konform_cache\"\n\n[tool.konform.lint]\nselect = []\n";
    let result = migrate_content("pyproject.toml", content);
    assert!(result.is_none());
}

#[test]
fn migrate_content_returns_none_for_konform_toml_without_section() {
    let content = "not-a-konform-key = true\n";
    // Bare konform.toml with no matching keys at all: no migration applies.
    let result = migrate_content("konform.toml", content);
    assert!(result.is_none());
}

#[test]
fn migrate_content_reports_applied_migration() {
    let content = "[tool.konform]\nselect = [\"KIS\"]\n";
    let (_new_content, reports) =
        migrate_content("pyproject.toml", content).expect("should migrate");
    assert_eq!(reports.len(), 1);
    assert_eq!(reports[0].id, "lint-section");
    assert!(!reports[0].notes.is_empty());
}

#[test]
fn old_format_pyproject_is_migrated_on_load_and_rewritten_on_disk() {
    let content =
        "[tool.konform]\nselect = [\"KIS\"]\n\n[tool.konform.KIS]\nunresolved_level = \"error\"\n";
    let (cfg, migrated) = load_migrated(ConfigFile {
        file_name: "pyproject.toml".to_owned(),
        config_dir: None,
        content: Some(content.to_owned()),
    });
    let (rewritten, _) = migrated.unwrap();
    assert!(rewritten.contains("[tool.konform.lint]"));
    assert!(rewritten.contains("[tool.konform.lint.module-only-imports]"));
    assert_eq!(cfg.lint.select, vec!["KIS".to_owned()]);
    match cfg.rule_config("module-only-imports") {
        RuleTable::ModuleOnlyImports(t) => {
            assert_eq!(t.unresolved_level.as_deref(), Some("error"))
        }
        _ => panic!("no table"),
    }
}

#[test]
fn text_that_cannot_be_read_is_not_rewritten() {
    assert!(migrate_content("konform.toml", "select = [").is_none());
    assert!(migrate_content("pyproject.toml", "select = []\n").is_none());
    assert!(migrate_content("konform.toml", "konform = 3\n").is_none());
}

#[test]
fn comments_and_other_sections_stay() {
    let content = "# about\n[tool.ruff]\nline-length = 80 # wide\n\n[tool.konform]\nignore = [\"KPT\"]\n";
    let (text, _) = migrate_content("pyproject.toml", content).unwrap();
    assert!(text.starts_with("# about\n[tool.ruff]\nline-length = 80 # wide\n"), "got:\n{text}");
    assert!(text.contains("[tool.konform.lint]\nignore = [\"KPT\"]\n"), "got:\n{text}");
}

#[test]
fn changes_are_told_in_order() {
    let (_, reports) = migrate_content(
        "konform.toml",
        "cache_dir = \"c\"\nselect = []\n[KIS]\nunresolved_level = \"off\"\n",
    )
    .unwrap();
    assert_eq!(
        reports[0].notes,
        vec![
            "renamed `cache_dir` to `cache-dir`",
            "moved `select` to `lint.select`",
            "renamed `KIS.unresolved_level` to `unresolved-level`",
            "moved `[tool.konform.KIS]` to `lint.module-only-imports`",
        ]
    );
}

#[test]
fn other_settings_stay_where_they_are() {
    let doc = migrated("workers = 4\nselect = []\nsrc = [\"lib\"]\n");
    let table = doc.as_table();
    assert!(table.contains_key("workers") && table.contains_key("src"));
}

#[test]
fn settings_in_an_inline_table_are_kept() {
    let content = "[tool]\nkonform = { select = [\"KIS\"], cache_dir = \"c\", KIS = { unresolved_level = \"off\" } }\n";
    let (text, _) = migrate_content("pyproject.toml", content).expect("should migrate");
    let config = load_config(Some(ConfigFile {
        file_name: "pyproject.toml".to_owned(),
        config_dir: None,
        content: Some(text.clone()),
    }));
    assert_eq!(config.lint.select, vec!["KIS".to_owned()], "got: {text}");
    assert_eq!(config.cache_dir, "c");
    match config.rule_config("module-only-imports") {
        RuleTable::ModuleOnlyImports(t) => assert_eq!(t.unresolved_level.as_deref(), Some("off")),
        _ => panic!("no table"),
    }
}

#[test]
fn dotted_settings_are_kept() {
    let content = "konform.select = [\"KPT\"]\nkonform.workers = 2\n";
    let (text, _) = migrate_content("konform.toml", content).expect("should migrate");
    let config = load_config(Some(ConfigFile {
        file_name: "konform.toml".to_owned(),
        config_dir: None,
        content: Some(text.clone()),
    }));
    assert_eq!(config.lint.select, vec!["KPT".to_owned()], "got: {text}");
    assert_eq!(config.workers, 2);
}

#[test]
fn migrated_files_are_current() {
    for (name, content) in [
        ("konform.toml", "cache_dir = \"c\"\n"),
        ("konform.toml", "[konform]\nlevel = \"error\" # strict\n[konform.KPT]\nlevel = \"error\"\n"),
        ("pyproject.toml", "[tool.konform.KIS]\nexceptions = []\n[tool.ruff]\nx = 1\n"),
        ("pyproject.toml", "[[tool.konform.KPT.rules]]\nid = \"A\"\nmessage = \"m\"\npattern = 'p'\n"),
        ("pyproject.toml", "[tool]\nkonform = { ignore = [] }\n"),
    ] {
        let (text, reports) = migrate_content(name, content).expect(content);
        assert_eq!(reports.len(), 1);
        assert!(migrate_content(name, &text).is_none(), "got: {text}");
    }
}

#[test]
fn an_older_file_is_read_as_it_was_meant() {
    let (config, migrated) = load_migrated(ConfigFile {
        file_name: "pyproject.toml".to_owned(),
        config_dir: None,
        content: Some("[tool.konform]\nselect = [\"KPT\"]\nignore = [\"KPT002\"]\n".to_owned()),
    });
    assert!(migrated.is_some());
    assert_eq!(config.lint.select, vec!["KPT".to_owned()]);
    assert_eq!(config.lint.ignore, vec!["KPT002".to_owned()]);
    let (config, migrated) = load_migrated(ConfigFile {
        file_name: "pyproject.toml".to_owned(),
        config_dir: None,
        content: Some("[tool.konform.lint]\nselect = [\"KIS\"]\n".to_owned()),
    });
    assert!(migrated.is_none());
    assert_eq!(config.lint.select, vec!["KIS".to_owned()]);
}
