//! The language server: positions, diagnostics, sessions and what is offered.
use konform::config::Config;
use konform::config_read::{load_config, ConfigFile};
use konform::engine::{run_check, CheckInput};
use konform::json::Json;
use konform::lsp_actions::{
    classify_notification, classify_request, handle_code_action, handle_formatting,
    is_kind_wanted, method_not_found, rule_name, to_diagnostics, violation_to_diagnostic,
    ActionKind, ActionRequest, CodeAction, Diagnostic, NotificationKind, Pending, RequestKind,
};
use konform::lsp_diff::{line_diff_edits, split_full_lines};
use konform::lsp_position::{
    byte_offset_to_lsp_pos, full_document_edit, lsp_pos_to_byte_offset, Position, Range, TextEdit,
};
use konform::lsp_session::{
    read_editor_settings, settings_in_answer, Change, EditorSettings, Session,
};
use konform::migrations::migrate_content;
use konform::module_facts::{ModuleCheck, ModuleFacts};
use konform::rules::{all_rules, BuiltinRule};
use konform::types::{Level, Violation};

// ── lsp_pos_to_byte_offset / byte_offset_to_lsp_pos round-trips ────────

#[test]
fn ascii_round_trip() {
    let src = "import os\nfrom os.path import join\n";
    let pos = Position {
        line: 1,
        character: 5,
    };
    let offset = lsp_pos_to_byte_offset(src, pos);
    assert_eq!(offset, "import os\nfrom ".len());
    assert_eq!(byte_offset_to_lsp_pos(src, offset), pos);
}

#[test]
fn position_at_start_of_document() {
    let src = "abc\ndef\n";
    let start = Position {
        line: 0,
        character: 0,
    };
    assert_eq!(lsp_pos_to_byte_offset(src, start), 0);
    assert_eq!(byte_offset_to_lsp_pos(src, 0), start);
}

#[test]
fn position_at_end_of_document() {
    let src = "abc\ndef";
    let end = byte_offset_to_lsp_pos(src, src.len());
    assert_eq!(
        end,
        Position {
            line: 1,
            character: 3
        }
    );
    assert_eq!(lsp_pos_to_byte_offset(src, end), src.len());
}

#[test]
fn out_of_range_position_clamps_to_end() {
    let src = "abc\n";
    let past_end = Position {
        line: 50,
        character: 0,
    };
    assert_eq!(lsp_pos_to_byte_offset(src, past_end), src.len());
}

#[test]
fn out_of_range_offset_clamps_to_end() {
    let src = "abc\n";
    let pos = byte_offset_to_lsp_pos(src, src.len() + 100);
    assert_eq!(byte_offset_to_lsp_pos(src, src.len()), pos);
}

#[test]
fn multi_byte_utf16_surrogate_pairs_are_counted_correctly() {
    // "a" (1 UTF-16 unit) + "\u{1F600}" 😀 (2 UTF-16 units, 4 UTF-8 bytes) + "b".
    let src = "a\u{1F600}b\n";
    // "b" starts after 1 + 2 = 3 UTF-16 units.
    let pos = Position {
        line: 0,
        character: 3,
    };
    let offset = lsp_pos_to_byte_offset(src, pos);
    assert_eq!(&src[offset..offset + 1], "b");
    assert_eq!(byte_offset_to_lsp_pos(src, offset), pos);
}

#[test]
fn multi_line_offsets_account_for_newlines() {
    let src = "one\ntwo\nthree\n";
    let offset = src.find("three").unwrap();
    assert_eq!(
        byte_offset_to_lsp_pos(src, offset),
        Position {
            line: 2,
            character: 0
        }
    );
}

// ── violation_to_diagnostic ─────────────────────────────────────────────

/// A text with a third line that is long enough for the sample.
const SAMPLE: &str = "\n\n    from os.path import join\n";

fn sample_violation(level: Level, fixable: bool, help: Option<&str>) -> Violation {
    Violation {
        rule: "KIS001".to_owned(),
        line: 3,
        col: 4,
        end_line: 3,
        end_col: 10,
        message: "Import 'join' from 'os.path' is not a module.".to_owned(),
        help: help.map(str::to_owned),
        level,
        fixable,
    }
}

#[test]
fn violation_line_numbers_convert_from_1_based_to_0_based() {
    let v = sample_violation(Level::Error, true, None);
    let diag = violation_to_diagnostic(&v, SAMPLE);
    assert_eq!(diag.range.start.line, 2);
    assert_eq!(diag.range.end.line, 2);
    assert_eq!(diag.range.start.character, 4);
    assert_eq!(diag.range.end.character, 10);
}

#[test]
fn violation_severity_maps_to_lsp_severity() {
    let error = violation_to_diagnostic(&sample_violation(Level::Error, false, None), SAMPLE);
    let warning = violation_to_diagnostic(&sample_violation(Level::Warning, false, None), SAMPLE);
    assert_eq!(error.severity, Level::Error);
    assert_eq!(warning.severity, Level::Warning);
}

#[test]
fn violation_message_appends_help_when_present() {
    let v = sample_violation(Level::Error, true, Some("see the style guide"));
    let diag = violation_to_diagnostic(&v, SAMPLE);
    assert!(diag.message.contains("is not a module"));
    assert!(diag.message.contains("see the style guide"));
}

#[test]
fn violation_message_omits_help_when_absent() {
    let v = sample_violation(Level::Error, true, None);
    let diag = violation_to_diagnostic(&v, SAMPLE);
    assert_eq!(diag.message, v.message);
}

#[test]
fn fixable_violation_embeds_fix_data() {
    let v = sample_violation(Level::Error, true, Some("help text"));
    let diag = violation_to_diagnostic(&v, SAMPLE);
    let data = diag.data.expect("fixable violation should carry data");
    assert_eq!(data.code, "KIS001");
    assert_eq!(data.help, "help text");
}

#[test]
fn unfixable_violation_has_no_data() {
    let v = sample_violation(Level::Warning, false, None);
    let diag = violation_to_diagnostic(&v, SAMPLE);
    assert!(diag.data.is_none());
}

// ── full_document_edit ──────────────────────────────────────────────────

#[test]
fn full_document_edit_spans_the_whole_document() {
    let old = "from os.path import join\n";
    let new = "import os.path\n";
    let edit = full_document_edit(old, new);
    assert_eq!(
        edit.range.start,
        Position {
            line: 0,
            character: 0
        }
    );
    assert_eq!(edit.range.end, byte_offset_to_lsp_pos(old, old.len()));
    assert_eq!(edit.new_text, new);
}

// ── sessions ────────────────────────────────────────────────────────────

const URI: &str = "file:///proj/mod.py";

/// Source with a single fixable KIS001 violation.
const KIS001_SOURCE: &str = "from os.path import join\n";

fn rules() -> Vec<BuiltinRule> {
    let mut facts = ModuleFacts::new();
    facts.record("os.path", "join", ModuleCheck::NotModule);
    facts.record("os.path", "dirname", ModuleCheck::NotModule);
    facts.record("os", "path", ModuleCheck::NotModule);
    all_rules(facts, None, vec![])
}

fn session() -> Session {
    Session::new(Config::default(), "/proj".to_owned())
}

/// Checks an open document and remembers what was found.
fn diagnose(session: &mut Session) -> Vec<Diagnostic> {
    let source = session.source(URI).unwrap_or("").to_owned();
    let violations = run_check(&CheckInput::new("/proj/mod.py", &source), &rules(), &session.config);
    let shown = to_diagnostics(&violations, &source);
    session.set_diagnostics(URI, violations);
    shown
}

fn whole(text: &str) -> Vec<Change> {
    vec![Change { range: None, text: text.to_owned() }]
}

fn at(line: u32, character: u32) -> Position {
    Position { line, character }
}

#[test]
fn did_open_publishes_kis001_violation() {
    let mut s = session();
    s.open(URI, 1, KIS001_SOURCE.to_owned());
    let diags = diagnose(&mut s);
    assert_eq!(diags.len(), 1);
    assert_eq!(diags[0].code, "KIS001");
    assert_eq!(diags[0].severity, Level::Error);
}

#[test]
fn did_change_updates_diagnostics() {
    let mut s = session();
    s.open(URI, 1, "import os.path\n".to_owned()); // clean
    assert!(diagnose(&mut s).is_empty());
    s.update(URI, 2, &whole(KIS001_SOURCE)); // introduce a violation
    assert_eq!(diagnose(&mut s).len(), 1);
}

#[test]
fn did_close_clears_diagnostics() {
    let mut s = session();
    s.open(URI, 1, KIS001_SOURCE.to_owned());
    assert_eq!(diagnose(&mut s).len(), 1);
    s.close(URI);
    assert!(s.source(URI).is_none());
    assert!(s.diagnostics(URI).is_empty());
    assert!(diagnose(&mut s).is_empty(), "didClose should clear diagnostics");
}

#[test]
fn pull_diagnostic_matches_push_diagnostic() {
    let mut s = session();
    s.open(URI, 1, KIS001_SOURCE.to_owned());
    let pushed = diagnose(&mut s);
    let pulled = to_diagnostics(&s.diagnostics(URI), KIS001_SOURCE);
    assert_eq!(pulled.len(), pushed.len());
    assert_eq!(pulled[0].code, pushed[0].code);
}

fn actions(source: &str, range: Range, only: &Option<Vec<String>>) -> Vec<CodeAction> {
    let config = Config::default();
    let found = run_check(&CheckInput::new("/proj/mod.py", source), &rules(), &config);
    let request = ActionRequest { path: "/proj/mod.py", source, range, only };
    handle_code_action(&request, &found, &rules(), &config)
}

#[test]
fn code_action_offers_quickfix_and_fix_all() {
    let offered = actions(KIS001_SOURCE, Range { start: at(0, 0), end: at(0, 0) }, &None);
    assert!(!offered.is_empty(), "expected at least one code action");
    assert!(
        offered.iter().any(|a| a.kind.name() == "source.fixAll.konform"),
        "expected a source.fixAll.konform action"
    );
    assert!(
        offered.iter().any(|a| a.kind.name() == "quickfix"),
        "expected a quickfix action"
    );
}

#[test]
fn formatting_applies_fixer_to_whole_document() {
    let edits = handle_formatting("/proj/mod.py", KIS001_SOURCE, &rules(), &Config::default());
    assert_eq!(edits.len(), 1, "expected a single full-document edit");
    assert!(
        !edits[0].new_text.contains("from os.path import join"),
        "formatting should remove the violation"
    );
}

#[test]
fn workspace_configuration_round_trip_updates_diagnostics() {
    let mut s = session();
    s.open(URI, 1, KIS001_SOURCE.to_owned());
    assert_eq!(diagnose(&mut s).len(), 1);

    // The editor answers that it now wants KIS001 ignored.
    let answer = "[{ \"ignore\": [\"KIS001\"] }]";
    s.apply_editor_settings(read_editor_settings(answer).unwrap());
    assert!(
        diagnose(&mut s).is_empty(),
        "KIS001 should be suppressed after applying editor settings"
    );
}

#[test]
fn did_change_watched_files_reloads_config_from_disk() {
    let mut s = session();
    s.open(URI, 1, KIS001_SOURCE.to_owned());
    assert_eq!(diagnose(&mut s).len(), 1);

    let (content, _) = migrate_content("konform.toml", "ignore = [\"KIS001\"]\n").unwrap();
    s.reload_config(load_config(Some(ConfigFile {
        file_name: "konform.toml".to_owned(),
        config_dir: Some("/proj".to_owned()),
        content: Some(content),
    })));
    assert!(
        diagnose(&mut s).is_empty(),
        "config reload should pick up the new ignore list"
    );
    assert_eq!(s.source(URI), Some(KIS001_SOURCE));
}

#[test]
fn unknown_request_returns_method_not_found() {
    assert_eq!(classify_request("textDocument/hover"), RequestKind::Unknown);
    assert_eq!(method_not_found("textDocument/hover"), "method not found: textDocument/hover");
}

// ── changes to documents ────────────────────────────────────────────────

#[test]
fn changes_apply_one_behind_the_other() {
    let mut s = session();
    s.open(URI, 1, "one\ntwo\n".to_owned());
    let changes = vec![
        Change { range: Some(Range { start: at(0, 0), end: at(0, 3) }), text: "1".to_owned() },
        Change { range: Some(Range { start: at(1, 3), end: at(1, 3) }), text: "!".to_owned() },
        Change { range: Some(Range { start: at(0, 1), end: at(1, 0) }), text: " ".to_owned() },
    ];
    s.update(URI, 2, &changes);
    assert_eq!(s.source(URI), Some("1 two!\n"));
}

#[test]
fn change_of_an_unknown_document_is_ignored() {
    let mut s = session();
    s.update("file:///other.py", 1, &whole("x"));
    assert!(s.source("file:///other.py").is_none());
    assert!(s.uris().is_empty());
}

#[test]
fn change_forgets_what_was_found() {
    let mut s = session();
    s.open(URI, 1, KIS001_SOURCE.to_owned());
    diagnose(&mut s);
    assert_eq!(s.diagnostics(URI).len(), 1);
    s.update(URI, 2, &whole("x = 1\n"));
    assert!(s.diagnostics(URI).is_empty());
    assert_eq!(s.uris(), vec![URI]);
}

#[test]
fn settings_that_are_not_there_stay() {
    let mut s = session();
    s.config.lint.select = vec!["KIS".to_owned()];
    s.apply_editor_settings(EditorSettings {
        select: None,
        ignore: None,
        level: Some("Warning".to_owned()),
    });
    assert_eq!(s.config.lint.select, vec!["KIS"]);
    assert_eq!(s.config.lint.level, Level::Warning);
    s.apply_editor_settings(EditorSettings {
        select: Some(vec![]),
        ignore: None,
        level: Some("loud".to_owned()),
    });
    assert!(s.config.lint.select.is_empty());
    assert_eq!(s.config.lint.level, Level::Warning);
}

#[test]
fn answer_without_settings_is_ignored() {
    for answer in ["null", "[]", "[null]", "[1, {}]", "{}", "["] {
        assert!(read_editor_settings(answer).is_none(), "for {answer}");
    }
    assert!(settings_in_answer(&Json::List(vec![Json::Object(vec![])])).is_some());
}

// ── what is offered ─────────────────────────────────────────────────────

/// Applies edits from the last to the first.
fn applied(source: &str, edits: &[TextEdit]) -> String {
    let mut text = source.to_owned();
    for edit in edits.iter().rev() {
        let start = lsp_pos_to_byte_offset(source, edit.range.start);
        let end = lsp_pos_to_byte_offset(source, edit.range.end);
        text.replace_range(start..end, &edit.new_text);
    }
    text
}

#[test]
fn quick_fix_changes_its_violation_only() {
    let source =
        "from os.path import join\nfrom os.path import dirname\n\njoin(dirname('a'), 'b')\n";
    let range = Range { start: at(1, 0), end: at(1, 0) };
    let offered = actions(source, range, &Some(vec!["quickfix".to_owned()]));
    assert_eq!(offered.len(), 1);
    assert_eq!(offered[0].title, "Konform: Fix Google-style imports [KIS001]");
    assert!(offered[0].preferred);
    assert_eq!(offered[0].diagnostics.len(), 1);
    let fixed = applied(source, &offered[0].edits);
    assert!(fixed.contains("from os.path import join\n"), "got:\n{fixed}");
    assert!(fixed.contains("join(os.path.dirname('a'), 'b')"), "got:\n{fixed}");
}

#[test]
fn fix_all_replaces_the_document() {
    let range = Range { start: at(9, 0), end: at(9, 0) };
    let offered = actions(KIS001_SOURCE, range, &Some(vec!["source.fixAll".to_owned()]));
    assert_eq!(offered.len(), 1);
    assert_eq!(offered[0].kind, ActionKind::FixAll);
    assert_eq!(offered[0].title, "Konform: Fix all auto-fixable problems");
    assert_eq!(applied(KIS001_SOURCE, &offered[0].edits), "\nimport os.path\n");
}

#[test]
fn kinds_below_a_wanted_one_are_wanted() {
    let only = Some(vec!["source".to_owned()]);
    assert!(is_kind_wanted(&only, "source.fixAll.konform"));
    assert!(is_kind_wanted(&only, "source"));
    assert!(!is_kind_wanted(&only, "sources"));
    assert!(!is_kind_wanted(&only, "quickfix"));
    assert!(is_kind_wanted(&None, "quickfix"));
}

#[test]
fn clean_document_is_not_formatted() {
    let edits = handle_formatting("/proj/mod.py", "import os\n", &rules(), &Config::default());
    assert!(edits.is_empty());
}

#[test]
fn rule_is_named_by_code_or_category() {
    assert_eq!(rule_name(&rules(), "KIS001"), "Google-style imports");
    assert_eq!(rule_name(&rules(), "KPT901"), "Pattern rules");
    assert_eq!(rule_name(&rules(), "ZZ1"), "ZZ1");
}

#[test]
fn edits_give_the_new_text() {
    for (old, new) in [
        ("a\nb\nc\n", "a\nx\nc\n"),
        ("a\nb\nc\n", "b\nc\nd\n"),
        ("", "a\n"),
        ("a\nb", "a\nb\nc"),
        ("a\nb\nc\nd\n", "z\nb\nc\ny\nd\n"),
        ("a\rb\nc\n", "a\rx\nc\n"),
        ("a\r\nb\rc\n", "b\rc\nd\rd"),
        ("b\nx\n", "b\nc\nb\n"),
    ] {
        assert_eq!(applied(old, &line_diff_edits(old, new)), new, "from {old:?}");
    }
    for same in ["", "a", "a\n", "a\rb\n"] {
        assert!(line_diff_edits(same, same).is_empty());
    }
}

#[test]
fn lines_keep_their_ends() {
    assert_eq!(split_full_lines("a\nb"), vec!["a\n", "b"]);
    assert_eq!(split_full_lines("a\n\n"), vec!["a\n", "\n"]);
    assert!(split_full_lines("").is_empty());
}

#[test]
fn messages_are_told_apart() {
    assert_eq!(classify_request("textDocument/codeAction"), RequestKind::CodeAction);
    assert_eq!(classify_request("textDocument/diagnostic"), RequestKind::Diagnostic);
    assert_eq!(classify_request("textDocument/formatting"), RequestKind::Formatting);
    assert_eq!(classify_request("textDocument/rangeFormatting"), RequestKind::RangeFormatting);
    assert_eq!(classify_notification("textDocument/didOpen"), NotificationKind::DidOpen);
    assert_eq!(classify_notification("textDocument/didSave"), NotificationKind::DidSave);
    assert_eq!(classify_notification("$/cancelRequest"), NotificationKind::Unknown);
}

#[test]
fn answers_are_taken_once() {
    let mut pending = Pending::new();
    let id = pending.ask();
    assert_eq!(id, 1);
    assert!(!pending.take(7));
    assert!(pending.take(id));
    assert!(!pending.take(id));
}

#[test]
fn whole_edit_replaces_text_of_any_width() {
    let old = "a\u{1F600}\nb\u{e9}";
    let edit = full_document_edit(old, "x\n");
    assert_eq!(edit.range.end, at(1, 2));
    assert_eq!(applied(old, &[edit]), "x\n");
}

#[test]
fn columns_of_diagnostics_count_code_units() {
    let source = "\u{e9}\u{1f600}x\n";
    let mut v = sample_violation(Level::Error, false, None);
    v.line = 1;
    v.col = 2;
    v.end_line = 1;
    v.end_col = 7;
    let diag = violation_to_diagnostic(&v, source);
    assert_eq!(diag.range.start, Position { line: 0, character: 1 });
    assert_eq!(diag.range.end, Position { line: 0, character: 4 });
    assert_eq!(byte_offset_to_lsp_pos(source, 7), diag.range.end);
}
