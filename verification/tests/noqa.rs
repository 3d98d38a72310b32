//! Comments that suppress findings.
use konform::noqa::{add_noqa_to_source, has_noqa, merge_noqa};
use konform::types::Record;

fn viol(rule: &str, line: u64) -> Record {
    Record {
        rule: Some(rule.to_owned()),
        line: Some(line),
        message: Some("test".to_owned()),
        level: None,
        help: None,
        start_line: None,
        start_character: None,
        end_line: None,
        end_character: None,
        fixable: None,
    }
}

#[test]
fn has_noqa_matches_canonical_code_without_aliases() {
    let aliases = vec![];
    assert!(has_noqa("x = 1  # noqa: KIS001", "KIS001", &aliases));
    assert!(!has_noqa("x = 1  # noqa: KIS001", "KPT001", &aliases));
}

#[test]
fn has_noqa_matches_via_exact_alias() {
    let aliases = vec![("IS001".to_owned(), "KIS001".to_owned())];
    assert!(has_noqa("x = 1  # noqa: IS001", "KIS001", &aliases));
    assert!(!has_noqa("x = 1  # noqa: IS001", "KPT001", &aliases));
}

#[test]
fn has_noqa_matches_via_category_alias() {
    let aliases = vec![("IS".to_owned(), "KIS".to_owned())];
    assert!(has_noqa("x = 1  # noqa: IS", "KIS001", &aliases));
}

// merge_noqa ---------------------------------------------------------------

#[test]
fn merge_noqa_no_existing_appends_comment() {
    let mut changed = false;
    let codes = vec!["KIS001".to_owned()];
    let result = merge_noqa("from os.path import join", &codes, &mut changed);
    assert_eq!(result, "from os.path import join  # noqa: KIS001");
    assert!(changed);
}

#[test]
fn merge_noqa_foreign_code_merges_sorted() {
    let mut changed = false;
    let codes = vec!["KIS001".to_owned()];
    let result = merge_noqa("code()  # noqa: E501", &codes, &mut changed);
    assert_eq!(result, "code()  # noqa: E501, KIS001");
    assert!(changed);
}

#[test]
fn merge_noqa_code_already_present_unchanged() {
    let mut changed = false;
    let codes = vec!["KIS001".to_owned()];
    let result = merge_noqa("code()  # noqa: KIS001", &codes, &mut changed);
    assert_eq!(result, "code()  # noqa: KIS001");
    assert!(!changed);
}

#[test]
fn merge_noqa_bare_noqa_unchanged() {
    let mut changed = false;
    let codes = vec!["KIS001".to_owned()];
    let result = merge_noqa("code()  # noqa", &codes, &mut changed);
    assert_eq!(result, "code()  # noqa");
    assert!(!changed);
}

#[test]
fn merge_noqa_multiple_codes_sorted() {
    let mut changed = false;
    let codes = vec!["KPT001".to_owned(), "KIS001".to_owned()];
    let result = merge_noqa("code()", &codes, &mut changed);
    assert_eq!(result, "code()  # noqa: KIS001, KPT001");
    assert!(changed);
}

#[test]
fn merge_noqa_trailing_comment_after_codes_preserved_prefix() {
    // Trailing commentary after the code list is dropped when merging.
    let mut changed = false;
    let codes = vec!["KIS001".to_owned()];
    let result = merge_noqa("code()  # noqa: E501  # intentional", &codes, &mut changed);
    assert_eq!(result, "code()  # noqa: E501, KIS001");
    assert!(changed);
}

// add_noqa_to_source -------------------------------------------------------

#[test]
fn add_noqa_source_no_violations_returns_none() {
    assert!(add_noqa_to_source("import os\n", &vec![]).is_none());
}

#[test]
fn add_noqa_source_appends_comment() {
    let viols = vec![viol("KIS001", 1)];
    let result = add_noqa_to_source("from os.path import join\n", &viols).unwrap();
    assert_eq!(result, "from os.path import join  # noqa: KIS001\n");
}

#[test]
fn add_noqa_source_merges_foreign_noqa() {
    let viols = vec![viol("KIS001", 1)];
    let src = "from os.path import join  # noqa: E501\n";
    let result = add_noqa_to_source(src, &viols).unwrap();
    assert_eq!(result, "from os.path import join  # noqa: E501, KIS001\n");
}

#[test]
fn add_noqa_source_preserves_trailing_newline() {
    let viols = vec![viol("KIS001", 1)];
    let result = add_noqa_to_source("from os.path import join\n", &viols).unwrap();
    assert!(result.ends_with('\n'));
}

#[test]
fn add_noqa_source_no_trailing_newline() {
    let viols = vec![viol("KIS001", 1)];
    let result = add_noqa_to_source("from os.path import join", &viols).unwrap();
    assert!(!result.ends_with('\n'));
}

// ── laws and edge cases ────────────────────────────────────────────────

#[test]
fn added_comments_suppress_what_they_name() {
    let viols = vec![viol("KPT001", 2), viol("KIS001", 2)];
    let text = add_noqa_to_source("a\nb  # note\nc\n", &viols).unwrap();
    assert_eq!(text, "a\nb  # note  # noqa: KIS001, KPT001\nc\n");
    assert!(has_noqa(text.lines().nth(1).unwrap(), "KIS001", &vec![]));
    assert!(has_noqa(text.lines().nth(1).unwrap(), "KPT001", &vec![]));
    assert!(!has_noqa(text.lines().next().unwrap(), "KIS001", &vec![]));
}

#[test]
fn adding_comments_twice_changes_nothing_more() {
    let viols = vec![viol("KIS001", 1)];
    let once = add_noqa_to_source("from a import b\n", &viols).unwrap();
    assert!(add_noqa_to_source(&once, &viols).is_none());
}

#[test]
fn bare_comment_suppresses_every_code() {
    assert!(has_noqa("x = 1  # noqa", "KIS001", &vec![]));
    assert!(has_noqa("x = 1  # noqa", "ZZ1", &vec![]));
    assert!(!has_noqa("x = 1  # no qa", "KIS001", &vec![]));
}

#[test]
fn category_comment_suppresses_its_rules_only() {
    assert!(has_noqa("x = 1  # noqa: KIS", "KIS001", &vec![]));
    assert!(!has_noqa("x = 1  # noqa: KPT", "KIS001", &vec![]));
    assert!(has_noqa("x = 1  # noqa: E501, KIS001", "KIS001", &vec![]));
}
