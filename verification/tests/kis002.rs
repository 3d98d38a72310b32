//! Import aliases that are not needed: what is reported and how it is rewritten.
use konform::config::{Kis002Table, RuleTable};
use konform::rules::{FileContext, Kis002Rule, Rule};
use konform::types::{FixTarget, Level, Violation};

fn ctx(source: &str) -> FileContext {
    FileContext::from_source("test.py".to_owned(), source.to_owned())
}

fn check(source: &str) -> Vec<Violation> {
    Kis002Rule::new().check(&ctx(source), &RuleTable::Empty)
}

fn fix(source: &str) -> Option<String> {
    Kis002Rule::new().fix(&ctx(source), &RuleTable::Empty).unwrap()
}

#[test]
fn unnecessary_alias_flagged() {
    let src = "from foo.bar import baz as bar_baz\n\nbar_baz()\n";
    let viols = check(src);
    assert_eq!(viols.len(), 1);
    assert_eq!(viols[0].rule, "KIS002");
    assert!(viols[0].fixable);
}

#[test]
fn self_alias_not_flagged() {
    let src = "from foo.bar import baz as baz\n";
    let viols = check(src);
    assert!(viols.is_empty());
}

#[test]
fn underscore_alias_not_flagged() {
    let src = "from foo.bar import baz as _baz\n";
    let viols = check(src);
    assert!(viols.is_empty());
}

#[test]
fn plain_import_as_not_flagged() {
    let src = "import foo.bar as fb\n";
    let viols = check(src);
    assert!(viols.is_empty());
}

#[test]
fn relative_import_not_flagged() {
    let src = "from . import baz as bar_baz\n";
    let viols = check(src);
    assert!(viols.is_empty());
}

#[test]
fn alias_necessary_due_to_local_collision_not_flagged() {
    let src = "from foo.bar import baz as bar_baz\n\ndef baz():\n    return 1\n";
    let viols = check(src);
    assert!(viols.is_empty());
}

#[test]
fn alias_necessary_due_to_other_import_binding_same_name_not_flagged() {
    let src = "from foo.bar import baz as bar_baz\nfrom qux import baz\n";
    let viols = check(src);
    assert!(viols.is_empty());
}

#[test]
fn unused_alias_still_flagged() {
    let src = "from foo.bar import baz as bar_baz\n";
    let viols = check(src);
    assert_eq!(viols.len(), 1);
}

#[test]
fn kis002_noqa_suppresses() {
    let src = "from foo.bar import baz as bar_baz  # noqa: KIS002\n";
    let viols = check(src);
    assert!(viols.is_empty());
}

#[test]
fn kis002_category_noqa_suppresses() {
    let src = "from foo.bar import baz as bar_baz  # noqa: KIS\n";
    let viols = check(src);
    assert!(viols.is_empty());
}

#[test]
fn fix_rewrites_source_and_renames_usages() {
    let src = "from foo.bar import baz as bar_baz\n\nbar_baz()\n";
    let fixed = fix(src).unwrap();
    assert_eq!(fixed, "from foo.bar import baz\n\nbaz()\n");
}

#[test]
fn first_of_two_colliding_aliases_is_fixed_second_is_not() {
    // Regression: `plugin` isn't bound anywhere else in the file, so
    // each alias looks independently fixable -- but dropping *both*
    // would bind `plugin` twice in the same (module) scope. The first
    // declared alias can still be fixed safely; only the later one(s)
    // sharing its slot must stay aliased.
    let src = "from a.plugin import plugin as a_plugin\n\
               from b.plugin import plugin as b_plugin\n\n\
               a_plugin()\nb_plugin()\n";
    let viols = check(src);
    assert_eq!(viols.len(), 2);
    assert!(viols[0].fixable, "first alias should still be fixable");
    assert!(
        !viols[1].fixable,
        "second alias collides with the first's fix"
    );

    let fixed = fix(src).unwrap();
    assert!(fixed.contains("from a.plugin import plugin\n"));
    assert!(fixed.contains("from b.plugin import plugin as b_plugin\n"));
    assert!(fixed.contains("plugin()\nb_plugin()\n"));
}

#[test]
fn fix_applied_when_colliding_alias_is_in_a_different_scope() {
    // Same post-fix name (`plugin`), but one alias lives in a nested
    // function scope -- no collision, so it should still be fixed.
    let src = "from a.plugin import plugin as a_plugin\n\n\
               def f():\n    from b.plugin import plugin as b_plugin\n    return b_plugin()\n\n\
               a_plugin()\n";
    let viols = check(src);
    assert_eq!(viols.len(), 2);
    assert!(viols.iter().all(|v| v.fixable));
    let fixed = fix(src).unwrap();
    assert!(fixed.contains("from a.plugin import plugin\n"));
    assert!(fixed.contains("    from b.plugin import plugin\n"));
}

#[test]
fn fix_only_touches_flagged_alias_in_multi_name_import() {
    let src = "from foo.bar import baz as bar_baz, qux\n\nbar_baz()\nqux()\n";
    let fixed = fix(src).unwrap();
    assert_eq!(fixed, "from foo.bar import baz, qux\n\nbaz()\nqux()\n");
}

#[test]
fn fix_preserves_other_names_in_parenthesized_multiline_import() {
    // Regression test: fixing one aliased name inside a parenthesized,
    // multi-line `from X import (...)` statement must not drop or
    // otherwise disturb sibling names on their own lines.
    let src = "from foo.bar import (\n    baz as bar_baz,\n    qux,\n)\n\nprint(bar_baz)\n";
    let fixed = fix(src).unwrap();
    assert_eq!(
        fixed,
        "from foo.bar import (\n    baz,\n    qux,\n)\n\nprint(baz)\n"
    );
}

#[test]
fn fix_skipped_when_alias_shadowed_locally() {
    let src = "from foo.bar import baz as bar_baz\n\n\
               def f():\n    bar_baz = 1\n    return bar_baz\n\n\
               bar_baz()\n";
    let viols = check(src);
    assert_eq!(viols.len(), 1);
    assert!(!viols[0].fixable);
    // No fix applied since the only violation isn't safely fixable.
    assert!(fix(src).is_none());
}

#[test]
fn fix_skipped_when_alias_ambiguous_with_other_import() {
    let src =
        "from foo.bar import baz as bar_baz\nfrom other import thing as bar_baz\n\nbar_baz()\n";
    let viols = check(src);
    // Both aliases are unnecessary in isolation, but neither is safely
    // fixable since `bar_baz` is bound to two different imports.
    assert!(viols.iter().all(|v| !v.fixable));
    assert!(fix(src).is_none());
}

#[test]
fn kis002_violation_fields() {
    let src = "from foo.bar import baz as bar_baz\n";
    let viols = check(src);
    assert_eq!(viols.len(), 1);
    let v = &viols[0];
    assert_eq!(v.line, 1);
    assert_eq!(v.level, Level::Warning);
    assert!(v.message.contains("bar_baz"));
}

#[test]
fn level_configurable_to_error() {
    let src = "from foo.bar import baz as bar_baz\n";
    let table = RuleTable::UnnecessaryImportAlias(Kis002Table { level: Some(Level::Error) });
    let viols = Kis002Rule::new().check(&ctx(src), &table);
    assert_eq!(viols[0].level, Level::Error);
}

#[test]
fn only_the_alias_aimed_at_is_dropped() {
    let src = "from a import x as ax\nfrom b import y as by\n\nax()\nby()\n";
    let found = check(src);
    assert_eq!(found.len(), 2);
    let mut aimed = ctx(src);
    aimed.fix_target =
        Some(FixTarget { rule: "KIS002".to_owned(), line: found[1].line, col: found[1].col });
    let fixed = Kis002Rule::new().fix(&aimed, &RuleTable::Empty).unwrap().unwrap();
    assert_eq!(fixed, "from a import x as ax\nfrom b import y\n\nax()\ny()\n");
}

#[test]
fn aliases_in_text_that_is_no_python_are_not_reported() {
    assert!(check("from a import x as ax (\n").is_empty());
    assert!(fix("from a import x as ax (\n").is_none());
}

#[test]
fn only_the_alias_and_its_uses_change() {
    let src = "from foo import (\n    baz as b,  # b is baz\n    qux,\n)\nprint('b', b.b, b)\nb2 = [b]\n";
    let expected =
        "from foo import (\n    baz,  # b is baz\n    qux,\n)\nprint('b', baz.b, baz)\nb2 = [baz]\n";
    assert_eq!(fix(src).as_deref(), Some(expected));
    assert_eq!(fix(expected), None);
}
