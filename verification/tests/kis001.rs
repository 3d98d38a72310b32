//! Imports of objects that are no modules: what is reported and how it is rewritten.
use konform::config::RuleTable;
use konform::engine::is_python;
use konform::kis001::Kis001Table;
use konform::module_facts::{ModuleCheck, ModuleFacts};
use konform::module_probe::ModuleProbe;
use konform::questions::{resolve, source_questions};
use konform::rules::{FileContext, Kis001Rule, Rule};
use konform::scope::build_scope_index;
use konform::syntax::{outline, Kind};
use konform::types::{FixTarget, Level, Violation};

/// What stands in the directories of a small library.
fn listing(dir: &str) -> (Vec<&'static str>, Vec<&'static str>) {
    match dir {
        "/lib" => (vec!["xml"], vec!["os.py", "sys.py", "types.py", "xml"]),
        "/lib/xml" => (vec!["etree"], vec!["__init__.py", "etree"]),
        "/lib/xml/etree" => (vec![], vec!["__init__.py", "ElementTree.py"]),
        _ => (vec![], vec![]),
    }
}

fn facts_for(source: &str) -> ModuleFacts {
    let asked = source_questions(source);
    let mut probe = ModuleProbe::new(vec!["/lib".to_owned()]);
    loop {
        match resolve(&mut probe, &asked) {
            Ok(facts) => return facts,
            Err(dir) => {
                let (dirs, names) = listing(&dir);
                let init = if names.contains(&"__init__.py") { Some(String::new()) } else { None };
                probe.add_listing(
                    &dir,
                    dirs.iter().map(|d| d.to_string()).collect(),
                    names.iter().map(|n| n.to_string()).collect(),
                    init,
                );
            }
        }
    }
}

fn ctx(source: &str) -> FileContext {
    FileContext::from_source("test.py".to_owned(), source.to_owned())
}

fn check_with(source: &str, table: &RuleTable) -> Vec<Violation> {
    Kis001Rule::new(facts_for(source)).check(&ctx(source), table)
}

fn check(source: &str) -> Vec<Violation> {
    check_with(source, &RuleTable::Empty)
}

fn fix(source: &str) -> Option<String> {
    Kis001Rule::new(facts_for(source)).fix(&ctx(source), &RuleTable::Empty).unwrap()
}

fn unresolved(level: &str) -> RuleTable {
    RuleTable::ModuleOnlyImports(Kis001Table {
        exceptions: None,
        level: None,
        unresolved_level: Some(level.to_owned()),
    })
}

#[test]
fn non_module_import_flagged() {
    let violations = check("from os.path import join\n");
    assert!(!violations.is_empty(), "expected KIS001 violation");
    assert_eq!(violations[0].rule, "KIS001");
}

#[test]
fn uninstalled_package_produces_warning_not_error() {
    let violations = check("from totally_not_a_real_package_zzz_kis001 import something\n");
    assert_eq!(violations.len(), 1, "expected exactly one violation");
    assert_eq!(violations[0].level, Level::Warning);
    assert!(!violations[0].fixable);
}

#[test]
fn future_excepted_by_default() {
    let violations = check("from __future__ import annotations\n");
    assert!(violations.is_empty(), "should be excepted by default");
}

#[test]
fn kis001_noqa_suppresses() {
    let violations = check("from os.path import join  # noqa: KIS001\n");
    assert!(violations.is_empty(), "noqa should suppress");
}

#[test]
fn kis001_category_noqa_suppresses() {
    let violations = check("from os.path import join  # noqa: KIS\n");
    assert!(violations.is_empty(), "category noqa should suppress");
}

#[test]
fn fix_rewrites_source() {
    let source = "from os.path import join\n";
    let result = fix(source);
    assert!(result.is_some(), "expected a fix");
    let fixed = result.unwrap();
    assert!(
        !fixed.contains("from os.path import join"),
        "fix should remove violation"
    );
}

#[test]
fn kis001_violation_fields() {
    let violations = check("from os.path import join\n");
    let v = &violations[0];
    assert_eq!(v.rule, "KIS001");
    assert_eq!(v.line, 1);
    assert!(v.fixable);
    assert!(v.message.contains("join"));
}

#[test]
fn custom_exceptions_respected() {
    let table = RuleTable::ModuleOnlyImports(Kis001Table {
        exceptions: Some(vec![Some("os.path".to_owned())]),
        level: None,
        unresolved_level: None,
    });
    let violations = check_with("from os.path import join\n", &table);
    assert!(violations.is_empty(), "os.path should be excepted");
}

#[test]
fn unresolved_level_can_be_escalated_to_error() {
    let violations = check_with(
        "from totally_not_a_real_package_zzz_kis001 import something\n",
        &unresolved("error"),
    );
    assert_eq!(violations.len(), 1, "expected exactly one violation");
    assert_eq!(violations[0].level, Level::Error);
    assert!(!violations[0].fixable);
}

#[test]
fn unresolved_level_off_suppresses_violation() {
    let violations = check_with(
        "from totally_not_a_real_package_zzz_kis001 import something\n",
        &unresolved("off"),
    );
    assert!(
        violations.is_empty(),
        "unresolved_level = off should suppress the violation entirely"
    );
}

#[test]
fn test_level_detection() {
    let absolute = outline("from os.path import join\n").unwrap();
    let statement = absolute.iter().find(|n| n.kind == Kind::ImportFrom).unwrap();
    assert_eq!(statement.level, 0, "absolute import should have level 0");
    let relative = outline("from .sub import thing\n").unwrap();
    let statement = relative.iter().find(|n| n.kind == Kind::ImportFrom).unwrap();
    assert_ne!(statement.level, 0, "relative import should have level != 0");
}

// ── multi-line paren import fixer ───────────────────────────────────────

#[test]
fn multiline_paren_import_all_removed() {
    // Both aliases are non-modules — all lines should be blanked.
    let source = "from os.path import (\n    join,\n    dirname,\n)\n";
    let result = fix(source);
    assert!(result.is_some(), "expected a fix");
    let fixed = result.unwrap();
    // The import statement should be gone.
    assert!(
        !fixed.contains("from os.path import"),
        "import should be removed"
    );
}

#[test]
fn multiline_paren_import_one_survives_collapses() {
    // `join` is kept by its comment, so only `dirname` goes.
    let source = "from os.path import (\n    join,  # noqa: KIS001\n    dirname,\n)\n";
    let result = fix(source);
    assert!(result.is_some(), "expected a fix");
    let fixed = result.unwrap();
    // Should collapse to a single-line import keeping `join` (noqa-suppressed).
    assert!(
        fixed.contains("from os.path import join"),
        "survivor should be kept on one line: {fixed:?}"
    );
    // dirname line should be gone.
    assert!(
        !fixed.contains("dirname"),
        "dirname should be removed: {fixed:?}"
    );
}

#[test]
fn multiline_paren_import_multiple_survive_reconstructed() {
    // Suppress `dirname` with noqa so that only `join` and `exists` survive.
    // We need 2+ survivors so the paren block is reconstructed.
    let source = "from os.path import (\n    join,  # noqa: KIS001\n    dirname,\n    exists,  # noqa: KIS001\n)\n";
    let result = fix(source);
    assert!(result.is_some(), "expected a fix");
    let fixed = result.unwrap();
    // join and exists survive; dirname is removed.
    assert!(fixed.contains("join"), "join should survive: {fixed:?}");
    assert!(fixed.contains("exists"), "exists should survive: {fixed:?}");
    assert!(
        !fixed.contains("dirname"),
        "dirname should be removed: {fixed:?}"
    );
    // Block should still be paren-style (reconstructed).
    assert!(
        fixed.contains("import ("),
        "should be paren-style: {fixed:?}"
    );
}

#[test]
fn multiline_paren_trailing_comma() {
    // Trailing comma on last alias is handled gracefully.
    let source = "from os.path import (\n    join,\n    dirname,\n)\n";
    let result = fix(source);
    assert!(result.is_some());
}

#[test]
fn multiline_paren_inline_comments() {
    // Inline comments on alias lines are stripped; aliases still parsed.
    let source = "from os.path import (\n    join,  # this is a function\n    dirname,  # also a function\n)\n";
    let result = fix(source);
    assert!(result.is_some(), "expected a fix");
    // Both should be removed (no survivors)
    let fixed = result.unwrap();
    assert!(
        !fixed.contains("from os.path import"),
        "import should be removed"
    );
}

#[test]
fn all_exports_direct_assignment() {
    // __all__ = ['a', 'b'] should suppress re-export imports.
    let source = "from os.path import join\n__all__ = ['join']\n";
    let violations = check(source);
    assert!(
        violations.is_empty(),
        "join in __all__ should suppress KIS001"
    );
}

#[test]
fn all_exports_augmented_assignment() {
    // __all__ += ['b'] should also suppress re-export imports.
    let source = "from os.path import join\n__all__ = []\n__all__ += ['join']\n";
    let violations = check(source);
    assert!(
        violations.is_empty(),
        "join in __all__ += should suppress KIS001"
    );
}

#[test]
fn all_exports_augmented_without_direct_still_works() {
    // Even with only __all__ += (no direct __all__ = assignment before), should work.
    let source = "from os.path import join, dirname\n__all__ += ['join']\n";
    let violations = check(source);
    // join is in __all__ += so it should be suppressed; dirname is not.
    let names: Vec<&str> = violations.iter().map(|v| v.message.as_str()).collect();
    assert!(
        violations.iter().all(|v| v.message.contains("dirname")),
        "only dirname should be flagged, got: {names:?}"
    );
}

#[test]
fn multiline_paren_fix_does_not_affect_clean_file() {
    // A file with no KIS001 violations returns None.
    let source = "import os\nx = 1\n";
    let result = fix(source);
    assert!(result.is_none(), "clean file should not be modified");
}

// ── regression tests: new-import anchor only uses top-level imports ───

#[test]
fn new_import_is_anchored_after_top_level_imports_only() {
    // A nested `if TYPE_CHECKING:` import must never be used as the
    // anchor for inserting a new top-level `import X` statement -- doing
    // so would land the new statement inside the indented block.
    let source = "from os.path import join\n\nif TYPE_CHECKING:\n    from types import ModuleType\n\n\ndef f(m):\n    return join('a', 'b')\n";
    let result = fix(source);
    let fixed = result.expect("fixable file should be rewritten");

    let type_checking_idx = fixed
        .find("if TYPE_CHECKING:")
        .expect("TYPE_CHECKING block should survive");
    let new_import_idx = fixed
        .find("import os.path\n")
        .expect("new import os.path should be inserted");
    assert!(
        new_import_idx < type_checking_idx,
        "new import must be anchored before the TYPE_CHECKING block"
    );
    assert!(
        is_python(&fixed),
        "fixed source must remain valid Python"
    );
}

// ── regression tests: removing a nested import must not empty its block ─

#[test]
fn removing_only_import_in_block_inserts_pass() {
    // Removing the sole statement of an indented block must leave a
    // `pass` behind, or the block becomes an IndentationError.
    let source =
        "if TYPE_CHECKING:\n    from types import ModuleType\n\n\ndef f(m):\n    pass\n";
    let result = fix(source);
    let fixed = result.expect("fixable file should be rewritten");
    assert!(
        fixed.contains("if TYPE_CHECKING:\n    pass\n")
            || fixed.contains("if TYPE_CHECKING:\n    import types\n"),
        "block should either keep a real import or gain a `pass`, got:\n{fixed}"
    );
    assert!(
        is_python(&fixed),
        "fixed source must remain valid Python"
    );
}

#[test]
fn removing_all_imports_in_multi_import_block_stays_valid() {
    // Two fixable imports are the only statements of the block; once
    // both are rewritten, the block must not become empty.
    let source = "if TYPE_CHECKING:\n    from os.path import join\n    from os.path import dirname\n\n\ndef f():\n    pass\n";
    let result = fix(source);
    let fixed = result.expect("fixable file should be rewritten");
    assert!(
        is_python(&fixed),
        "fixed source must remain valid Python:\n{fixed}"
    );
}

#[test]
fn removing_one_of_two_imports_does_not_insert_pass() {
    // Only one of two imports in the block is rewritten; the block still
    // has real content afterwards, so no `pass` should be injected.
    let source = "if TYPE_CHECKING:\n    from os.path import join\n    import sys\n\n\ndef f():\n    return join('a', 'b')\n";
    let result = fix(source);
    let fixed = result.expect("fixable file should be rewritten");
    assert!(
        !fixed.contains("    pass\n"),
        "block still has content, no pass should be inserted, got:\n{fixed}"
    );
    assert!(
        fixed.contains("    import sys\n"),
        "surviving import should remain, got:\n{fixed}"
    );
    assert!(
        is_python(&fixed),
        "fixed source must remain valid Python:\n{fixed}"
    );
}

// ── regression tests: rename only touches Load-context AST names ──────

#[test]
fn rename_does_not_touch_docstrings_or_comments() {
    // The literal text "join" inside a docstring/comment must survive
    // untouched, while the real call is rewritten to the qualified form.
    let source = "from os.path import join\n\n\ndef f():\n    \"\"\"Calls join() to combine paths.\"\"\"\n    # join here refers to os.path.join\n    return join('a', 'b')\n";
    let result = fix(source);
    let fixed = result.expect("fixable file should be rewritten");
    assert!(
        fixed.contains("Calls join() to combine paths."),
        "docstring text must be preserved verbatim, got:\n{fixed}"
    );
    assert!(
        fixed.contains("# join here refers to os.path.join"),
        "comment text must be preserved verbatim, got:\n{fixed}"
    );
    assert!(
        fixed.contains("os.path.join('a', 'b')"),
        "the real call site should be rewritten to the qualified form, got:\n{fixed}"
    );
    assert!(
        is_python(&fixed),
        "fixed source must remain valid Python:\n{fixed}"
    );
}

// ── regression tests: shadowed local names must not be auto-fixed ─────

#[test]
fn shadowed_import_name_is_reported_as_unsafe_to_fix() {
    // `join` is both the imported alias and a local variable name that
    // is reassigned; a blind rename cannot tell those apart, so this
    // must be reported non-fixable rather than silently rewritten.
    let source =
        "from os.path import join\n\n\ndef f():\n    join = join('a', 'b')\n    return join\n";
    let violations = check(source);
    assert_eq!(violations.len(), 1, "expected exactly one violation");
    assert!(
        !violations[0].fixable,
        "shadowed import must not be marked fixable"
    );
    assert!(
        violations[0]
            .help
            .as_deref()
            .unwrap_or("")
            .contains("also assigned/bound"),
        "help text should explain the shadowing hazard, got: {:?}",
        violations[0].help
    );

    let result = fix(source);
    assert!(
        result.is_none(),
        "shadowed import must not be auto-fixed, got: {result:?}"
    );
}

#[test]
fn non_shadowed_import_in_same_file_is_still_fixed() {
    // A shadowed import in one function must not block fixing an
    // unrelated, non-shadowed import elsewhere in the same file.
    let source = "from os.path import join, dirname\n\n\ndef f():\n    join = join('a', 'b')\n    return join\n\n\ndef g():\n    return dirname('/a/b')\n";
    let violations = check(source);
    assert_eq!(
        violations.len(),
        2,
        "expected two violations, got: {violations:?}"
    );
    let join_violation = violations
        .iter()
        .find(|v| v.message.contains("'join'"))
        .expect("join violation present");
    let dirname_violation = violations
        .iter()
        .find(|v| v.message.contains("'dirname'"))
        .expect("dirname violation present");
    assert!(
        !join_violation.fixable,
        "join is shadowed, must not be fixable"
    );
    assert!(
        dirname_violation.fixable,
        "dirname is not shadowed, must be fixable"
    );

    let result = fix(source);
    let fixed = result.expect("dirname fix should still be applied");
    assert!(
        fixed.contains("os.path.dirname('/a/b')"),
        "dirname call site should be rewritten to the qualified form, got:\n{fixed}"
    );
    assert!(
        fixed.contains("join = join('a', 'b')"),
        "shadowed join code must remain untouched, got:\n{fixed}"
    );
    assert!(
        is_python(&fixed),
        "fixed source must remain valid Python:\n{fixed}"
    );
}

#[test]
fn new_bound_name_collision_is_reported_as_unsafe_to_fix() {
    // The fix wants to introduce `from xml.etree import ElementTree`,
    // binding the name `ElementTree` -- but `ElementTree` is already
    // assigned as a local variable elsewhere in this file. The old
    // alias name (`Element`) isn't shadowed at all; it's the *new*
    // name the fix itself would introduce that collides.
    let source = "from xml.etree.ElementTree import Element\n\n\ndef f():\n    ElementTree = Element()\n    return ElementTree\n";
    let violations = check(source);
    assert_eq!(violations.len(), 1, "expected exactly one violation");
    assert!(
        !violations[0].fixable,
        "new-bound-name collision must not be marked fixable"
    );
    assert!(
        violations[0]
            .help
            .as_deref()
            .unwrap_or("")
            .contains("'ElementTree' is also assigned/bound"),
        "help text should name the colliding *new* binding, got: {:?}",
        violations[0].help
    );

    let result = fix(source);
    assert!(
        result.is_none(),
        "import with a colliding new-bound-name must not be auto-fixed, got: {result:?}"
    );
}

// ── exact results ──────────────────────────────────────────────────────────

#[test]
fn import_is_replaced_by_its_module_and_uses_are_qualified() {
    let source = "from os.path import join\n\nprint(join('a', 'b'))\n";
    // The line of the old import stays, blank.
    assert_eq!(fix(source).unwrap(), "\nimport os.path\n\nprint(os.path.join('a', 'b'))\n");
}

#[test]
fn module_import_is_not_reported() {
    assert!(check("from xml.etree import ElementTree\n").is_empty());
    assert!(fix("from xml.etree import ElementTree\n").is_none());
}

#[test]
fn fixed_source_is_clean() {
    let fixed = fix("from os.path import join\n\nprint(join('a', 'b'))\n").unwrap();
    assert!(check(&fixed).is_empty());
    assert!(fix(&fixed).is_none());
}

#[test]
fn only_the_violation_aimed_at_is_fixed() {
    let source = "from os.path import join\nfrom os.path import dirname\n\njoin(dirname('a'), 'b')\n";
    let found = check(source);
    assert_eq!(found.len(), 2);
    let mut aimed = ctx(source);
    aimed.fix_target =
        Some(FixTarget { rule: "KIS001".to_owned(), line: found[1].line, col: found[1].col });
    let fixed = Kis001Rule::new(facts_for(source)).fix(&aimed, &RuleTable::Empty).unwrap().unwrap();
    assert!(fixed.contains("from os.path import join\n"), "got:\n{fixed}");
    assert!(fixed.contains("join(os.path.dirname('a'), 'b')"), "got:\n{fixed}");
}

#[test]
fn source_that_is_no_python_is_left_alone() {
    assert!(check("from os.path import (\n").is_empty());
    assert!(fix("from os.path import (\n").is_none());
}

#[test]
fn level_of_the_table_is_used() {
    let table = RuleTable::ModuleOnlyImports(Kis001Table {
        exceptions: None,
        level: Some("Warning".to_owned()),
        unresolved_level: None,
    });
    assert_eq!(check_with("from os.path import join\n", &table)[0].level, Level::Warning);
    assert_eq!(check("from os.path import join\n")[0].level, Level::Error);
}

#[test]
fn new_import_of_the_module_is_not_added_twice() {
    let source = "import types\nfrom types import ModuleType\n\nModuleType('a')\n";
    assert_eq!(fix(source).unwrap(), "import types\n\n\ntypes.ModuleType('a')\n");
}

#[test]
fn import_from_a_known_parent_is_used() {
    let source = "from xml.etree.ElementTree import Element\n\nElement('a')\n";
    assert_eq!(
        fix(source).unwrap(),
        "\nfrom xml.etree import ElementTree\n\nElementTree.Element('a')\n"
    );
}

#[test]
fn import_that_would_overlap_with_another_is_left_alone() {
    // `ElementTree` already means another module in this file.
    let source = "from other import ElementTree\nfrom xml.etree.ElementTree import Element\n\nElement('a')\n";
    let found = check(source);
    let own: Vec<_> = found.iter().filter(|v| v.message.contains("'Element'")).collect();
    assert_eq!(own.len(), 1);
    assert!(!own[0].fixable);
    assert!(fix(source).is_none());
}

#[test]
fn lines_that_are_not_touched_stay() {
    let source = "# first\r\nfrom os.path import join\r\nx = 'join'\r\ny = join(x)\r\n";
    assert_eq!(
        fix(source).unwrap(),
        "# first\r\n\r\nimport os.path\r\nx = 'join'\r\ny = os.path.join(x)\r\n"
    );
}

#[test]
fn import_under_another_name_is_renamed_where_it_is_read() {
    let source = "from os.path import join as j\n\nprint(j('a'), 'j')\n";
    assert_eq!(fix(source).unwrap(), "\nimport os.path\n\nprint(os.path.join('a'), 'j')\n");
}

#[test]
fn imports_are_found_in_every_body() {
    for source in [
        "try:\n    from os import getcwd\nexcept ImportError:\n    pass\n",
        "try:\n    pass\nexcept ImportError:\n    from os import getcwd\n",
        "try:\n    pass\nfinally:\n    from os import getcwd\n",
        "for x in y:\n    from os import getcwd\n",
        "for x in y:\n    pass\nelse:\n    from os import getcwd\n",
        "while x:\n    from os import getcwd\n",
        "with x:\n    from os import getcwd\n",
        "match x:\n    case 1:\n        from os import getcwd\n",
    ] {
        let found = Kis001Rule::new(facts_for(source)).check(&ctx(source), &RuleTable::Empty);
        assert_eq!(found.len(), 1, "in: {source}");
    }
}

#[test]
fn each_body_of_a_statement_keeps_a_statement() {
    let source = "try:\n    from os import getcwd\nfinally:\n    print(getcwd())\n";
    let text = Kis001Rule::new(facts_for(source)).fix(&ctx(source), &RuleTable::Empty).unwrap().unwrap();
    assert!(is_python(&text), "got: {text}");
    assert!(text.contains("print(os.getcwd())"), "got: {text}");
    let source = "import os\nfor x in y:\n    from os import getcwd\nelse:\n    print(getcwd())\n";
    let text = Kis001Rule::new(facts_for(source)).fix(&ctx(source), &RuleTable::Empty).unwrap().unwrap();
    assert!(is_python(&text), "got: {text}");
}

#[test]
fn every_binding_is_filed() {
    let nodes = outline("def f(v):\n    match v:\n        case x:\n            return x\n").unwrap();
    let index = build_scope_index(&nodes);
    let of = |start: u32| -> Vec<&str> {
        index.scope_names.iter().filter(|n| n.0 == start).map(|n| n.1.as_str()).collect()
    };
    for name in ["f", "v", "x"] {
        assert!(of(0).contains(&name), "missing {name}");
    }
    assert_eq!(index.module_names, vec!["f".to_owned()]);
    assert_eq!(index.buckets.len(), 1);
    assert_eq!(index.buckets[0].0, 0);
    let nodes = outline("try:\n    pass\nexcept (e := E):\n    pass\n").unwrap();
    assert!(build_scope_index(&nodes).module_names.contains(&"e".to_owned()));
    let nodes = outline("def g[T](a: T): pass\n").unwrap();
    assert!(build_scope_index(&nodes).scope_names.iter().any(|n| n.1 == "T"));
}

#[test]
fn names_that_stay_fit_on_their_lines() {
    let fixed = fix("from sys import (\n    argv, path,\n    exit)\nfrom xml import (etree, dom, sax)\n");
    let text = fixed.unwrap();
    assert!(is_python(&text), "got:\n{text}");
    assert!(text.contains("from xml import etree\n"), "got:\n{text}");
    let facts = |names: &[(&str, &str, ModuleCheck)]| {
        let mut facts = ModuleFacts::new();
        for (module, name, check) in names {
            facts.record(module, name, *check);
        }
        facts
    };
    let source = "from m import (x, y, z)\nx()\n";
    let known = facts(&[
        ("m", "x", ModuleCheck::NotModule),
        ("m", "y", ModuleCheck::Module),
        ("m", "z", ModuleCheck::Module),
    ]);
    let text = Kis001Rule::new(known).fix(&ctx(source), &RuleTable::Empty).unwrap().unwrap();
    assert_eq!(text, "from m import y, z\nimport m\nm.x()\n");
    let source = "from m import (\n    x,\n    y,\n    z,\n)\nx()\n";
    let known = facts(&[
        ("m", "x", ModuleCheck::NotModule),
        ("m", "y", ModuleCheck::Module),
        ("m", "z", ModuleCheck::Module),
    ]);
    let text = Kis001Rule::new(known).fix(&ctx(source), &RuleTable::Empty).unwrap().unwrap();
    assert_eq!(text, "from m import (\n    y,\n    z,\n)\n\nimport m\nm.x()\n");
}

#[test]
fn only_an_import_that_binds_the_name_counts() {
    let with = |head: &str| {
        let mut facts = ModuleFacts::new();
        facts.record("os.path", "join", ModuleCheck::NotModule);
        facts.record("os", "path", ModuleCheck::NotModule);
        let source = format!("{head}from os.path import join\n\njoin()\n");
        Kis001Rule::new(facts).fix(&ctx(&source), &RuleTable::Empty).unwrap().unwrap()
    };
    let added = |text: &str| text.matches("\nimport os.path\n").count();
    // There already.
    assert_eq!(with("import os.path\n"), "import os.path\n\n\nos.path.join()\n");
    assert_eq!(with("import sys, os.path  # both\n").matches("import").count(), 1);
    // Something else, or under another name, or elsewhere.
    assert_eq!(added(&with("import os.path as p\n")), 1);
    assert_eq!(added(&with("\"\"\"\nimport os.path\n\"\"\"\n")), 2);
    assert_eq!(added(&with("def f():\n    import os.path\n\n")), 1);
}
