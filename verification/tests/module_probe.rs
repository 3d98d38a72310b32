//! Finding out whether an imported name is a module.
use konform::module_facts::ModuleCheck;
use konform::module_probe::ModuleProbe;
use konform::questions::{resolve, source_questions};
use konform::search_path::{
    add_roots, env_fingerprint, is_same_path, read_sys_path, resolve_sys_path, Modified,
};
use seahash::SeaHasher;
use std::hash::{Hash, Hasher};

/// A tree of files: each with its path and its text.
type Tree<'a> = Vec<(&'a str, &'a str)>;

/// What stands in a directory of a tree. A path that ends in a slash is an empty directory.
fn list(tree: &Tree<'_>, dir: &str) -> (Vec<String>, Vec<String>, Option<String>) {
    let base = format!("{dir}/");
    let mut dirs: Vec<String> = Vec::new();
    let mut names: Vec<String> = Vec::new();
    let mut init = None;
    for (path, text) in tree {
        let Some(rest) = path.strip_prefix(&base) else { continue };
        let (name, is_dir) = match rest.split_once('/') {
            Some((name, _)) => (name.to_owned(), true),
            None => (rest.to_owned(), false),
        };
        if name.is_empty() {
            continue;
        }
        if name == "__init__.py" {
            init = Some(text.to_string());
        }
        if is_dir && !dirs.contains(&name) {
            dirs.push(name.clone());
        }
        if !names.contains(&name) {
            names.push(name);
        }
    }
    (dirs, names, init)
}

fn show(probe: &mut ModuleProbe, tree: &Tree<'_>, dir: &str) {
    let (dirs, names, init) = list(tree, dir);
    probe.add_listing(dir, dirs, names, init);
}

fn is_module(probe: &mut ModuleProbe, tree: &Tree<'_>, module: &str, name: &str) -> bool {
    loop {
        match probe.is_module(module, name) {
            Ok(answer) => return answer,
            Err(dir) => show(probe, tree, &dir),
        }
    }
}

fn check(probe: &mut ModuleProbe, tree: &Tree<'_>, module: &str, name: &str) -> ModuleCheck {
    loop {
        match probe.check(module, name) {
            Ok(answer) => return answer,
            Err(dir) => show(probe, tree, &dir),
        }
    }
}

fn probe_for(root: &str) -> ModuleProbe {
    ModuleProbe::new(vec![root.to_owned()])
}

#[test]
fn direct_submodule_found() {
    let tree = vec![("/t/mypkg/__init__.py", ""), ("/t/mypkg/utils.py", "")];
    let mut probe = probe_for("/t");
    assert!(is_module(&mut probe, &tree, "mypkg", "utils"));
    assert!(!is_module(&mut probe, &tree, "mypkg", "nonexistent"));
}

#[test]
fn init_reexport_module_recognised() {
    let tree = vec![
        ("/t/mypkg/__init__.py", "from mypkg import networking\n__all__ = ['networking']\n"),
        ("/t/mypkg/networking.py", ""),
    ];
    // Direct check: networking is a direct child — always true.
    assert!(is_module(&mut probe_for("/t"), &tree, "mypkg", "networking"));
}

#[test]
fn namespace_subpackage_directory_without_init_is_module() {
    // `from acme.framework.pytest.plugins.xcp import plugin` is valid when
    // `.../xcp/plugin/` exists as an implicit namespace package (no
    // `plugin/__init__.py`).
    let tree = vec![("/t/acme/framework/pytest/plugins/xcp/plugin/", "")];
    let mut probe = probe_for("/t");
    assert!(is_module(&mut probe, &tree, "acme.framework.pytest.plugins.xcp", "plugin"));
    assert_eq!(
        check(&mut probe, &tree, "acme.framework.pytest.plugins.xcp", "plugin"),
        ModuleCheck::Module
    );
}

#[test]
fn init_reexport_from_sibling_package() {
    let tree = vec![
        ("/t/pub/__init__.py", "from impl_pkg import networking\n__all__ = ['networking']\n"),
        ("/t/impl_pkg/__init__.py", ""),
        ("/t/impl_pkg/networking.py", ""),
    ];
    // networking lives under impl_pkg, not pub: the import chain is followed.
    assert!(is_module(&mut probe_for("/t"), &tree, "pub", "networking"));
}

#[test]
fn init_reexport_non_module_still_flagged() {
    let tree = vec![
        ("/t/pub/__init__.py", "from impl_pkg.core import SomeClass\n__all__ = ['SomeClass']\n"),
        ("/t/impl_pkg/__init__.py", ""),
    ];
    // SomeClass is not a module -- must remain false.
    assert!(!is_module(&mut probe_for("/t"), &tree, "pub", "SomeClass"));
}

#[test]
fn check_returns_not_module_when_package_installed() {
    let tree = vec![("/t/mypkg/__init__.py", ""), ("/t/mypkg/utils.py", "")];
    let mut probe = probe_for("/t");
    assert_eq!(check(&mut probe, &tree, "mypkg", "utils"), ModuleCheck::Module);
    assert_eq!(check(&mut probe, &tree, "mypkg", "nonexistent"), ModuleCheck::NotModule);
}

#[test]
fn check_returns_unknown_when_package_not_installed() {
    let mut probe = probe_for("/t");
    assert_eq!(check(&mut probe, &vec![], "requests", "models"), ModuleCheck::Unknown);
}

#[test]
fn circular_reexport_terminates() {
    // a/__init__.py re-exports x from b, b/__init__.py re-exports x from a.
    let tree = vec![
        ("/t/a/__init__.py", "from b import x\n"),
        ("/t/b/__init__.py", "from a import x\n"),
    ];
    let mut probe = probe_for("/t");
    assert!(!is_module(&mut probe, &tree, "a", "x"));
    assert!(!is_module(&mut probe, &tree, "b", "x"));
}

// ── env_fingerprint ────────────────────────────────────────────

#[test]
fn env_fingerprint_changes_when_a_sys_path_dir_is_touched() {
    let sys_path = vec!["/t".to_owned()];
    let before =
        env_fingerprint(&sys_path, &vec![Some(Modified { seconds: 1_700_000_000, nanoseconds: 5 })]);
    let after =
        env_fingerprint(&sys_path, &vec![Some(Modified { seconds: 9_999_999, nanoseconds: 0 })]);
    assert_ne!(
        before, after,
        "fingerprint must change when a sys.path directory's mtime changes"
    );
}

#[test]
fn env_fingerprint_stable_when_nothing_changes() {
    let sys_path = vec!["/t".to_owned()];
    let modified = vec![Some(Modified { seconds: 12, nanoseconds: 34 })];
    assert_eq!(env_fingerprint(&sys_path, &modified), env_fingerprint(&sys_path, &modified));
}

#[test]
fn env_fingerprint_tells_paths_apart() {
    let modified = vec![None];
    assert_ne!(
        env_fingerprint(&vec!["/t".to_owned()], &modified),
        env_fingerprint(&vec!["/u".to_owned()], &modified)
    );
}

#[test]
fn env_fingerprint_hashes_each_directory() {
    let mut hasher = SeaHasher::new();
    "\"/t\"".hash(&mut hasher);
    12i64.hash(&mut hasher);
    34u32.hash(&mut hasher);
    "\"/gone\"".hash(&mut hasher);
    "missing".hash(&mut hasher);
    let sys_path = vec!["/t".to_owned(), "/gone".to_owned()];
    let modified = vec![Some(Modified { seconds: 12, nanoseconds: 34 }), None];
    assert_eq!(env_fingerprint(&sys_path, &modified), hasher.finish());
}

// ── resolve_sys_path (empty-string / cwd handling) ──────────────

#[test]
fn resolve_sys_path_substitutes_empty_string_with_cwd() {
    // Python represents cwd as "" in sys.path; this must resolve to the
    // actual cwd rather than being dropped, otherwise namespace packages
    // rooted at the repo root (e.g. `tests/mocks` with no `__init__.py`)
    // are invisible to the probe.
    let raw = vec![
        "".to_owned(),
        "/usr/lib/python3.10".to_owned(),
        "/some/repo/root/src".to_owned(),
    ];
    let resolved = resolve_sys_path(&raw, Some("/some/repo/root"), false);
    assert_eq!(
        resolved,
        vec!["/some/repo/root", "/usr/lib/python3.10", "/some/repo/root/src"]
    );
}

#[test]
fn resolve_sys_path_drops_empty_string_when_cwd_unavailable() {
    let raw = vec!["".to_owned(), "/usr/lib/python3.10".to_owned()];
    let resolved = resolve_sys_path(&raw, None, false);
    assert_eq!(resolved, vec!["/usr/lib/python3.10"]);
}

#[test]
fn resolve_sys_path_adds_cwd_src_for_src_layout_projects() {
    let raw = vec!["".to_owned(), "/usr/lib/python3.10".to_owned()];
    let resolved = resolve_sys_path(&raw, Some("/t"), true);
    assert_eq!(resolved, vec!["/t", "/usr/lib/python3.10", "/t/src"]);
}

#[test]
fn src_directory_is_not_added_twice() {
    let raw = vec!["/t/src/".to_owned(), "".to_owned()];
    assert_eq!(resolve_sys_path(&raw, Some("/t"), true), vec!["/t/src/", "/t"]);
    assert!(is_same_path("/t/src/", "/t//src"));
    assert!(!is_same_path("/t/src", "t/src"));
}

#[test]
fn printed_search_path_is_read() {
    assert_eq!(
        read_sys_path("[\"\", \"/usr/lib/python3.10\"]\n"),
        Some(vec!["".to_owned(), "/usr/lib/python3.10".to_owned()])
    );
    assert_eq!(read_sys_path("Traceback"), None);
    assert_eq!(read_sys_path("[1]"), None);
}

#[test]
fn configured_roots_are_searched_last() {
    let paths = vec!["/usr/lib/python3.10".to_owned(), "/proj".to_owned()];
    let src = vec![".".to_owned(), "src".to_owned(), "src".to_owned(), "/opt/x".to_owned()];
    assert_eq!(
        add_roots(paths.clone(), &Some("/proj".to_owned()), &src),
        vec!["/usr/lib/python3.10", "/proj", "/proj/src", "/opt/x"]
    );
    assert_eq!(add_roots(paths.clone(), &None, &src), paths);
}

#[test]
fn cwd_namespace_package_found_via_resolved_empty_path_entry() {
    // `tests/mocks/mock_adb_server.py` is only reachable through the cwd ("")
    // entry of sys.path because `tests/mocks` has no `__init__.py` (implicit
    // namespace package).
    let tree = vec![("/t/tests/__init__.py", ""), ("/t/tests/mocks/mock_adb_server.py", "")];
    let sys_path = resolve_sys_path(&vec![String::new()], Some("/t"), false);
    let mut probe = ModuleProbe::new(sys_path);
    assert!(is_module(&mut probe, &tree, "tests.mocks", "mock_adb_server"));
}

#[test]
fn src_layout_project_module_is_found() {
    let tree = vec![
        ("/t/src/acme/framework/pytest/plugins/xcp/__init__.py", ""),
        ("/t/src/acme/framework/pytest/plugins/xcp/plugin.py", ""),
    ];
    let sys_path = resolve_sys_path(&vec![String::new()], Some("/t"), true);
    let mut probe = ModuleProbe::new(sys_path);
    assert!(is_module(&mut probe, &tree, "acme.framework.pytest.plugins.xcp", "plugin"));
    assert_eq!(
        check(&mut probe, &tree, "acme.framework.pytest.plugins.xcp", "plugin"),
        ModuleCheck::Module
    );
}

// ── what is asked and answered ──────────────────────────────────

#[test]
fn extension_modules_are_modules() {
    let tree = vec![("/t/pkg/fast.cpython-310-x86_64-linux-gnu.so", ""), ("/t/pkg/data.json", "")];
    let mut probe = probe_for("/t");
    assert!(is_module(&mut probe, &tree, "pkg", "fast"));
    assert!(!is_module(&mut probe, &tree, "pkg", "data"));
}

#[test]
fn reexport_under_another_name_is_followed() {
    let tree = vec![
        ("/t/pub/__init__.py", "from impl_pkg import networking as net\n"),
        ("/t/impl_pkg/networking.py", ""),
    ];
    let mut probe = probe_for("/t");
    assert!(is_module(&mut probe, &tree, "pub", "net"));
    assert!(!is_module(&mut probe, &tree, "pub", "networking"));
}

#[test]
fn a_cycle_beside_a_real_module_does_not_hide_it() {
    let tree = vec![
        ("/t/a/__init__.py", "from b import x\nfrom c import x\n"),
        ("/t/b/__init__.py", "from a import x\n"),
        ("/t/c/x.py", ""),
    ];
    let mut probe = probe_for("/t");
    assert!(is_module(&mut probe, &tree, "b", "x"));
    assert!(is_module(&mut probe, &tree, "a", "x"));
}

#[test]
fn a_directory_that_is_not_known_is_asked_for() {
    let mut probe = probe_for("/t");
    assert_eq!(probe.is_module("a.b", "c"), Err("/t/a/b".to_owned()));
    assert_eq!(probe.root_package_exists("a.b"), Err("/t".to_owned()));
}

#[test]
fn every_import_of_a_file_is_answered() {
    let source = "from os.path import join\nfrom pkg import utils\n";
    let asked = source_questions(source);
    assert!(asked.contains(&("os.path".to_owned(), "join".to_owned())));
    assert!(asked.contains(&("pkg".to_owned(), "utils".to_owned())));
    let tree = vec![("/t/os.py", ""), ("/t/pkg/utils.py", "")];
    let mut probe = probe_for("/t");
    let facts = loop {
        match resolve(&mut probe, &asked) {
            Ok(facts) => break facts,
            Err(dir) => show(&mut probe, &tree, &dir),
        }
    };
    assert_eq!(facts.check("os.path", "join"), ModuleCheck::NotModule);
    assert_eq!(facts.check("pkg", "utils"), ModuleCheck::Module);
    assert!(facts.is_module("pkg", "utils"));
}

#[test]
fn what_was_found_out_is_kept() {
    let tree = vec![("/t/pkg/utils.py", ""), ("/t/other/x.py", "")];
    let mut probe = probe_for("/t");
    assert!(is_module(&mut probe, &tree, "pkg", "utils"));
    assert!(!is_module(&mut probe, &tree, "pkg", "x"));
    assert_eq!(check(&mut probe, &tree, "pkg", "x"), ModuleCheck::NotModule);
    assert_eq!(check(&mut probe, &tree, "absent", "x"), ModuleCheck::Unknown);
    show(&mut probe, &tree, "/t/other");
    assert_eq!(probe.is_module("pkg", "utils"), Ok(true));
    assert_eq!(probe.is_module("pkg", "x"), Ok(false));
    assert_eq!(probe.is_module("other", "x"), Ok(true));
    assert_eq!(probe.root_package_exists("pkg.sub"), Ok(true));
    assert_eq!(probe.root_package_exists("absent.sub"), Ok(false));
    assert_eq!(probe.check("absent", "x"), Ok(ModuleCheck::Unknown));
}

#[test]
fn answers_for_different_names_are_kept_apart() {
    let tree = vec![("/t/a/b/c.py", "")];
    let mut probe = probe_for("/t");
    assert!(is_module(&mut probe, &tree, "a.b", "c"));
    assert!(!is_module(&mut probe, &tree, "a", "b.c"));
    assert!(!is_module(&mut probe, &tree, "c", "a.b"));
    assert!(is_module(&mut probe, &tree, "a.b", "c"));
}
