//! What makes an imported name a module.
use crate::edit::lemma_push_holds;
use crate::import_laws::imports_as;
use crate::imports::{alias_asname, alias_name, local_name, module_of};
use crate::module_facts::ModuleCheck;
use crate::module_probe::{
    is_extension, is_reexport, listing_at, reexports_of, reexports_to, slashed, ListingView,
    ProbeView, ReexportView,
};
use crate::paths::{extension_of, joined};
use crate::split::head_spec;
use crate::syntax::{module_nodes, Kind, NodeView};
use vstd::prelude::*;

verus! {

// ---------------------------------------------------------------------------
// Where modules stand
// ---------------------------------------------------------------------------

/// Whether a file of this name is an extension module of the given name: the name, a dot, and
/// `so`, `pyd` or `dylib` at the end.
pub open spec fn is_extension_of(file: Seq<char>, name: Seq<char>) -> bool {
    (name + "."@).is_prefix_of(file) && (extension_of(file) == Some("so"@) || extension_of(file)
        == Some("pyd"@) || extension_of(file) == Some("dylib"@))
}

/// Whether the first listing of a directory shows a directory of the given name, a Python file of
/// that name, or an extension module.
pub open spec fn has_module(probe: ProbeView, dir: Seq<char>, name: Seq<char>) -> bool {
    exists|i: int|
        0 <= i < probe.listings.len() && (#[trigger] probe.listings[i]).path == dir && (forall|
            j: int,
        |
            0 <= j < i ==> (#[trigger] probe.listings[j]).path != dir) && (
        probe.listings[i].dirs.contains(name) || probe.listings[i].names.contains(name + ".py"@)
            || exists|k: int|
            0 <= k < probe.listings[i].names.len() && is_extension_of(
                #[trigger] probe.listings[i].names[k],
                name,
            ))
}

proof fn lemma_listing_at(listings: Seq<ListingView>, dir: Seq<char>)
    ensures
        match listing_at(listings, dir) {
            Some(l) => exists|i: int|
                0 <= i < listings.len() && #[trigger] listings[i] == l && l.path == dir && forall|
                    j: int,
                |
                    0 <= j < i ==> (#[trigger] listings[j]).path != dir,
            None => forall|j: int| 0 <= j < listings.len() ==> (#[trigger] listings[j]).path != dir,
        },
    decreases listings.len(),
{
    if listings.len() > 0 {
        let rest = listings.drop_last();
        lemma_listing_at(rest, dir);
        match listing_at(rest, dir) {
            Some(l) => {
                let i = choose|i: int|
                    0 <= i < rest.len() && #[trigger] rest[i] == l && l.path == dir && forall|j: int|
                        0 <= j < i ==> (#[trigger] rest[j]).path != dir;
                assert(listings[i] == l);
                assert forall|j: int| 0 <= j < i implies (#[trigger] listings[j]).path != dir by {
                    assert(rest[j].path != dir);
                }
            },
            None => {
                let n = listings.len() - 1;
                assert forall|j: int| 0 <= j < n implies (#[trigger] listings[j]).path != dir by {
                    assert(rest[j].path != dir);
                }
                if listings.last().path == dir {
                    assert(listings[n] == listings.last());
                }
            },
        }
    }
}

proof fn lemma_shows(l: ListingView, name: Seq<char>)
    ensures
        l.shows(name) <==> l.dirs.contains(name) || l.names.contains(name + ".py"@) || exists|k: int|
            0 <= k < l.names.len() && is_extension_of(#[trigger] l.names[k], name),
{
    if exists|j: int|
        0 <= j < l.names.len() && (name + "."@).is_prefix_of(#[trigger] l.names[j]) && is_extension(
            l.names[j],
        ) {
        let j = choose|j: int|
            0 <= j < l.names.len() && (name + "."@).is_prefix_of(#[trigger] l.names[j])
                && is_extension(l.names[j]);
        assert(is_extension_of(l.names[j], name));
    }
    if exists|k: int| 0 <= k < l.names.len() && is_extension_of(#[trigger] l.names[k], name) {
        let k = choose|k: int| 0 <= k < l.names.len() && is_extension_of(#[trigger] l.names[k], name);
        assert(is_extension(l.names[k]));
    }
}

proof fn lemma_holds(probe: ProbeView, dir: Seq<char>, name: Seq<char>)
    ensures
        probe.holds(dir, name) == has_module(probe, dir, name),
{
    lemma_listing_at(probe.listings, dir);
    match listing_at(probe.listings, dir) {
        Some(l) => {
            let i = choose|i: int|
                0 <= i < probe.listings.len() && #[trigger] probe.listings[i] == l && l.path == dir
                    && forall|j: int| 0 <= j < i ==> (#[trigger] probe.listings[j]).path != dir;
            lemma_shows(l, name);
            assert(probe.listings[i].path == dir);
            if has_module(probe, dir, name) {
                let n = choose|n: int|
                    0 <= n < probe.listings.len() && (#[trigger] probe.listings[n]).path == dir && (
                    forall|j: int| 0 <= j < n ==> (#[trigger] probe.listings[j]).path != dir) && (
                    probe.listings[n].dirs.contains(name) || probe.listings[n].names.contains(
                        name + ".py"@,
                    ) || exists|k: int|
                        0 <= k < probe.listings[n].names.len() && is_extension_of(
                            #[trigger] probe.listings[n].names[k],
                            name,
                        ));
                if n < i {
                    assert(probe.listings[n].path != dir);
                } else if i < n {
                    assert(probe.listings[i].path != dir);
                }
            }
        },
        None => {},
    }
}

/// The path of a dotted module: each dot a slash.
pub open spec fn is_path_of(path: Seq<char>, module: Seq<char>) -> bool {
    path.len() == module.len() && forall|i: int|
        0 <= i < module.len() ==> #[trigger] path[i] == if module[i] == '.' {
            '/'
        } else {
            module[i]
        }
}

/// A name stands where its module says exactly where the directory of the module, below some entry
/// of the search path, shows a module of that name. Every entry counts.
pub proof fn law_modules_stand_below_the_search_path(
    probe: ProbeView,
    module: Seq<char>,
    name: Seq<char>,
    path: Seq<char>,
)
    requires
        is_path_of(path, module),
    ensures
        probe.direct(module, name) <==> exists|b: int|
            0 <= b < probe.sys_path.len() && has_module(
                probe,
                joined(#[trigger] probe.sys_path[b], path),
                name,
            ),
{
    assert(slashed(module) =~= path);
    assert forall|b: int| 0 <= b < probe.sys_path.len() implies probe.holds(
        #[trigger] probe.dir_of(b, module),
        name,
    ) == has_module(probe, joined(probe.sys_path[b], path), name) by {
        lemma_holds(probe, probe.dir_of(b, module), name);
    }
    if probe.direct(module, name) {
        let b = choose|b: int|
            0 <= b < probe.sys_path.len() && probe.holds(#[trigger] probe.dir_of(b, module), name);
        assert(has_module(probe, joined(probe.sys_path[b], path), name));
    }
    if exists|b: int|
        0 <= b < probe.sys_path.len() && has_module(
            probe,
            joined(#[trigger] probe.sys_path[b], path),
            name,
        ) {
        let b = choose|b: int|
            0 <= b < probe.sys_path.len() && has_module(
                probe,
                joined(#[trigger] probe.sys_path[b], path),
                name,
            );
        assert(probe.holds(probe.dir_of(b, module), name));
    }
}

// ---------------------------------------------------------------------------
// Re-exports
// ---------------------------------------------------------------------------

/// Whether the `__init__.py` of a module, below some entry of the search path, imports something
/// under a name.
pub open spec fn binds_in(
    probe: ProbeView,
    e: ReexportView,
    module: Seq<char>,
    name: Seq<char>,
) -> bool {
    e.local == name && exists|b: int|
        0 <= b < probe.sys_path.len() && joined(#[trigger] probe.sys_path[b], slashed(module))
            == e.dir
}

proof fn lemma_binds_in(probe: ProbeView, e: ReexportView, module: Seq<char>, name: Seq<char>)
    ensures
        probe.applies(e, module, name) == binds_in(probe, e, module, name),
{
    if probe.applies(e, module, name) {
        let b = choose|b: int|
            0 <= b < probe.sys_path.len() && #[trigger] probe.dir_of(b, module) == e.dir;
        assert(joined(probe.sys_path[b], slashed(module)) == e.dir);
    }
    if binds_in(probe, e, module, name) {
        let b = choose|b: int|
            0 <= b < probe.sys_path.len() && joined(#[trigger] probe.sys_path[b], slashed(module))
                == e.dir;
        assert(probe.dir_of(b, module) == e.dir);
    }
}

/// A name is a module exactly where it stands where its module says, or where the module's
/// `__init__.py` imports under that name what is a module.
pub proof fn law_reexported_modules_are_modules(
    probe: ProbeView,
    module: Seq<char>,
    name: Seq<char>,
)
    ensures
        probe.is_module(module, name) <==> probe.direct(module, name) || exists|i: int|
            0 <= i < probe.reexports.len() && binds_in(
                probe,
                #[trigger] probe.reexports[i],
                module,
                name,
            ) && probe.is_module(probe.reexports[i].module, probe.reexports[i].name),
{
    if probe.direct(module, name) {
        let none = Seq::<int>::empty();
        assert(probe.is_chain(module, name, none));
        assert(probe.end_of(module, name, none, none.len() as int) == (module, name));
        assert(probe.leads(module, name, (module, name)));
    }
    if exists|i: int|
        0 <= i < probe.reexports.len() && binds_in(
            probe,
            #[trigger] probe.reexports[i],
            module,
            name,
        ) && probe.is_module(probe.reexports[i].module, probe.reexports[i].name) {
        let i = choose|i: int|
            0 <= i < probe.reexports.len() && binds_in(
                probe,
                #[trigger] probe.reexports[i],
                module,
                name,
            ) && probe.is_module(probe.reexports[i].module, probe.reexports[i].name);
        let e = probe.reexports[i];
        lemma_binds_in(probe, e, module, name);
        let end = choose|end: (Seq<char>, Seq<char>)|
            #[trigger] probe.leads(e.module, e.name, end) && probe.direct(end.0, end.1);
        let chain = choose|chain: Seq<int>|
            probe.is_chain(e.module, e.name, chain) && #[trigger] probe.end_of(
                e.module,
                e.name,
                chain,
                chain.len() as int,
            ) == end;
        let longer = seq![i] + chain;
        assert forall|k: int| 0 <= k < longer.len() implies 0 <= #[trigger] longer[k]
            < probe.reexports.len() && probe.applies(
            probe.reexports[longer[k]],
            probe.end_of(module, name, longer, k).0,
            probe.end_of(module, name, longer, k).1,
        ) by {
            if k > 0 {
                assert(longer[k] == chain[k - 1]);
                assert(0 <= chain[k - 1] < probe.reexports.len());
                if k > 1 {
                    assert(longer[k - 1] == chain[k - 2]);
                } else {
                    assert(longer[0] == i);
                }
                assert(probe.end_of(module, name, longer, k) == probe.end_of(
                    e.module,
                    e.name,
                    chain,
                    k - 1,
                ));
            }
        }
        assert(probe.end_of(module, name, longer, longer.len() as int) == end) by {
            if chain.len() > 0 {
                assert(longer[longer.len() - 1] == chain[chain.len() - 1]);
            } else {
                assert(longer[0] == i);
            }
        }
        assert(probe.leads(module, name, end));
    }
    if probe.is_module(module, name) && !probe.direct(module, name) {
        let end = choose|end: (Seq<char>, Seq<char>)|
            #[trigger] probe.leads(module, name, end) && probe.direct(end.0, end.1);
        let chain = choose|chain: Seq<int>|
            probe.is_chain(module, name, chain) && #[trigger] probe.end_of(
                module,
                name,
                chain,
                chain.len() as int,
            ) == end;
        assert(chain.len() > 0);
        let i = chain[0];
        let e = probe.reexports[i];
        assert(probe.applies(e, module, name));
        lemma_binds_in(probe, e, module, name);
        let rest = chain.skip(1);
        assert forall|k: int| 0 <= k < rest.len() implies 0 <= #[trigger] rest[k]
            < probe.reexports.len() && probe.applies(
            probe.reexports[rest[k]],
            probe.end_of(e.module, e.name, rest, k).0,
            probe.end_of(e.module, e.name, rest, k).1,
        ) by {
            assert(rest[k] == chain[k + 1]);
            assert(0 <= chain[k + 1] < probe.reexports.len());
            if k > 0 {
                assert(rest[k - 1] == chain[k]);
            }
            assert(probe.end_of(e.module, e.name, rest, k) == probe.end_of(
                module,
                name,
                chain,
                k + 1,
            ));
        }
        assert(probe.end_of(e.module, e.name, rest, rest.len() as int) == end) by {
            if rest.len() > 0 {
                assert(rest[rest.len() - 1] == chain[chain.len() - 1]);
            }
        }
        assert(probe.leads(e.module, e.name, end));
        assert(probe.is_module(e.module, e.name));
        assert(probe.reexports[i] == e);
    }
}

/// What is known of a name: that it is a module where it is one, that it is none where the
/// outermost package is found on the search path, and else nothing.
pub proof fn law_a_name_is_no_module_where_its_package_is_found(
    probe: ProbeView,
    module: Seq<char>,
    name: Seq<char>,
)
    ensures
        ({
            let found = exists|b: int|
                0 <= b < probe.sys_path.len() && has_module(
                    probe,
                    #[trigger] probe.sys_path[b],
                    head_spec(module, '.'),
                );
            &&& probe.verdict(module, name) == ModuleCheck::Module <==> probe.is_module(module, name)
            &&& probe.verdict(module, name) == ModuleCheck::NotModule <==> !probe.is_module(
                module,
                name,
            ) && found
            &&& probe.verdict(module, name) == ModuleCheck::Unknown <==> !probe.is_module(
                module,
                name,
            ) && !found
        }),
{
    let root = head_spec(module, '.');
    assert forall|b: int| 0 <= b < probe.sys_path.len() implies probe.holds(
        #[trigger] probe.sys_path[b],
        root,
    ) == has_module(probe, probe.sys_path[b], root) by {
        lemma_holds(probe, probe.sys_path[b], root);
    }
    if probe.root_found(root) {
        let b = choose|b: int|
            0 <= b < probe.sys_path.len() && probe.holds(#[trigger] probe.sys_path[b], root);
        assert(has_module(probe, probe.sys_path[b], root));
    }
    if exists|b: int|
        0 <= b < probe.sys_path.len() && has_module(probe, #[trigger] probe.sys_path[b], root) {
        let b = choose|b: int|
            0 <= b < probe.sys_path.len() && has_module(probe, #[trigger] probe.sys_path[b], root);
        assert(probe.holds(probe.sys_path[b], root));
    }
}

// ---------------------------------------------------------------------------
// Re-exports
// ---------------------------------------------------------------------------

proof fn lemma_reexported(dir: Seq<char>, nodes: Seq<NodeView>, n: int, a: int)
    requires
        0 <= a < n,
        is_reexport(nodes, a),
    ensures
        reexports_to(dir, nodes, n).contains(
            ReexportView {
                dir,
                local: local_name(nodes, a),
                module: module_of(nodes, nodes[a].parent)->0,
                name: alias_name(nodes, a),
            },
        ),
    decreases n,
{
    let e = ReexportView {
        dir,
        local: local_name(nodes, a),
        module: module_of(nodes, nodes[a].parent)->0,
        name: alias_name(nodes, a),
    };
    let before = reexports_to(dir, nodes, n - 1);
    if a == n - 1 {
        lemma_push_holds(before, e, e);
    } else {
        lemma_reexported(dir, nodes, n - 1, a);
        if is_reexport(nodes, n - 1) {
            lemma_push_holds(before, reexports_to(dir, nodes, n).last(), e);
            assert(reexports_to(dir, nodes, n) =~= before.push(reexports_to(dir, nodes, n).last()));
        }
    }
}

/// Every name that an `__init__.py` imports from an absolute module, right in the file, is a
/// re-export: under its own name or the one behind `as`.
pub proof fn law_imports_of_a_package_are_reexports(
    dir: Seq<char>,
    source: Seq<char>,
    a: int,
    module: Seq<char>,
    name: Seq<char>,
    asname: Option<Seq<char>>,
)
    requires
        imports_as(module_nodes(source), a, name, asname),
        ({
            let nodes = module_nodes(source);
            let s = nodes[a].parent;
            &&& nodes[s].kind == Kind::ImportFrom
            &&& nodes[s].parent == 0
            &&& nodes[s].level == 0
            &&& 0 <= s + 1 < nodes.len()
            &&& nodes[s + 1].parent == s
            &&& nodes[s + 1].kind == Kind::Identifier
            &&& nodes[s + 1].text == module
        }),
    ensures
        reexports_of(dir, Some(source)).contains(
            ReexportView {
                dir,
                local: match asname {
                    Some(other) => other,
                    None => name,
                },
                module,
                name,
            },
        ),
{
    let nodes = module_nodes(source);
    assert(alias_name(nodes, a) == name);
    assert(alias_asname(nodes, a) == asname);
    assert(module_of(nodes, nodes[a].parent) == Some(module));
    lemma_reexported(dir, nodes, nodes.len() as int, a);
}

/// Nothing else is a re-export, and without an `__init__.py` there is none.
pub proof fn law_only_imports_of_a_package_are_reexports(
    dir: Seq<char>,
    source: Seq<char>,
    e: ReexportView,
) -> (a: int)
    requires
        reexports_of(dir, Some(source)).contains(e),
    ensures
        0 <= a < module_nodes(source).len(),
        ({
            let nodes = module_nodes(source);
            let s = nodes[a].parent;
            &&& nodes[a].kind == Kind::Alias
            &&& nodes[s].kind == Kind::ImportFrom
            &&& nodes[s].parent == 0
            &&& nodes[s].level == 0
            &&& nodes[s + 1].text == e.module
        }),
        e.dir == dir,
        reexports_of(dir, None).len() == 0,
{
    lemma_is_reexport(dir, module_nodes(source), module_nodes(source).len() as int, e)
}

proof fn lemma_is_reexport(dir: Seq<char>, nodes: Seq<NodeView>, n: int, e: ReexportView) -> (a: int)
    requires
        reexports_to(dir, nodes, n).contains(e),
    ensures
        0 <= a < n,
        is_reexport(nodes, a),
        e.dir == dir,
        e.module == nodes[nodes[a].parent + 1].text,
    decreases n,
{
    let before = reexports_to(dir, nodes, n - 1);
    let all = reexports_to(dir, nodes, n);
    if is_reexport(nodes, n - 1) {
        lemma_push_holds(before, all.last(), e);
        assert(all =~= before.push(all.last()));
        if all.last() == e {
            n - 1
        } else {
            lemma_is_reexport(dir, nodes, n - 1, e)
        }
    } else {
        lemma_is_reexport(dir, nodes, n - 1, e)
    }
}

} // verus!
