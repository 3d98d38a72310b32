//! What the imports of a module bind, and what a module exports.
use crate::edit::lemma_push_holds;
use crate::import_items::{
    assigns_all, body_size, exported, is_export, is_last_in, part_of, shares_body,
    tests_type_checking, under_type_checking,
};
use crate::imports::{
    alias_asname, alias_name, ambiguous, binding_of, bindings, dots, import_bindings, import_binds,
    is_import_alias, module_of, reached,
};
use crate::scope::is_stmt;
use crate::split::head_spec;
use crate::syntax::{Kind, NodeView};
use vstd::prelude::*;

verus! {

// ---------------------------------------------------------------------------
// Bindings
// ---------------------------------------------------------------------------

/// Whether the node at `a` imports `name`, and under which other name if any.
pub open spec fn imports_as(
    nodes: Seq<NodeView>,
    a: int,
    name: Seq<char>,
    asname: Option<Seq<char>>,
) -> bool {
    &&& 0 <= a < nodes.len()
    &&& nodes[a].kind == Kind::Alias
    &&& a + 1 < nodes.len() && nodes[a + 1].parent == a && nodes[a + 1].kind == Kind::Identifier
        && nodes[a + 1].text == name
    &&& match asname {
        Some(other) => a + 2 < nodes.len() && nodes[a + 2].parent == a && nodes[a + 2].kind
            == Kind::Identifier && nodes[a + 2].text == other,
        None => a + 2 >= nodes.len() || nodes[a + 2].parent != a || nodes[a + 2].kind
            != Kind::Identifier,
    }
}

proof fn lemma_bound(nodes: Seq<NodeView>, n: int, a: int)
    requires
        0 <= a < n,
        is_import_alias(nodes, a),
    ensures
        bindings(nodes, n).contains(binding_of(nodes, a)),
    decreases n,
{
    let b = binding_of(nodes, a);
    if a == n - 1 {
        lemma_push_holds(bindings(nodes, n - 1), b, b);
    } else {
        lemma_bound(nodes, n - 1, a);
        if is_import_alias(nodes, n - 1) {
            lemma_push_holds(bindings(nodes, n - 1), binding_of(nodes, n - 1), b);
        }
    }
}

proof fn lemma_binds(nodes: Seq<NodeView>, n: int, b: (Seq<char>, Seq<char>)) -> (a: int)
    requires
        bindings(nodes, n).contains(b),
    ensures
        0 <= a < n,
        is_import_alias(nodes, a),
        b == binding_of(nodes, a),
    decreases n,
{
    if is_import_alias(nodes, n - 1) && b == binding_of(nodes, n - 1) {
        n - 1
    } else {
        if is_import_alias(nodes, n - 1) {
            lemma_push_holds(bindings(nodes, n - 1), binding_of(nodes, n - 1), b);
        }
        lemma_binds(nodes, n - 1, b)
    }
}

/// An import of a module binds the first part of its path, or the name behind `as`.
pub proof fn law_module_imports_bind(
    nodes: Seq<NodeView>,
    a: int,
    name: Seq<char>,
    asname: Option<Seq<char>>,
)
    requires
        imports_as(nodes, a, name, asname),
        nodes[nodes[a].parent].kind == Kind::Import,
        reached(nodes, nodes[a].parent),
    ensures
        asname is None ==> import_bindings(nodes).contains((head_spec(name, '.'), name)),
        asname is Some ==> import_bindings(nodes).contains((asname->0, name)),
{
    lemma_bound(nodes, nodes.len() as int, a);
    assert(alias_name(nodes, a) == name);
    assert(alias_asname(nodes, a) == asname);
}

/// An import of a name from a module binds that name, or the one behind `as`; what it stands for is
/// told by the dots, the module and the name.
pub proof fn law_from_imports_bind(
    nodes: Seq<NodeView>,
    a: int,
    module: Seq<char>,
    name: Seq<char>,
    asname: Option<Seq<char>>,
)
    requires
        imports_as(nodes, a, name, asname),
        ({
            let s = nodes[a].parent;
            &&& nodes[s].kind == Kind::ImportFrom
            &&& reached(nodes, s)
            &&& 0 <= s + 1 < nodes.len()
            &&& nodes[s + 1].parent == s
            &&& nodes[s + 1].kind == Kind::Identifier
            &&& nodes[s + 1].text == module
        }),
    ensures
        ({
            let target = Seq::new(nodes[nodes[a].parent].level as nat, |i: int| '.') + module + "::"@
                + name;
            &&& asname is None ==> import_bindings(nodes).contains((name, target))
            &&& asname is Some ==> import_bindings(nodes).contains((asname->0, target))
        }),
{
    lemma_bound(nodes, nodes.len() as int, a);
    assert(alias_name(nodes, a) == name);
    assert(alias_asname(nodes, a) == asname);
    assert(module_of(nodes, nodes[a].parent) == Some(module));
    let level = nodes[nodes[a].parent].level;
    assert(dots(level) =~= Seq::new(level as nat, |i: int| '.'));
}

/// Nothing but an import that is looked at binds a name.
pub proof fn law_only_imports_bind(nodes: Seq<NodeView>, b: (Seq<char>, Seq<char>)) -> (a: int)
    requires
        import_bindings(nodes).contains(b),
    ensures
        0 <= a < nodes.len(),
        nodes[a].kind == Kind::Alias,
        nodes[nodes[a].parent].kind == Kind::Import || nodes[nodes[a].parent].kind
            == Kind::ImportFrom,
        reached(nodes, nodes[a].parent),
{
    lemma_binds(nodes, nodes.len() as int, b)
}

/// A name is ambiguous where two imports bind it to different things.
pub proof fn law_two_meanings_are_ambiguous(
    b: Seq<(Seq<char>, Seq<char>)>,
    name: Seq<char>,
    j: int,
    k: int,
)
    ensures
        0 <= j < b.len() && 0 <= k < b.len() && b[j].0 == name && b[k].0 == name && b[j].1 != b[k].1
            ==> ambiguous(b, name),
        ambiguous(b, name) ==> import_binds(b, name),
        (forall|i: int, l: int|
            0 <= i < b.len() && 0 <= l < b.len() && (#[trigger] b[i]).0 == name && (
            #[trigger] b[l]).0 == name ==> b[i].1 == b[l].1) ==> !ambiguous(b, name),
{
    if 0 <= j < b.len() && 0 <= k < b.len() && b[j].0 == name && b[k].0 == name && b[j].1 != b[k].1 {
        assert(crate::imports::binds_otherwise(b, name, b[j].1));
    }
}

// ---------------------------------------------------------------------------
// Exports
// ---------------------------------------------------------------------------

/// A text in the list or tuple that a statement of the module assigns or adds to `__all__` is a name
/// that the module exports.
pub proof fn law_listed_names_are_exported(nodes: Seq<NodeView>, s: int, t: int, v: int, e: int)
    requires
        0 <= s < nodes.len(),
        nodes[s].kind == Kind::Assign || nodes[s].kind == Kind::AugAssign,
        nodes[s].parent == 0,
        0 <= t < v < nodes.len(),
        nodes[t].parent == s,
        nodes[t].kind == Kind::Store || nodes[t].kind == Kind::Load,
        nodes[t].text == "__all__"@,
        nodes[v].parent == s,
        nodes[v].kind == Kind::List || nodes[v].kind == Kind::Tuple,
        forall|j: int| v < j < nodes.len() ==> (#[trigger] nodes[j]).parent != s,
        0 <= e < nodes.len(),
        nodes[e].parent == v,
        nodes[e].kind == Kind::Str,
    ensures
        exported(nodes, nodes[e].text),
{
    assert(assigns_all(nodes, s, v));
    assert(is_last_in(nodes, v, s));
    assert(is_export(nodes, e));
}

/// Only such texts are exported.
pub proof fn law_only_listed_names_are_exported(nodes: Seq<NodeView>, name: Seq<char>) -> (e: int)
    requires
        exported(nodes, name),
    ensures
        0 <= e < nodes.len(),
        nodes[e].kind == Kind::Str,
        nodes[e].text == name,
        ({
            let v = nodes[e].parent;
            let s = nodes[v].parent;
            &&& nodes[v].kind == Kind::List || nodes[v].kind == Kind::Tuple
            &&& nodes[s].kind == Kind::Assign || nodes[s].kind == Kind::AugAssign
            &&& nodes[s].parent == 0
            &&& exists|t: int|
                0 <= t < v && (#[trigger] nodes[t]).parent == s && nodes[t].text == "__all__"@
        }),
{
    let e = choose|e: int|
        0 <= e < nodes.len() && is_export(nodes, e) && (#[trigger] nodes[e]).text == name;
    let v = nodes[e].parent;
    let s = nodes[v].parent;
    let t = choose|t: int|
        0 <= t < v && (#[trigger] nodes[t]).parent == s && (nodes[t].kind == Kind::Store
            || nodes[t].kind == Kind::Load) && nodes[t].text == "__all__"@;
    assert(nodes[t].parent == s);
    e
}

// ---------------------------------------------------------------------------
// Blocks
// ---------------------------------------------------------------------------

/// A statement in the body of `if TYPE_CHECKING:` stands under it, and so does all that stands in
/// such a statement; what stands in no `if` of that kind does not.
pub proof fn law_type_checking_covers_its_body(nodes: Seq<NodeView>, i: int)
    requires
        0 < i < nodes.len(),
        0 <= nodes[i].parent < i,
    ensures
        ({
            let p = nodes[i].parent;
            &&& is_stmt(nodes[i].kind) && nodes[p].kind == Kind::If && p + 1 < nodes.len()
                && nodes[p + 1].parent == p && (nodes[p + 1].kind == Kind::Load || nodes[p + 1].kind
                == Kind::Attribute) && nodes[p + 1].text == "TYPE_CHECKING"@ ==> under_type_checking(
                nodes,
                i,
            )
            &&& under_type_checking(nodes, p) ==> under_type_checking(nodes, i)
            &&& under_type_checking(nodes, i) && !under_type_checking(nodes, p) ==> nodes[p].kind
                == Kind::If && nodes[p + 1].text == "TYPE_CHECKING"@
        }),
{
    assert(tests_type_checking(nodes, nodes[i].parent) ==> nodes[nodes[i].parent + 1].text
        == "TYPE_CHECKING"@);
}

/// The statements of a body are counted: those right inside the same node that stand before its
/// `else`, between `else` and `finally`, or behind `finally`, as the statement itself does.
pub proof fn law_statements_of_a_body_are_counted(nodes: Seq<NodeView>, i: int, n: int)
    requires
        0 <= n < nodes.len(),
    ensures
        body_size(nodes, i, 0) == 0,
        body_size(nodes, i, n + 1) == body_size(nodes, i, n) + if nodes[n].parent == nodes[i].parent
            && is_stmt(nodes[n].kind) && part_of(nodes, n) == part_of(nodes, i) {
            1int
        } else {
            0
        },
{
    assert(shares_body(nodes, n, i) == (nodes[n].parent == nodes[i].parent && is_stmt(nodes[n].kind)
        && part_of(nodes, n) == part_of(nodes, i)));
}

/// Which body a statement stands in is told by where the others begin.
pub proof fn law_bodies_are_told_apart(nodes: Seq<NodeView>, i: int)
    ensures
        ({
            let p = nodes[nodes[i].parent];
            &&& p.else_start is None && p.finally_start is None ==> part_of(nodes, i) == 0
            &&& p.else_start is Some && p.finally_start is None ==> part_of(nodes, i) == (
            if nodes[i].start < p.else_start->0 {
                0int
            } else {
                1
            })
            &&& p.else_start is None && p.finally_start is Some ==> part_of(nodes, i) == (
            if nodes[i].start < p.finally_start->0 {
                0int
            } else {
                2
            })
        }),
{
}

} // verus!
