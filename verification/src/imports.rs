//! The import statements of a module.
use crate::noqa::pairs;
use crate::split::{head, head_spec};
use crate::syntax::{views, well_formed, Kind, Node, NodeView};
use crate::text::eq;
use crate::types::opt;
use vstd::prelude::*;
use vstd::string::*;

verus! {

/// Whether imports are looked for among the statements of a node: the module, a function, a class
/// or any other statement that has a body, and its clauses.
pub open spec fn holds_imports(k: Kind) -> bool {
    k == Kind::Module || k == Kind::If || k == Kind::ElifElse || k == Kind::FunctionDef || k
        == Kind::ClassDef || k == Kind::Try || k == Kind::Handler || k == Kind::For || k
        == Kind::While || k == Kind::With || k == Kind::Match || k == Kind::Case
}

/// Whether imports are looked for among the statements of a node.
fn kind_holds_imports(k: Kind) -> (r: bool)
    ensures
        r == holds_imports(k),
{
    k == Kind::Module || k == Kind::If || k == Kind::ElifElse || k == Kind::FunctionDef || k
        == Kind::ClassDef || k == Kind::Try || k == Kind::Handler || k == Kind::For || k
        == Kind::While || k == Kind::With || k == Kind::Match || k == Kind::Case
}

/// Whether every node around a node is one that imports are looked for in.
pub open spec fn reached(nodes: Seq<NodeView>, i: int) -> bool
    decreases i,
{
    if 0 < i && 0 <= nodes[i].parent < i {
        holds_imports(nodes[nodes[i].parent].kind) && reached(nodes, nodes[i].parent)
    } else {
        true
    }
}

/// Whether the node at `j` stands right inside the node at `i` and is an identifier.
pub open spec fn identifier_in(nodes: Seq<NodeView>, j: int, i: int) -> bool {
    0 <= j < nodes.len() && nodes[j].parent == i && nodes[j].kind == Kind::Identifier
}

/// The module that a `from` import names; `None` for `from . import x`.
pub open spec fn module_of(nodes: Seq<NodeView>, i: int) -> Option<Seq<char>> {
    if identifier_in(nodes, i + 1, i) {
        Some(nodes[i + 1].text)
    } else {
        None
    }
}

/// The name that an alias imports.
pub open spec fn alias_name(nodes: Seq<NodeView>, a: int) -> Seq<char> {
    if identifier_in(nodes, a + 1, a) {
        nodes[a + 1].text
    } else {
        Seq::empty()
    }
}

/// The name behind the `as` of an alias.
pub open spec fn alias_asname(nodes: Seq<NodeView>, a: int) -> Option<Seq<char>> {
    if identifier_in(nodes, a + 2, a) {
        Some(nodes[a + 2].text)
    } else {
        None
    }
}

/// The name that an alias of a `from` import binds.
pub open spec fn local_name(nodes: Seq<NodeView>, a: int) -> Seq<char> {
    match alias_asname(nodes, a) {
        Some(asname) => asname,
        None => alias_name(nodes, a),
    }
}

/// The statement that an alias belongs to.
pub open spec fn statement_of(nodes: Seq<NodeView>, a: int) -> NodeView {
    nodes[nodes[a].parent]
}

/// Whether a node is an alias of an import that is looked at.
pub open spec fn is_import_alias(nodes: Seq<NodeView>, a: int) -> bool {
    let s = statement_of(nodes, a);
    nodes[a].kind == Kind::Alias && (s.kind == Kind::Import || s.kind == Kind::ImportFrom) && reached(
        nodes,
        nodes[a].parent,
    )
}

/// `n` dots.
pub open spec fn dots(n: int) -> Seq<char> {
    Seq::new(n as nat, |i: int| '.')
}

/// The name that an alias binds, and what it is imported from.
pub open spec fn binding_of(nodes: Seq<NodeView>, a: int) -> (Seq<char>, Seq<char>) {
    let s = statement_of(nodes, a);
    if s.kind == Kind::ImportFrom {
        let module = match module_of(nodes, nodes[a].parent) {
            Some(module) => module,
            None => Seq::empty(),
        };
        (local_name(nodes, a), dots(s.level) + module + "::"@ + alias_name(nodes, a))
    } else {
        (
            match alias_asname(nodes, a) {
                Some(asname) => asname,
                None => head_spec(alias_name(nodes, a), '.'),
            },
            alias_name(nodes, a),
        )
    }
}

/// What the imports among the first `n` nodes bind, in source order.
pub open spec fn bindings(nodes: Seq<NodeView>, n: int) -> Seq<(Seq<char>, Seq<char>)>
    decreases n,
{
    if n <= 0 {
        Seq::empty()
    } else {
        let before = bindings(nodes, n - 1);
        if is_import_alias(nodes, n - 1) {
            before.push(binding_of(nodes, n - 1))
        } else {
            before
        }
    }
}

/// What the imports of a module bind.
pub open spec fn import_bindings(nodes: Seq<NodeView>) -> Seq<(Seq<char>, Seq<char>)> {
    bindings(nodes, nodes.len() as int)
}

/// Whether some import binds `name`.
pub open spec fn import_binds(b: Seq<(Seq<char>, Seq<char>)>, name: Seq<char>) -> bool {
    exists|j: int| 0 <= j < b.len() && (#[trigger] b[j]).0 == name
}

/// Whether some import binds `name` to something other than `target`.
pub open spec fn binds_otherwise(
    b: Seq<(Seq<char>, Seq<char>)>,
    name: Seq<char>,
    target: Seq<char>,
) -> bool {
    exists|j: int| 0 <= j < b.len() && (#[trigger] b[j]).0 == name && b[j].1 != target
}

/// Whether imports bind `name` to different things.
pub open spec fn ambiguous(b: Seq<(Seq<char>, Seq<char>)>, name: Seq<char>) -> bool {
    exists|j: int| 0 <= j < b.len() && (#[trigger] b[j]).0 == name && binds_otherwise(b, name, b[j].1)
}

// ---------------------------------------------------------------------------
// Reading the outline
// ---------------------------------------------------------------------------

/// For each node, whether imports are looked for where it stands.
pub fn reached_nodes(nodes: &Vec<Node>) -> (r: Vec<bool>)
    requires
        well_formed(views(nodes@)),
    ensures
        r@.len() == nodes@.len(),
        forall|i: int| 0 <= i < r@.len() ==> #[trigger] r@[i] == reached(views(nodes@), i),
{
    let ghost all = views(nodes@);
    let mut out: Vec<bool> = Vec::new();
    let mut i: usize = 0;
    while i < nodes.len()
        invariant
            i <= nodes@.len(),
            all == views(nodes@),
            well_formed(all),
            out@.len() == i,
            forall|j: int| 0 <= j < i ==> #[trigger] out@[j] == reached(all, j),
        decreases nodes@.len() - i,
    {
        assert(all[i as int] == nodes@[i as int]@);
        let here = if i > 0 {
            let p: usize = nodes[i].parent;
            assert(all[i as int].parent < i);
            assert(all[p as int] == nodes@[p as int]@);
            kind_holds_imports(nodes[p].kind) && out[p]
        } else {
            true
        };
        out.push(here);
        i += 1;
    }
    out
}

/// The text of the identifier at `j`, where it stands right inside the node at `i`.
pub fn identifier_at(nodes: &Vec<Node>, j: usize, i: usize) -> (r: Option<String>)
    requires
        i < nodes@.len(),
    ensures
        match r {
            Some(text) => identifier_in(views(nodes@), j as int, i as int) && text@ == views(
                nodes@,
            )[j as int].text,
            None => !identifier_in(views(nodes@), j as int, i as int),
        },
{
    if j >= nodes.len() {
        return None;
    }
    assert(views(nodes@)[j as int] == nodes@[j as int]@);
    if nodes[j].parent == i && nodes[j].kind == Kind::Identifier {
        Some(nodes[j].text.clone())
    } else {
        None
    }
}

/// The module that a `from` import names.
pub fn read_module(nodes: &Vec<Node>, i: usize) -> (r: Option<String>)
    requires
        i < nodes@.len(),
    ensures
        opt(r) == module_of(views(nodes@), i as int),
{
    if nodes.len() - i <= 1 {
        return None;
    }
    identifier_at(nodes, i + 1, i)
}

/// The name that an alias imports.
pub fn read_name(nodes: &Vec<Node>, a: usize) -> (r: String)
    requires
        a < nodes@.len(),
    ensures
        r@ == alias_name(views(nodes@), a as int),
{
    if nodes.len() - a <= 1 {
        return String::new();
    }
    match identifier_at(nodes, a + 1, a) {
        Some(name) => name,
        None => String::new(),
    }
}

/// The name behind the `as` of an alias.
pub fn read_asname(nodes: &Vec<Node>, a: usize) -> (r: Option<String>)
    requires
        a < nodes@.len(),
    ensures
        opt(r) == alias_asname(views(nodes@), a as int),
{
    if nodes.len() - a <= 2 {
        return None;
    }
    identifier_at(nodes, a + 2, a)
}

/// `n` dots.
pub fn write_dots(n: u32) -> (r: String)
    ensures
        r@ == dots(n as int),
{
    let mut out = String::new();
    let mut i: u32 = 0;
    assert(dots(0) =~= Seq::empty());
    while i < n
        invariant
            i <= n,
            out@ == dots(i as int),
        decreases n - i,
    {
        out.push('.');
        assert(dots(i + 1) =~= dots(i as int).push('.'));
        i += 1;
    }
    out
}

/// Every name that an import binds, with what it is imported from.
pub fn collect_import_bindings(nodes: &Vec<Node>) -> (r: Vec<(String, String)>)
    requires
        well_formed(views(nodes@)),
    ensures
        pairs(r@) == import_bindings(views(nodes@)),
{
    let ghost all = views(nodes@);
    let visible = reached_nodes(nodes);
    let mut out: Vec<(String, String)> = Vec::new();
    let mut i: usize = 0;
    assert(pairs(out@) =~= Seq::empty());
    while i < nodes.len()
        invariant
            i <= nodes@.len(),
            all == views(nodes@),
            well_formed(all),
            visible@.len() == nodes@.len(),
            forall|j: int| 0 <= j < visible@.len() ==> #[trigger] visible@[j] == reached(all, j),
            pairs(out@) == bindings(all, i as int),
        decreases nodes@.len() - i,
    {
        assert(all[i as int] == nodes@[i as int]@);
        assert(all[i as int].parent <= i);
        let p: usize = nodes[i].parent;
        assert(all[p as int] == nodes@[p as int]@);
        let k = nodes[p].kind;
        let ghost before = out@;
        if nodes[i].kind == Kind::Alias && (k == Kind::Import || k == Kind::ImportFrom)
            && visible[p] {
            let name = read_name(nodes, i);
            let asname = read_asname(nodes, i);
            let found: (String, String) = if k == Kind::ImportFrom {
                let mut target = write_dots(nodes[p].level);
                match read_module(nodes, p) {
                    Some(module) => {
                        target.append(module.as_str());
                    },
                    None => {
                        assert(target@ + Seq::empty() =~= target@);
                    },
                }
                target.append("::");
                target.append(name.as_str());
                let local = match asname {
                    Some(asname) => asname,
                    None => name,
                };
                (local, target)
            } else {
                let local = match asname {
                    Some(asname) => asname,
                    None => head(name.as_str(), '.'),
                };
                (local, name)
            };
            out.push(found);
            assert(pairs(out@) =~= pairs(before).push((found.0@, found.1@)));
        }
        i += 1;
    }
    out
}

/// Whether some import binds `name`.
pub fn is_import_bound(b: &Vec<(String, String)>, name: &str) -> (r: bool)
    ensures
        r == import_binds(pairs(b@), name@),
{
    let mut i: usize = 0;
    while i < b.len()
        invariant
            i <= b@.len(),
            forall|j: int| 0 <= j < i ==> (#[trigger] pairs(b@)[j]).0 != name@,
        decreases b@.len() - i,
    {
        assert(pairs(b@)[i as int] == (b@[i as int].0@, b@[i as int].1@));
        if eq(b[i].0.as_str(), name) {
            return true;
        }
        i += 1;
    }
    assert(pairs(b@).len() == b@.len());
    false
}

/// Whether some import binds `name` to something other than `target`.
pub fn is_bound_otherwise(b: &Vec<(String, String)>, name: &str, target: &str) -> (r: bool)
    ensures
        r == binds_otherwise(pairs(b@), name@, target@),
{
    let mut i: usize = 0;
    while i < b.len()
        invariant
            i <= b@.len(),
            forall|j: int|
                0 <= j < i ==> !((#[trigger] pairs(b@)[j]).0 == name@ && pairs(b@)[j].1 != target@),
        decreases b@.len() - i,
    {
        assert(pairs(b@)[i as int] == (b@[i as int].0@, b@[i as int].1@));
        if eq(b[i].0.as_str(), name) && !eq(b[i].1.as_str(), target) {
            return true;
        }
        i += 1;
    }
    assert(pairs(b@).len() == b@.len());
    false
}

/// Whether imports bind `name` to different things.
pub fn is_ambiguous(b: &Vec<(String, String)>, name: &str) -> (r: bool)
    ensures
        r == ambiguous(pairs(b@), name@),
{
    let mut i: usize = 0;
    while i < b.len()
        invariant
            i <= b@.len(),
            forall|j: int|
                0 <= j < i ==> !((#[trigger] pairs(b@)[j]).0 == name@ && binds_otherwise(
                    pairs(b@),
                    name@,
                    pairs(b@)[j].1,
                )),
        decreases b@.len() - i,
    {
        assert(pairs(b@)[i as int] == (b@[i as int].0@, b@[i as int].1@));
        if eq(b[i].0.as_str(), name) && is_bound_otherwise(b, name, b[i].1.as_str()) {
            return true;
        }
        i += 1;
    }
    assert(pairs(b@).len() == b@.len());
    false
}

} // verus!
