//! Which names a module binds, and where: at module level or inside a function or class.
use crate::syntax::{views, well_formed, Kind, Node, NodeView};
use crate::text::{eq, strs};
use vstd::prelude::*;

verus! {

// ---------------------------------------------------------------------------
// Where a node stands
// ---------------------------------------------------------------------------

/// Whether a node is a function or a class.
pub open spec fn is_def(k: Kind) -> bool {
    k == Kind::FunctionDef || k == Kind::ClassDef
}

/// Whether a node is a statement whose names are bound as a whole: one that holds no statements.
pub open spec fn is_simple(k: Kind) -> bool {
    k == Kind::Import || k == Kind::ImportFrom || k == Kind::Assign || k == Kind::AugAssign || k
        == Kind::Statement
}

/// Whether a node is a statement.
pub open spec fn is_stmt(k: Kind) -> bool {
    is_def(k) || is_simple(k) || k == Kind::If || k == Kind::For || k == Kind::While || k
        == Kind::With || k == Kind::Match || k == Kind::Try || k == Kind::Global || k
        == Kind::Nonlocal
}

/// The outermost function or class that holds a node, the node itself included; `None` at module
/// level.
pub open spec fn outer_def(nodes: Seq<NodeView>, i: int) -> Option<int>
    decreases i,
{
    let own = if is_def(nodes[i].kind) {
        Some(i)
    } else {
        None
    };
    if 0 < i && 0 <= nodes[i].parent < i {
        match outer_def(nodes, nodes[i].parent) {
            Some(d) => Some(d),
            None => own,
        }
    } else {
        own
    }
}

/// The kind of the node right around a node.
pub open spec fn parent_kind(nodes: Seq<NodeView>, i: int) -> Kind {
    nodes[nodes[i].parent].kind
}

/// Whether a name that stands right inside a node of this kind is bound there: the name of a
/// function, class, parameter, type parameter or caught exception, a name that a `match` pattern
/// captures, or a `global` or `nonlocal` name.
pub open spec fn binds_inside(k: Kind) -> bool {
    is_def(k) || k == Kind::Parameter || k == Kind::TypeVar || k == Kind::TypeVarTuple || k
        == Kind::ParamSpec || k == Kind::Handler || k == Kind::MatchAs || k == Kind::MatchStar || k
        == Kind::MatchMapping || k == Kind::Global || k == Kind::Nonlocal
}

/// Whether a name that stands right inside a node of this kind is bound there.
fn kind_binds_inside(k: Kind) -> (r: bool)
    ensures
        r == binds_inside(k),
{
    kind_is_def(k) || k == Kind::Parameter || k == Kind::TypeVar || k == Kind::TypeVarTuple || k
        == Kind::ParamSpec || k == Kind::Handler || k == Kind::MatchAs || k == Kind::MatchStar || k
        == Kind::MatchMapping || k == Kind::Global || k == Kind::Nonlocal
}

/// Whether a node binds its text somewhere in the file: an assigned or deleted name, or a name that
/// the node around it binds.
pub open spec fn binds(nodes: Seq<NodeView>, i: int) -> bool {
    nodes[i].kind == Kind::Store || (nodes[i].kind == Kind::Identifier && binds_inside(
        parent_kind(nodes, i),
    ))
}

/// Whether a node binds its text at module level: outside every function and class, or as the
/// name of one that stands there, or by a `global` anywhere.
pub open spec fn binds_in_module(nodes: Seq<NodeView>, i: int) -> bool {
    if nodes[i].kind == Kind::Identifier && parent_kind(nodes, i) == Kind::Global {
        true
    } else {
        match outer_def(nodes, i) {
            Some(d) => nodes[i].kind == Kind::Identifier && nodes[i].parent == d,
            None => binds(nodes, i),
        }
    }
}

/// Whether the file binds `name` at all.
pub open spec fn bound(nodes: Seq<NodeView>, name: Seq<char>) -> bool {
    exists|i: int| 0 <= i < nodes.len() && binds(nodes, i) && (#[trigger] nodes[i]).text == name
}

/// Whether the module binds `name` at module level.
pub open spec fn bound_in_module(nodes: Seq<NodeView>, name: Seq<char>) -> bool {
    exists|i: int|
        0 <= i < nodes.len() && binds_in_module(nodes, i) && (#[trigger] nodes[i]).text == name
}

/// Whether a node binds its text inside the outermost function or class that starts at `start`.
pub open spec fn binds_in_scope(nodes: Seq<NodeView>, i: int, start: int) -> bool {
    binds(nodes, i) && match outer_def(nodes, i) {
        Some(d) => nodes[d].start == start,
        None => false,
    }
}

/// Whether `name` is bound anywhere in the outermost function or class that starts at `start`.
pub open spec fn bound_in_scope(nodes: Seq<NodeView>, start: int, name: Seq<char>) -> bool {
    exists|i: int|
        0 <= i < nodes.len() && binds_in_scope(nodes, i, start) && (#[trigger] nodes[i]).text == name
}

/// The outermost functions and classes in source order, each with its start and end.
pub open spec fn bucket_list(nodes: Seq<NodeView>, n: int) -> Seq<(int, int)>
    decreases n,
{
    if n <= 0 {
        Seq::empty()
    } else {
        let before = bucket_list(nodes, n - 1);
        if outer_def(nodes, n - 1) == Some(n - 1) {
            before.push((nodes[n - 1].start, nodes[n - 1].end))
        } else {
            before
        }
    }
}

/// The start of the first of several spans that holds `offset`.
pub open spec fn span_start(spans: Seq<(int, int)>, offset: int) -> Option<int>
    decreases spans.len(),
{
    if spans.len() == 0 {
        None
    } else if spans[0].0 <= offset < spans[0].1 {
        Some(spans[0].0)
    } else {
        span_start(spans.skip(1), offset)
    }
}

/// The start of the outermost function or class around `offset`; `None` at module level.
pub open spec fn bucket_at(nodes: Seq<NodeView>, offset: int) -> Option<int> {
    span_start(bucket_list(nodes, nodes.len() as int), offset)
}

/// Whether `name` is bound at module level, or in the outermost function or class that starts at
/// `bucket`.
pub open spec fn shadowed(nodes: Seq<NodeView>, name: Seq<char>, bucket: Option<int>) -> bool {
    bound_in_module(nodes, name) || match bucket {
        Some(start) => bound_in_scope(nodes, start, name),
        None => false,
    }
}

// ---------------------------------------------------------------------------
// Names that are read
// ---------------------------------------------------------------------------

/// A name that is read, with the bytes it covers.
pub struct NamedSpan {
    pub start: u32,
    pub end: u32,
    pub name: String,
}

/// What a [`NamedSpan`] says.
#[verifier::ext_equal]
pub struct SpanView {
    pub start: int,
    pub end: int,
    pub name: Seq<char>,
}

impl View for NamedSpan {
    type V = SpanView;

    open spec fn view(&self) -> SpanView {
        SpanView { start: self.start as int, end: self.end as int, name: self.name@ }
    }
}

/// What several spans say.
pub open spec fn span_views(v: Seq<NamedSpan>) -> Seq<SpanView> {
    v.map_values(|s: NamedSpan| s@)
}

/// Every name of the module whose value is read, in source order.
pub open spec fn load_spans(nodes: Seq<NodeView>) -> Seq<SpanView>
    decreases nodes.len(),
{
    if nodes.len() == 0 {
        Seq::empty()
    } else {
        let before = load_spans(nodes.drop_last());
        let n = nodes.last();
        if n.kind == Kind::Load {
            before.push(SpanView { start: n.start, end: n.end, name: n.text })
        } else {
            before
        }
    }
}

/// Every name of the module whose value is read.
pub fn collect_load_names(nodes: &Vec<Node>) -> (r: Vec<NamedSpan>)
    ensures
        span_views(r@) == load_spans(views(nodes@)),
{
    let ghost all = views(nodes@);
    let mut out: Vec<NamedSpan> = Vec::new();
    let mut i: usize = 0;
    assert(all.take(0) =~= Seq::empty());
    assert(span_views(out@) =~= Seq::empty());
    while i < nodes.len()
        invariant
            i <= nodes@.len(),
            all == views(nodes@),
            span_views(out@) == load_spans(all.take(i as int)),
        decreases nodes@.len() - i,
    {
        assert(all.take(i + 1).drop_last() =~= all.take(i as int));
        assert(all.take(i + 1).last() == nodes@[i as int]@);
        if nodes[i].kind == Kind::Load {
            let ghost before = out@;
            let span = NamedSpan {
                start: nodes[i].start,
                end: nodes[i].end,
                name: nodes[i].text.clone(),
            };
            out.push(span);
            assert(span_views(out@) =~= span_views(before).push(span@));
        }
        i += 1;
    }
    assert(all.take(all.len() as int) =~= all);
    out
}

// ---------------------------------------------------------------------------
// Names that are bound
// ---------------------------------------------------------------------------

fn kind_is_def(k: Kind) -> (r: bool)
    ensures
        r == is_def(k),
{
    k == Kind::FunctionDef || k == Kind::ClassDef
}

fn kind_is_simple(k: Kind) -> (r: bool)
    ensures
        r == is_simple(k),
{
    k == Kind::Import || k == Kind::ImportFrom || k == Kind::Assign || k == Kind::AugAssign || k
        == Kind::Statement
}

/// Whether a node is a statement.
pub fn kind_is_stmt(k: Kind) -> (r: bool)
    ensures
        r == is_stmt(k),
{
    kind_is_def(k) || kind_is_simple(k) || k == Kind::If || k == Kind::For || k == Kind::While || k
        == Kind::With || k == Kind::Match || k == Kind::Try || k == Kind::Global || k
        == Kind::Nonlocal
}

/// Whether a node binds its text somewhere in the file.
fn node_binds(nodes: &Vec<Node>, i: usize) -> (r: bool)
    requires
        i < nodes@.len(),
        well_formed(views(nodes@)),
    ensures
        r == binds(views(nodes@), i as int),
{
    let ghost all = views(nodes@);
    assert(all[i as int] == nodes@[i as int]@);
    if nodes[i].kind == Kind::Store {
        return true;
    }
    if nodes[i].kind != Kind::Identifier {
        return false;
    }
    assert(nodes@[i as int].parent <= i);
    let p = nodes[nodes[i].parent].kind;
    assert(all[all[i as int].parent] == nodes@[nodes@[i as int].parent as int]@);
    kind_binds_inside(p)
}

/// Every name that the file binds, repeats included.
pub fn collect_bound_names(nodes: &Vec<Node>) -> (r: Vec<String>)
    requires
        well_formed(views(nodes@)),
    ensures
        forall|name: Seq<char>|
            #![trigger strs(r@).contains(name)]
            strs(r@).contains(name) <==> bound(views(nodes@), name),
{
    let ghost all = views(nodes@);
    let mut out: Vec<String> = Vec::new();
    let mut i: usize = 0;
    assert(strs(out@) =~= Seq::empty());
    while i < nodes.len()
        invariant
            i <= nodes@.len(),
            all == views(nodes@),
            well_formed(all),
            forall|name: Seq<char>|
                #![trigger strs(out@).contains(name)]
                strs(out@).contains(name) <==> exists|j: int|
                    0 <= j < i && binds(all, j) && (#[trigger] all[j]).text == name,
        decreases nodes@.len() - i,
    {
        let ghost before = strs(out@);
        assert(all[i as int] == nodes@[i as int]@);
        if node_binds(nodes, i) {
            out.push(nodes[i].text.clone());
            assert(strs(out@) =~= before.push(all[i as int].text));
        }
        proof {
            lemma_grow(before, strs(out@), all[i as int].text, binds(all, i as int));
            assert forall|name: Seq<char>|
                #![trigger strs(out@).contains(name)]
                strs(out@).contains(name) <==> exists|j: int|
                    0 <= j < i + 1 && binds(all, j) && (#[trigger] all[j]).text == name by {
                if before.contains(name) {
                    let j = choose|j: int|
                        0 <= j < i && binds(all, j) && (#[trigger] all[j]).text == name;
                    assert(all[j].text == name);
                }
                if exists|j: int| 0 <= j < i + 1 && binds(all, j) && (#[trigger] all[j]).text == name {
                    let j = choose|j: int|
                        0 <= j < i + 1 && binds(all, j) && (#[trigger] all[j]).text == name;
                    if j < i {
                        assert(before.contains(name));
                    }
                }
            }
        }
        i += 1;
    }
    out
}

/// What a list holds after a text was put at its end, or not.
pub proof fn lemma_grow(before: Seq<Seq<char>>, after: Seq<Seq<char>>, x: Seq<char>, put: bool)
    requires
        after == if put {
            before.push(x)
        } else {
            before
        },
    ensures
        forall|y: Seq<char>|
            #![trigger after.contains(y)]
            after.contains(y) <==> (before.contains(y) || (put && y == x)),
{
    assert forall|y: Seq<char>| #![trigger after.contains(y)]
        after.contains(y) <==> (before.contains(y) || (put && y == x)) by {
        if put {
            if before.contains(y) {
                let i = before.index_of(y);
                assert(after[i] == y);
            }
            if y == x {
                assert(after[before.len() as int] == y);
            }
            if after.contains(y) {
                let i = after.index_of(y);
                if i < before.len() {
                    assert(before[i] == y);
                }
            }
        }
    }
}

// ---------------------------------------------------------------------------
// Scope index
// ---------------------------------------------------------------------------

/// Where the names of a module are bound. All that is bound inside one function or class that
/// stands in no other shares a scope, however deeply it is nested.
pub struct ScopeIndex {
    pub module_names: Vec<String>,
    /// The start of an outermost function or class, with one name bound in it.
    pub scope_names: Vec<(u32, String)>,
    /// Start and end of every outermost function and class.
    pub buckets: Vec<(u32, u32)>,
}

/// Whether the index has `name` in the scope that starts at `start`.
pub open spec fn listed(names: Seq<(u32, String)>, start: int, name: Seq<char>) -> bool {
    exists|j: int|
        0 <= j < names.len() && (#[trigger] names[j]).0 == start && names[j].1@ == name
}

/// What a list of spans says.
pub open spec fn bucket_views(v: Seq<(u32, u32)>) -> Seq<(int, int)> {
    v.map_values(|b: (u32, u32)| (b.0 as int, b.1 as int))
}

impl ScopeIndex {
    /// The index says of every name where `nodes` bind it.
    pub open spec fn describes(self, nodes: Seq<NodeView>) -> bool {
        &&& forall|name: Seq<char>|
            #![trigger strs(self.module_names@).contains(name)]
            strs(self.module_names@).contains(name) <==> bound_in_module(nodes, name)
        &&& forall|start: int, name: Seq<char>|
            #![trigger listed(self.scope_names@, start, name)]
            listed(self.scope_names@, start, name) <==> bound_in_scope(nodes, start, name)
        &&& bucket_views(self.buckets@) == bucket_list(nodes, nodes.len() as int)
    }

    /// Whether the index has `name` at module level, or in the scope around `offset`.
    pub open spec fn shadows(self, name: Seq<char>, offset: int) -> bool {
        strs(self.module_names@).contains(name) || match span_start(
            bucket_views(self.buckets@),
            offset,
        ) {
            Some(start) => listed(self.scope_names@, start, name),
            None => false,
        }
    }
}

/// For each node, the outermost function or class that holds it.
fn outer_defs(nodes: &Vec<Node>) -> (r: Vec<Option<usize>>)
    requires
        well_formed(views(nodes@)),
    ensures
        r@.len() == nodes@.len(),
        forall|i: int|
            0 <= i < r@.len() ==> match #[trigger] r@[i] {
                Some(d) => outer_def(views(nodes@), i) == Some(d as int) && d <= i,
                None => outer_def(views(nodes@), i) is None,
            },
{
    let ghost all = views(nodes@);
    let mut out: Vec<Option<usize>> = Vec::new();
    let mut i: usize = 0;
    while i < nodes.len()
        invariant
            i <= nodes@.len(),
            all == views(nodes@),
            well_formed(all),
            out@.len() == i,
            forall|j: int|
                0 <= j < i ==> match #[trigger] out@[j] {
                    Some(d) => outer_def(all, j) == Some(d as int) && d <= j,
                    None => outer_def(all, j) is None,
                },
        decreases nodes@.len() - i,
    {
        assert(all[i as int] == nodes@[i as int]@);
        let own: Option<usize> = if kind_is_def(nodes[i].kind) {
            Some(i)
        } else {
            None
        };
        let found: Option<usize> = if i > 0 {
            assert(all[i as int].parent < i);
            match out[nodes[i].parent] {
                Some(d) => Some(d),
                None => own,
            }
        } else {
            own
        };
        out.push(found);
        i += 1;
    }
    out
}

/// Whether a node binds its text at module level.
fn node_binds_in_module(nodes: &Vec<Node>, i: usize, outer: Option<usize>) -> (r: bool)
    requires
        i < nodes@.len(),
        well_formed(views(nodes@)),
        match outer {
            Some(d) => outer_def(views(nodes@), i as int) == Some(d as int),
            None => outer_def(views(nodes@), i as int) is None,
        },
    ensures
        r == binds_in_module(views(nodes@), i as int),
{
    let ghost all = views(nodes@);
    assert(all[i as int] == nodes@[i as int]@);
    assert(nodes@[i as int].parent <= i);
    let parent: usize = nodes[i].parent;
    assert(all[all[i as int].parent] == nodes@[parent as int]@);
    let p = nodes[parent].kind;
    let kind = nodes[i].kind;
    if kind == Kind::Identifier && p == Kind::Global {
        return true;
    }
    match outer {
        Some(d) => kind == Kind::Identifier && parent == d,
        None => node_binds(nodes, i),
    }
}

/// Puts a name in the scope that starts at `bucket`, or at module level.
pub fn insert_scoped(name: String, bucket: Option<u32>, index: &mut ScopeIndex)
    ensures
        final(index).buckets@ == old(index).buckets@,
        match bucket {
            Some(start) => {
                &&& final(index).module_names@ == old(index).module_names@
                &&& final(index).scope_names@ == old(index).scope_names@.push((start, name))
            },
            None => {
                &&& final(index).scope_names@ == old(index).scope_names@
                &&& final(index).module_names@ == old(index).module_names@.push(name)
            },
        },
{
    match bucket {
        Some(start) => {
            index.scope_names.push((start, name));
        },
        None => {
            index.module_names.push(name);
        },
    }
}

/// Files what the node at `i` binds in the index, and the node itself where it is an outermost
/// function or class.
fn collect_scope(
    nodes: &Vec<Node>,
    i: usize,
    outer: Option<usize>,
    index: &mut ScopeIndex,
)
    requires
        i < nodes@.len(),
        well_formed(views(nodes@)),
        match outer {
            Some(d) => outer_def(views(nodes@), i as int) == Some(d as int) && d <= i,
            None => outer_def(views(nodes@), i as int) is None,
        },
    ensures
        ({
            let all = views(nodes@);
            &&& strs(final(index).module_names@) == if binds_in_module(all, i as int) {
                strs(old(index).module_names@).push(all[i as int].text)
            } else {
                strs(old(index).module_names@)
            }
            &&& forall|start: int, name: Seq<char>|
                #![trigger listed(final(index).scope_names@, start, name)]
                listed(final(index).scope_names@, start, name) <==> (listed(
                    old(index).scope_names@,
                    start,
                    name,
                ) || (binds_in_scope(all, i as int, start) && all[i as int].text == name))
            &&& bucket_views(final(index).buckets@) == if outer_def(all, i as int) == Some(i as int) {
                bucket_views(old(index).buckets@).push((all[i as int].start, all[i as int].end))
            } else {
                bucket_views(old(index).buckets@)
            }
        }),
{
    let ghost all = views(nodes@);
    assert(all[i as int] == nodes@[i as int]@);
    let ghost old_names = index.scope_names@;
    if node_binds_in_module(nodes, i, outer) {
        let ghost before = index.module_names@;
        insert_scoped(nodes[i].text.clone(), None, index);
        assert(strs(index.module_names@) =~= strs(before).push(all[i as int].text));
    }
    match outer {
        Some(d) => {
            assert(all[d as int] == nodes@[d as int]@);
            if node_binds(nodes, i) {
                let start: u32 = nodes[d].start;
                insert_scoped(nodes[i].text.clone(), Some(start), index);
                proof {
                    let names = index.scope_names@;
                    assert forall|s: int, name: Seq<char>| #![trigger listed(names, s, name)]
                        listed(names, s, name) <==> (listed(old_names, s, name) || (binds_in_scope(
                            all,
                            i as int,
                            s,
                        ) && all[i as int].text == name)) by {
                        if listed(old_names, s, name) {
                            let j = choose|j: int|
                                0 <= j < old_names.len() && (#[trigger] old_names[j]).0 == s
                                    && old_names[j].1@ == name;
                            assert(names[j] == old_names[j]);
                        }
                        if s == start && all[i as int].text == name {
                            assert(names[old_names.len() as int].0 == s);
                        }
                        if listed(names, s, name) {
                            let j = choose|j: int|
                                0 <= j < names.len() && (#[trigger] names[j]).0 == s && names[j].1@
                                    == name;
                            if j < old_names.len() {
                                assert(old_names[j] == names[j]);
                            }
                        }
                    }
                }
            }
            if d == i {
                let ghost before = index.buckets@;
                index.buckets.push((nodes[i].start, nodes[i].end));
                assert(bucket_views(index.buckets@) =~= bucket_views(before).push(
                    (all[i as int].start, all[i as int].end),
                ));
            }
        },
        None => {},
    }
}

/// Says of every name of a module where it is bound.
pub fn build_scope_index(nodes: &Vec<Node>) -> (index: ScopeIndex)
    requires
        well_formed(views(nodes@)),
    ensures
        index.describes(views(nodes@)),
{
    let ghost all = views(nodes@);
    let outers = outer_defs(nodes);
    let mut index = ScopeIndex {
        module_names: Vec::new(),
        scope_names: Vec::new(),
        buckets: Vec::new(),
    };
    let mut i: usize = 0;
    assert(strs(index.module_names@) =~= Seq::empty());
    assert(bucket_views(index.buckets@) =~= Seq::empty());
    while i < nodes.len()
        invariant
            i <= nodes@.len(),
            all == views(nodes@),
            well_formed(all),
            outers@.len() == nodes@.len(),
            forall|j: int|
                0 <= j < outers@.len() ==> match #[trigger] outers@[j] {
                    Some(d) => outer_def(all, j) == Some(d as int) && d <= j,
                    None => outer_def(all, j) is None,
                },
            forall|name: Seq<char>|
                #![trigger strs(index.module_names@).contains(name)]
                strs(index.module_names@).contains(name) <==> exists|j: int|
                    0 <= j < i && binds_in_module(all, j) && (#[trigger] all[j]).text == name,
            forall|start: int, name: Seq<char>|
                #![trigger listed(index.scope_names@, start, name)]
                listed(index.scope_names@, start, name) <==> exists|j: int|
                    0 <= j < i && binds_in_scope(all, j, start) && (#[trigger] all[j]).text == name,
            bucket_views(index.buckets@) == bucket_list(all, i as int),
        decreases nodes@.len() - i,
    {
        let ghost before = index;
        collect_scope(nodes, i, outers[i], &mut index);
        proof {
            let names = strs(before.module_names@);
            let text = all[i as int].text;
            lemma_grow(
                names,
                strs(index.module_names@),
                text,
                binds_in_module(all, i as int),
            );
            assert forall|name: Seq<char>|
                #![trigger strs(index.module_names@).contains(name)]
                strs(index.module_names@).contains(name) <==> exists|j: int|
                    0 <= j < i + 1 && binds_in_module(all, j) && (#[trigger] all[j]).text == name by {
                assert(names.contains(name) <==> exists|j: int|
                    0 <= j < i && binds_in_module(all, j) && (#[trigger] all[j]).text == name);
                if exists|j: int|
                    0 <= j < i + 1 && binds_in_module(all, j) && (#[trigger] all[j]).text == name {
                    let j = choose|j: int|
                        0 <= j < i + 1 && binds_in_module(all, j) && (#[trigger] all[j]).text == name;
                    if j < i {
                        assert(names.contains(name));
                    }
                }
            }
            assert forall|start: int, name: Seq<char>|
                #![trigger listed(index.scope_names@, start, name)]
                listed(index.scope_names@, start, name) <==> exists|j: int|
                    0 <= j < i + 1 && binds_in_scope(all, j, start) && (#[trigger] all[j]).text == name by {
                assert(listed(before.scope_names@, start, name) <==> exists|j: int|
                    0 <= j < i && binds_in_scope(all, j, start) && (#[trigger] all[j]).text == name);
                if exists|j: int|
                    0 <= j < i + 1 && binds_in_scope(all, j, start) && (#[trigger] all[j]).text == name {
                    let j = choose|j: int|
                        0 <= j < i + 1 && binds_in_scope(all, j, start) && (#[trigger] all[j]).text
                            == name;
                    if j < i {
                        assert(listed(before.scope_names@, start, name));
                    }
                }
            }
        }
        i += 1;
    }
    index
}

/// The start of the outermost function or class around `offset`; `None` at module level.
pub fn bucket_for_offset(index: &ScopeIndex, offset: u32) -> (r: Option<u32>)
    ensures
        match r {
            Some(start) => span_start(bucket_views(index.buckets@), offset as int) == Some(
                start as int,
            ),
            None => span_start(bucket_views(index.buckets@), offset as int) is None,
        },
{
    let ghost spans = bucket_views(index.buckets@);
    let mut i: usize = 0;
    assert(spans.skip(0) =~= spans);
    while i < index.buckets.len()
        invariant
            i <= index.buckets@.len(),
            spans == bucket_views(index.buckets@),
            span_start(spans, offset as int) == span_start(spans.skip(i as int), offset as int),
        decreases index.buckets@.len() - i,
    {
        assert(spans.skip(i as int)[0] == spans[i as int]);
        assert(spans.skip(i as int).skip(1) =~= spans.skip(i + 1));
        let (start, end) = index.buckets[i];
        if start <= offset && offset < end {
            return Some(start);
        }
        i += 1;
    }
    None
}

/// Whether `name` is bound at module level, or in the outermost function or class that starts at
/// `bucket`.
pub fn is_name_shadowed(name: &str, bucket: Option<u32>, index: &ScopeIndex) -> (r: bool)
    ensures
        r == (strs(index.module_names@).contains(name@) || match bucket {
            Some(start) => listed(index.scope_names@, start as int, name@),
            None => false,
        }),
{
    if crate::ordered::has_text(&index.module_names, name) {
        return true;
    }
    let wanted: u32 = match bucket {
        Some(start) => start,
        None => return false,
    };
    let mut i: usize = 0;
    while i < index.scope_names.len()
        invariant
            i <= index.scope_names@.len(),
            bucket == Some(wanted),
            forall|j: int|
                0 <= j < i ==> !((#[trigger] index.scope_names@[j]).0 == wanted
                    && index.scope_names@[j].1@ == name@),
        decreases index.scope_names@.len() - i,
    {
        if index.scope_names[i].0 == wanted && eq(index.scope_names[i].1.as_str(), name) {
            return true;
        }
        i += 1;
    }
    false
}

/// Whether `check_name` is shadowed anywhere that `occurrence_name` is read.
pub open spec fn shadowed_where_read(
    nodes: Seq<NodeView>,
    check_name: Seq<char>,
    occurrence_name: Seq<char>,
) -> bool {
    exists|j: int|
        0 <= j < load_spans(nodes).len() && (#[trigger] load_spans(nodes)[j]).name == occurrence_name
            && shadowed(nodes, check_name, bucket_at(nodes, load_spans(nodes)[j].start))
}

/// Whether `check_name` is shadowed anywhere that `occurrence_name` is read.
pub fn shadowed_at_occurrences_of(
    check_name: &str,
    occurrence_name: &str,
    load_names: &Vec<NamedSpan>,
    index: &ScopeIndex,
) -> (r: bool)
    ensures
        r == exists|j: int|
            0 <= j < load_names@.len() && (#[trigger] load_names@[j]).name@ == occurrence_name@
                && index.shadows(check_name@, load_names@[j].start as int),
{
    let mut i: usize = 0;
    while i < load_names.len()
        invariant
            i <= load_names@.len(),
            forall|j: int|
                0 <= j < i ==> !((#[trigger] load_names@[j]).name@ == occurrence_name@
                    && index.shadows(check_name@, load_names@[j].start as int)),
        decreases load_names@.len() - i,
    {
        if eq(load_names[i].name.as_str(), occurrence_name) {
            let bucket = bucket_for_offset(index, load_names[i].start);
            if is_name_shadowed(check_name, bucket, index) {
                return true;
            }
        }
        i += 1;
    }
    false
}

/// What the index of a module says of a name read somewhere is what holds of the module.
pub proof fn lemma_shadowed_where_read(
    index: ScopeIndex,
    load_names: Seq<NamedSpan>,
    nodes: Seq<NodeView>,
    check_name: Seq<char>,
    occurrence_name: Seq<char>,
)
    requires
        index.describes(nodes),
        span_views(load_names) == load_spans(nodes),
    ensures
        shadowed_where_read(nodes, check_name, occurrence_name) == exists|j: int|
            0 <= j < load_names.len() && (#[trigger] load_names[j]).name@ == occurrence_name
                && index.shadows(check_name, load_names[j].start as int),
{
    assert(load_spans(nodes).len() == load_names.len());
    assert forall|j: int| 0 <= j < load_names.len() implies (#[trigger] load_spans(nodes)[j])
        == load_names[j]@ && index.shadows(check_name, load_names[j].start as int) == shadowed(
        nodes,
        check_name,
        bucket_at(nodes, load_names[j].start as int),
    ) by {
        assert(span_views(load_names)[j] == load_names[j]@);
    }
    if shadowed_where_read(nodes, check_name, occurrence_name) {
        let j = choose|j: int|
            0 <= j < load_spans(nodes).len() && (#[trigger] load_spans(nodes)[j]).name
                == occurrence_name && shadowed(
                nodes,
                check_name,
                bucket_at(nodes, load_spans(nodes)[j].start),
            );
        assert(load_names[j].name@ == occurrence_name);
    }
    if exists|j: int|
        0 <= j < load_names.len() && (#[trigger] load_names[j]).name@ == occurrence_name
            && index.shadows(check_name, load_names[j].start as int) {
        let j = choose|j: int|
            0 <= j < load_names.len() && (#[trigger] load_names[j]).name@ == occurrence_name
                && index.shadows(check_name, load_names[j].start as int);
        assert(load_spans(nodes)[j].name == occurrence_name);
    }
}

/// No binding is missed: what a node binds is filed under the outermost function or class around
/// it, or at module level.
pub proof fn law_no_binding_is_missed(nodes: Seq<NodeView>, i: int)
    requires
        0 <= i < nodes.len(),
        binds(nodes, i),
    ensures
        match outer_def(nodes, i) {
            Some(d) => bound_in_scope(nodes, nodes[d].start, nodes[i].text),
            None => bound_in_module(nodes, nodes[i].text),
        },
{
    match outer_def(nodes, i) {
        Some(d) => {
            assert(binds_in_scope(nodes, i, nodes[d].start));
            assert(nodes[i].text == nodes[i].text);
        },
        None => {
            assert(binds_in_module(nodes, i));
            assert(nodes[i].text == nodes[i].text);
        },
    }
}

} // verus!
