//! What binds a name, and where.
use crate::kis001_laws::is_around;
use crate::scope::{
    binds, binds_in_module, binds_in_scope, bound, bound_in_module, bound_in_scope, bucket_at,
    bucket_list, load_spans, outer_def, shadowed, shadowed_where_read, span_start,
    SpanView,
};
use crate::syntax::{Kind, NodeView};
use vstd::prelude::*;

verus! {

/// Whether a node gives its text a meaning: a name that is assigned or deleted, or the name of a
/// function, class, parameter, type parameter, caught exception or captured value, or one that a
/// `global` or `nonlocal` statement lists.
pub open spec fn gives_meaning(nodes: Seq<NodeView>, i: int) -> bool {
    let p = nodes[nodes[i].parent].kind;
    ||| nodes[i].kind == Kind::Store
    ||| nodes[i].kind == Kind::Identifier && (p == Kind::FunctionDef || p == Kind::ClassDef || p
        == Kind::Parameter || p == Kind::TypeVar || p == Kind::TypeVarTuple || p == Kind::ParamSpec
        || p == Kind::Handler || p == Kind::MatchAs || p == Kind::MatchStar || p
        == Kind::MatchMapping || p == Kind::Global || p == Kind::Nonlocal)
}

/// A name counts as bound exactly where some node anywhere in the file gives it a meaning.
pub proof fn law_a_name_is_bound_wherever_it_is_given_a_meaning(
    nodes: Seq<NodeView>,
    name: Seq<char>,
)
    ensures
        bound(nodes, name) <==> exists|i: int|
            0 <= i < nodes.len() && gives_meaning(nodes, i) && (#[trigger] nodes[i]).text == name,
{
    assert forall|i: int| binds(nodes, i) == gives_meaning(nodes, i) by {}
    if bound(nodes, name) {
        let i = choose|i: int|
            0 <= i < nodes.len() && binds(nodes, i) && (#[trigger] nodes[i]).text == name;
        assert(gives_meaning(nodes, i) && nodes[i].text == name);
    }
    if exists|i: int|
        0 <= i < nodes.len() && gives_meaning(nodes, i) && (#[trigger] nodes[i]).text == name {
        let i = choose|i: int|
            0 <= i < nodes.len() && gives_meaning(nodes, i) && (#[trigger] nodes[i]).text == name;
        assert(binds(nodes, i) && nodes[i].text == name);
    }
}

/// Whether a node is a function or a class that stands in no other.
pub open spec fn is_outermost(nodes: Seq<NodeView>, d: int) -> bool {
    (nodes[d].kind == Kind::FunctionDef || nodes[d].kind == Kind::ClassDef) && forall|a: int|
        is_around(nodes, a, d) ==> (#[trigger] nodes[a]).kind != Kind::FunctionDef && nodes[a].kind
            != Kind::ClassDef
}

/// A node belongs to the outermost function or class that is the node itself or stands around it,
/// and to the module where there is none.
pub proof fn law_nodes_belong_to_the_outermost_definition(nodes: Seq<NodeView>, i: int)
    ensures
        match outer_def(nodes, i) {
            Some(d) => is_outermost(nodes, d) && (d == i || is_around(nodes, d, i)),
            None => nodes[i].kind != Kind::FunctionDef && nodes[i].kind != Kind::ClassDef && forall|
                a: int,
            |
                is_around(nodes, a, i) ==> (#[trigger] nodes[a]).kind != Kind::FunctionDef
                    && nodes[a].kind != Kind::ClassDef,
        },
    decreases i,
{
    if 0 < i && 0 <= nodes[i].parent < i {
        let p = nodes[i].parent;
        law_nodes_belong_to_the_outermost_definition(nodes, p);
        assert(is_around(nodes, p, i));
        match outer_def(nodes, p) {
            Some(d) => {
                assert(is_around(nodes, d, i));
            },
            None => {
                assert forall|a: int| is_around(nodes, a, i) implies (#[trigger] nodes[a]).kind
                    != Kind::FunctionDef && nodes[a].kind != Kind::ClassDef by {
                    if a != p {
                        assert(is_around(nodes, a, p));
                    }
                }
            },
        }
    }
}

/// Every name that is read is found with its place, and nothing else is.
pub proof fn law_every_read_name_is_found(nodes: Seq<NodeView>, x: SpanView)
    ensures
        load_spans(nodes).contains(x) <==> exists|i: int|
            0 <= i < nodes.len() && (#[trigger] nodes[i]).kind == Kind::Load && nodes[i].text
                == x.name && nodes[i].start == x.start && nodes[i].end == x.end,
    decreases nodes.len(),
{
    if nodes.len() > 0 {
        let rest = nodes.drop_last();
        let last = nodes.last();
        law_every_read_name_is_found(rest, x);
        let y = SpanView { start: last.start, end: last.end, name: last.text };
        crate::edit::lemma_push_holds(load_spans(rest), y, x);
        if load_spans(rest).contains(x) {
            let i = choose|i: int|
                0 <= i < rest.len() && (#[trigger] rest[i]).kind == Kind::Load && rest[i].text
                    == x.name && rest[i].start == x.start && rest[i].end == x.end;
            assert(nodes[i] == rest[i]);
        }
        if last.kind == Kind::Load && x == y {
            assert(nodes[nodes.len() - 1].kind == Kind::Load);
        }
        if exists|i: int|
            0 <= i < nodes.len() && (#[trigger] nodes[i]).kind == Kind::Load && nodes[i].text
                == x.name && nodes[i].start == x.start && nodes[i].end == x.end {
            let i = choose|i: int|
                0 <= i < nodes.len() && (#[trigger] nodes[i]).kind == Kind::Load && nodes[i].text
                    == x.name && nodes[i].start == x.start && nodes[i].end == x.end;
            if i < rest.len() {
                assert(rest[i] == nodes[i]);
            } else {
                assert(x =~= y);
            }
        }
    }
}

// ---------------------------------------------------------------------------
// Shadowing
// ---------------------------------------------------------------------------

/// Whether a name has a meaning at module level: given outside every function and class, or as the
/// name of one that stands in no other, or by a `global` anywhere.
pub open spec fn has_module_meaning(nodes: Seq<NodeView>, i: int) -> bool {
    ||| nodes[i].kind == Kind::Identifier && nodes[nodes[i].parent].kind == Kind::Global
    ||| gives_meaning(nodes, i) && nodes[i].kind != Kind::FunctionDef && nodes[i].kind
        != Kind::ClassDef && forall|a: int|
        is_around(nodes, a, i) ==> (#[trigger] nodes[a]).kind != Kind::FunctionDef && nodes[a].kind
            != Kind::ClassDef
    ||| nodes[i].kind == Kind::Identifier && is_outermost(nodes, nodes[i].parent) && is_around(
        nodes,
        nodes[i].parent,
        i,
    )
}

proof fn lemma_one_outermost(nodes: Seq<NodeView>, i: int, d: int, e: int)
    requires
        is_outermost(nodes, d),
        is_outermost(nodes, e),
        d == i || is_around(nodes, d, i),
        e == i || is_around(nodes, e, i),
    ensures
        d == e,
    decreases i,
{
    if d != e {
        if d == i {
            assert(is_around(nodes, e, d));
        } else if e == i {
            assert(is_around(nodes, d, e));
        } else {
            let p = nodes[i].parent;
            lemma_one_outermost(nodes, p, d, e);
        }
    }
}

/// A name is bound at module level exactly where some node gives it a meaning there.
pub proof fn law_module_level_names(nodes: Seq<NodeView>, name: Seq<char>)
    ensures
        bound_in_module(nodes, name) <==> exists|i: int|
            0 <= i < nodes.len() && has_module_meaning(nodes, i) && (#[trigger] nodes[i]).text
                == name,
{
    assert forall|i: int| 0 <= i < nodes.len() implies binds_in_module(nodes, i)
        == has_module_meaning(nodes, i) by {
        law_nodes_belong_to_the_outermost_definition(nodes, i);
        assert(binds(nodes, i) == gives_meaning(nodes, i));
        if !(nodes[i].kind == Kind::Identifier && nodes[nodes[i].parent].kind == Kind::Global) {
            match outer_def(nodes, i) {
                Some(d) => {
                    if nodes[i].kind == Kind::Identifier && nodes[i].parent == d {
                        assert(has_module_meaning(nodes, i));
                    }
                    if has_module_meaning(nodes, i) {
                        if nodes[i].kind == Kind::Identifier && is_outermost(nodes, nodes[i].parent)
                            && is_around(nodes, nodes[i].parent, i) {
                            lemma_one_outermost(nodes, i, d, nodes[i].parent);
                        } else {
                            if d == i {
                                assert(false);
                            } else {
                                assert(is_around(nodes, d, i));
                            }
                        }
                    }
                },
                None => {
                    if has_module_meaning(nodes, i) && !gives_meaning(nodes, i) {
                        let p = nodes[i].parent;
                        assert(nodes[p].kind == Kind::FunctionDef || nodes[p].kind
                            == Kind::ClassDef);
                        assert(is_around(nodes, p, i));
                    }
                },
            }
        }
    }
    if bound_in_module(nodes, name) {
        let i = choose|i: int|
            0 <= i < nodes.len() && binds_in_module(nodes, i) && (#[trigger] nodes[i]).text == name;
        assert(has_module_meaning(nodes, i) && nodes[i].text == name);
    }
    if exists|i: int|
        0 <= i < nodes.len() && has_module_meaning(nodes, i) && (#[trigger] nodes[i]).text == name {
        let i = choose|i: int|
            0 <= i < nodes.len() && has_module_meaning(nodes, i) && (#[trigger] nodes[i]).text
                == name;
        assert(binds_in_module(nodes, i) && nodes[i].text == name);
    }
}

/// Whether `start` is where the first outermost function or class over a byte offset starts.
pub open spec fn is_scope_at(nodes: Seq<NodeView>, offset: int, d: int) -> bool {
    &&& 0 <= d < nodes.len() && is_outermost(nodes, d) && nodes[d].start <= offset < nodes[d].end
    &&& forall|e: int|
        0 <= e < d && is_outermost(nodes, e) ==> !((#[trigger] nodes[e]).start <= offset
            < nodes[e].end)
}

proof fn lemma_own_outer(nodes: Seq<NodeView>, d: int)
    ensures
        outer_def(nodes, d) == Some(d) <==> is_outermost(nodes, d),
{
    law_nodes_belong_to_the_outermost_definition(nodes, d);
    match outer_def(nodes, d) {
        Some(e) => {
            if is_outermost(nodes, d) {
                lemma_one_outermost(nodes, d, d, e);
            }
        },
        None => {},
    }
}

proof fn lemma_span_start_pushed(spans: Seq<(int, int)>, x: (int, int), offset: int)
    ensures
        span_start(spans.push(x), offset) == match span_start(spans, offset) {
            Some(s) => Some(s),
            None => if x.0 <= offset < x.1 {
                Some(x.0)
            } else {
                None
            },
        },
    decreases spans.len(),
{
    let all = spans.push(x);
    if spans.len() == 0 {
        assert(all[0] == x);
        assert(span_start(all.skip(1), offset) is None);
    } else {
        assert(all[0] == spans[0]);
        lemma_span_start_pushed(spans.skip(1), x, offset);
        assert(all.skip(1) =~= spans.skip(1).push(x));
    }
}

proof fn lemma_buckets(nodes: Seq<NodeView>, offset: int, n: int)
    requires
        n <= nodes.len(),
    ensures
        match span_start(bucket_list(nodes, n), offset) {
            Some(start) => exists|d: int|
                0 <= d < n && is_scope_at(nodes, offset, d) && (#[trigger] nodes[d]).start == start,
            None => forall|e: int|
                0 <= e < n && is_outermost(nodes, e) ==> !((#[trigger] nodes[e]).start <= offset
                    < nodes[e].end),
        },
    decreases n,
{
    if n > 0 {
        lemma_buckets(nodes, offset, n - 1);
        lemma_own_outer(nodes, n - 1);
        let before = bucket_list(nodes, n - 1);
        if outer_def(nodes, n - 1) == Some(n - 1) {
            lemma_span_start_pushed(before, (nodes[n - 1].start, nodes[n - 1].end), offset);
            match span_start(before, offset) {
                Some(start) => {
                    let d = choose|d: int|
                        0 <= d < n - 1 && is_scope_at(nodes, offset, d) && (#[trigger] nodes[d]).start
                            == start;
                    assert(nodes[d].start == start);
                },
                None => {
                    if nodes[n - 1].start <= offset < nodes[n - 1].end {
                        assert(is_scope_at(nodes, offset, n - 1));
                        assert(nodes[n - 1].start == nodes[n - 1].start);
                    }
                },
            }
        } else {
            match span_start(before, offset) {
                Some(start) => {
                    let d = choose|d: int|
                        0 <= d < n - 1 && is_scope_at(nodes, offset, d) && (#[trigger] nodes[d]).start
                            == start;
                    assert(nodes[d].start == start);
                },
                None => {},
            }
        }
    }
}

/// A byte offset belongs to the first outermost function or class that spans it, and to the module
/// where none does.
pub proof fn law_offsets_belong_to_the_definition_around_them(nodes: Seq<NodeView>, offset: int)
    ensures
        match bucket_at(nodes, offset) {
            Some(start) => exists|d: int|
                is_scope_at(nodes, offset, d) && (#[trigger] nodes[d]).start == start,
            None => forall|e: int|
                0 <= e < nodes.len() && is_outermost(nodes, e) ==> !((#[trigger] nodes[e]).start
                    <= offset < nodes[e].end),
        },
{
    lemma_buckets(nodes, offset, nodes.len() as int);
    match bucket_at(nodes, offset) {
        Some(start) => {
            let d = choose|d: int|
                0 <= d < nodes.len() && is_scope_at(nodes, offset, d) && (#[trigger] nodes[d]).start
                    == start;
            assert(nodes[d].start == start);
        },
        None => {},
    }
}

/// Whether some node gives a name a meaning in an outermost function or class that starts at
/// `start`.
pub open spec fn has_meaning_in(nodes: Seq<NodeView>, start: int, name: Seq<char>) -> bool {
    exists|i: int, d: int|
        0 <= i < nodes.len() && gives_meaning(nodes, i) && (#[trigger] nodes[i]).text == name
            && is_outermost(nodes, d) && (#[trigger] nodes[d]).start == start && (d == i
            || is_around(nodes, d, i))
}

/// A name is taken at a place exactly where it has a meaning at module level, or anywhere in the
/// outermost function or class around the place.
pub proof fn law_a_name_is_taken_where_it_has_a_meaning(
    nodes: Seq<NodeView>,
    name: Seq<char>,
    bucket: Option<int>,
)
    ensures
        shadowed(nodes, name, bucket) <==> (exists|i: int|
            0 <= i < nodes.len() && has_module_meaning(nodes, i) && (#[trigger] nodes[i]).text
                == name) || (bucket is Some && has_meaning_in(nodes, bucket->0, name)),
{
    law_module_level_names(nodes, name);
    if bucket is Some {
        let start = bucket->0;
        if bound_in_scope(nodes, start, name) {
            let i = choose|i: int|
                0 <= i < nodes.len() && binds_in_scope(nodes, i, start) && (#[trigger] nodes[i]).text
                    == name;
            law_nodes_belong_to_the_outermost_definition(nodes, i);
            let d = outer_def(nodes, i)->0;
            assert(gives_meaning(nodes, i) && nodes[i].text == name && nodes[d].start == start);
            assert(has_meaning_in(nodes, start, name));
        }
        if has_meaning_in(nodes, start, name) {
            let (i, d) = choose|i: int, d: int|
                0 <= i < nodes.len() && gives_meaning(nodes, i) && (#[trigger] nodes[i]).text == name
                    && is_outermost(nodes, d) && (#[trigger] nodes[d]).start == start && (d == i
                    || is_around(nodes, d, i));
            law_nodes_belong_to_the_outermost_definition(nodes, i);
            match outer_def(nodes, i) {
                Some(e) => {
                    lemma_one_outermost(nodes, i, d, e);
                },
                None => {
                    if d != i {
                        assert(is_around(nodes, d, i));
                    }
                },
            }
            assert(binds_in_scope(nodes, i, start));
            assert(nodes[i].text == name);
        }
    }
}

/// A name is taken where another is read exactly where it is taken at the place of some node that
/// reads the other.
pub proof fn law_a_name_is_taken_at_any_reading(
    nodes: Seq<NodeView>,
    name: Seq<char>,
    read: Seq<char>,
)
    ensures
        shadowed_where_read(nodes, name, read) <==> exists|i: int|
            0 <= i < nodes.len() && (#[trigger] nodes[i]).kind == Kind::Load && nodes[i].text == read
                && shadowed(nodes, name, bucket_at(nodes, nodes[i].start)),
{
    let spans = load_spans(nodes);
    if shadowed_where_read(nodes, name, read) {
        let j = choose|j: int|
            0 <= j < spans.len() && (#[trigger] spans[j]).name == read && shadowed(
                nodes,
                name,
                bucket_at(nodes, spans[j].start),
            );
        law_every_read_name_is_found(nodes, spans[j]);
        assert(spans.contains(spans[j]));
        let i = choose|i: int|
            0 <= i < nodes.len() && (#[trigger] nodes[i]).kind == Kind::Load && nodes[i].text
                == spans[j].name && nodes[i].start == spans[j].start && nodes[i].end
                == spans[j].end;
        assert(nodes[i].kind == Kind::Load);
    }
    if exists|i: int|
        0 <= i < nodes.len() && (#[trigger] nodes[i]).kind == Kind::Load && nodes[i].text == read
            && shadowed(nodes, name, bucket_at(nodes, nodes[i].start)) {
        let i = choose|i: int|
            0 <= i < nodes.len() && (#[trigger] nodes[i]).kind == Kind::Load && nodes[i].text == read
                && shadowed(nodes, name, bucket_at(nodes, nodes[i].start));
        let x = SpanView { start: nodes[i].start, end: nodes[i].end, name: nodes[i].text };
        law_every_read_name_is_found(nodes, x);
        assert(nodes[i].kind == Kind::Load);
        let j = spans.index_of(x);
        assert(spans[j].name == read);
    }
}

} // verus!
