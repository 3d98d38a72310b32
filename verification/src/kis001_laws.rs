//! What the rule on imports of modules reports, and what its fixes mean.
use crate::import_items::{exported, is_export, is_item, is_last_in, item_of, items_to};
use crate::imports::{alias_asname, identifier_in, reached};
use crate::kis001::{
    fix_of, module_split, module_violation, unknown_violation, FixView, Input,
};
use crate::line_index::{col_of, line_of, line_starts_of};
use crate::module_facts::{answer, AnswerView, ModuleCheck};
use crate::noqa::suppressed;
use crate::split::{join_spec, lines_spec, split_spec};
use crate::syntax::{Kind, NodeView};
use crate::text::{index_of, lemma_index_of, lemma_index_of_is};
use crate::types::{Level, ViolationView};
use vstd::prelude::*;

verus! {

// ---------------------------------------------------------------------------
// Dotted paths
// ---------------------------------------------------------------------------

/// Whether a text has no dot.
pub open spec fn is_undotted(s: Seq<char>) -> bool {
    forall|i: int| 0 <= i < s.len() ==> #[trigger] s[i] != '.'
}

/// Whether a dotted path is another one or begins with it, part by part.
pub open spec fn leads_to(path: Seq<char>, whole: Seq<char>) -> bool {
    whole == path || (whole.len() > path.len() && whole.take(path.len() as int) == path
        && whole[path.len() as int] == '.')
}

proof fn lemma_split_join(s: Seq<char>)
    ensures
        split_spec(s, '.').len() > 0,
        join_spec(split_spec(s, '.'), "."@) == s,
        forall|i: int|
            0 <= i < split_spec(s, '.').len() ==> is_undotted(#[trigger] split_spec(s, '.')[i]),
    decreases s.len(),
{
    let k = index_of(s, '.');
    lemma_index_of(s, '.');
    let parts = split_spec(s, '.');
    reveal_strlit(".");
    if k < s.len() {
        let rest = s.skip(k + 1);
        lemma_split_join(rest);
        let others = split_spec(rest, '.');
        assert(parts =~= seq![s.take(k)] + others);
        lemma_join_front(s.take(k), others, "."@);
        assert("."@ =~= seq!['.']);
        assert(s.take(k) + "."@ + rest =~= s);
        assert forall|i: int| 0 <= i < parts.len() implies is_undotted(#[trigger] parts[i]) by {
            if i > 0 {
                assert(parts[i] == others[i - 1]);
            } else {
                assert(parts[0] == s.take(k));
            }
        }
    } else {
        assert(parts =~= seq![s]);
    }
}

proof fn lemma_join_front(first: Seq<char>, rest: Seq<Seq<char>>, sep: Seq<char>)
    requires
        rest.len() > 0,
    ensures
        join_spec(seq![first] + rest, sep) == first + sep + join_spec(rest, sep),
    decreases rest.len(),
{
    let all = seq![first] + rest;
    assert(all.last() == rest.last());
    if rest.len() == 1 {
        assert(all.drop_last() =~= seq![first]);
        assert(join_spec(all.drop_last(), sep) == first);
    } else {
        lemma_join_front(first, rest.drop_last(), sep);
        assert(all.drop_last() =~= seq![first] + rest.drop_last());
        assert(first + sep + join_spec(rest.drop_last(), sep) + sep + rest.last() =~= first + sep
            + (join_spec(rest.drop_last(), sep) + sep + rest.last()));
    }
}

/// The first `n` parts of a path lead to the path.
proof fn lemma_take_leads(parts: Seq<Seq<char>>, n: int)
    requires
        0 < n <= parts.len(),
    ensures
        leads_to(join_spec(parts.take(n), "."@), join_spec(parts, "."@)),
    decreases parts.len(),
{
    reveal_strlit(".");
    if n == parts.len() {
        assert(parts.take(n) =~= parts);
    } else {
        let rest = parts.drop_last();
        lemma_take_leads(rest, n);
        assert(rest.take(n) =~= parts.take(n));
        let path = join_spec(parts.take(n), "."@);
        let inner = join_spec(rest, "."@);
        let whole = join_spec(parts, "."@);
        assert(whole == inner + "."@ + parts.last());
        if inner == path {
            assert(whole.take(path.len() as int) =~= path);
            assert(whole[path.len() as int] == '.');
        } else {
            assert(whole.take(path.len() as int) =~= inner.take(path.len() as int));
            assert(whole[path.len() as int] == inner[path.len() as int]);
        }
    }
}

proof fn lemma_module_split(facts: Seq<AnswerView>, parts: Seq<Seq<char>>, n: int)
    ensures
        match module_split(facts, parts, n) {
            Some(k) => 1 <= k <= n && answer(facts, join_spec(parts.take(k), "."@), parts[k])
                == ModuleCheck::Module && forall|m: int|
                k < m <= n ==> answer(
                    facts,
                    join_spec(#[trigger] parts.take(m), "."@),
                    parts[m],
                ) != ModuleCheck::Module,
            None => forall|m: int|
                1 <= m <= n ==> answer(
                    facts,
                    join_spec(#[trigger] parts.take(m), "."@),
                    parts[m],
                ) != ModuleCheck::Module,
        },
    decreases n,
{
    if n >= 1 && answer(facts, join_spec(parts.take(n), "."@), parts[n]) != ModuleCheck::Module {
        lemma_module_split(facts, parts, n - 1);
    }
}

// ---------------------------------------------------------------------------
// What a fix means
// ---------------------------------------------------------------------------

/// Whether a fix imports a module from its parent: the module is known there and leads to the one
/// that the name came from; the import binds the module's own name, and the use names it by that.
pub open spec fn imports_from_parent(
    f: FixView,
    facts: Seq<AnswerView>,
    module: Seq<char>,
    name: Seq<char>,
    parent: Seq<char>,
    child: Seq<char>,
) -> bool {
    &&& answer(facts, parent, child) == ModuleCheck::Module
    &&& is_undotted(child)
    &&& leads_to(parent + "."@ + child, module)
    &&& f.stmt == "from "@ + parent + " import "@ + child
    &&& f.bound == child
    &&& f.target == parent + "."@ + child
    &&& f.key == parent + "."@ + child
    &&& f.qualified == child + "."@ + name
}

/// Whether a fix imports a module by its full path, and the use names it by that. Such an import
/// binds the first part of the path.
pub open spec fn imports_by_path(f: FixView, module: Seq<char>, name: Seq<char>) -> bool {
    &&& f.stmt == "import "@ + module
    &&& is_undotted(f.bound)
    &&& leads_to(f.bound, module)
    &&& f.target == f.bound
    &&& f.key == module
    &&& f.qualified == module + "."@ + name
}

/// What takes the place of a use begins with the name that the added import binds, and then goes
/// on with a dot.
pub proof fn law_qualified_uses_begin_with_the_bound_name(
    facts: Seq<AnswerView>,
    module: Seq<char>,
    name: Seq<char>,
)
    ensures
        ({
            let f = fix_of(facts, module, name);
            &&& is_undotted(f.bound)
            &&& (f.bound + "."@).is_prefix_of(f.qualified)
            &&& ("."@ + name).is_suffix_of(f.qualified)
        }),
{
    let f = fix_of(facts, module, name);
    law_fix_imports_the_module(facts, module, name);
    reveal_strlit(".");
    if imports_by_path(f, module, name) {
        if module == f.bound {
            assert((f.bound + "."@).is_prefix_of(f.qualified));
        } else {
            let n = f.bound.len() as int;
            assert(f.qualified.take(n + 1) =~= f.bound + "."@) by {
                assert forall|i: int| 0 <= i < n + 1 implies f.qualified[i] == (f.bound
                    + "."@)[i] by {
                    assert(f.qualified[i] == module[i]);
                    if i < n {
                        assert(module.take(n)[i] == module[i]);
                    }
                }
            }
        }
        assert(f.qualified.skip(module.len() as int) =~= "."@ + name);
    } else {
        let (parent, child) = choose|parent: Seq<char>, child: Seq<char>| #[trigger]
            imports_from_parent(f, facts, module, name, parent, child);
        assert(f.qualified.take(child.len() as int + 1) =~= child + "."@);
        assert(f.qualified.skip(child.len() as int) =~= "."@ + name);
    }
}

/// A fix imports a module that is known from its parent, or else the module by its full path; the
/// use is named by what the import binds.
pub proof fn law_fix_imports_the_module(facts: Seq<AnswerView>, module: Seq<char>, name: Seq<char>)
    ensures
        ({
            let f = fix_of(facts, module, name);
            imports_by_path(f, module, name) || exists|parent: Seq<char>, child: Seq<char>|
                #[trigger] imports_from_parent(f, facts, module, name, parent, child)
        }),
{
    let parts = split_spec(module, '.');
    let f = fix_of(facts, module, name);
    lemma_split_join(module);
    lemma_module_split(facts, parts, parts.len() - 1);
    match module_split(facts, parts, parts.len() - 1) {
        Some(n) => {
            let parent = join_spec(parts.take(n), "."@);
            let child = parts[n];
            assert(parts.take(n + 1).drop_last() =~= parts.take(n));
            assert(parts.take(n + 1).last() == child);
            assert(join_spec(parts.take(n + 1), "."@) == parent + "."@ + child);
            lemma_take_leads(parts, n + 1);
            assert(imports_from_parent(f, facts, module, name, parent, child));
        },
        None => {
            assert(parts.take(1) =~= seq![parts[0]]);
            assert(join_spec(parts.take(1), "."@) == parts[0]);
            lemma_take_leads(parts, 1);
            assert(imports_by_path(f, module, name));
        },
    }
}

/// A module that is known from its parent is imported from there, and the use becomes the module's
/// own name with the imported one behind it.
pub proof fn law_known_module_is_imported_from_its_parent(
    facts: Seq<AnswerView>,
    parent: Seq<char>,
    child: Seq<char>,
    name: Seq<char>,
)
    requires
        is_undotted(child),
        answer(facts, parent, child) == ModuleCheck::Module,
    ensures
        ({
            let f = fix_of(facts, parent + "."@ + child, name);
            &&& f.stmt == "from "@ + parent + " import "@ + child
            &&& f.bound == child
            &&& f.qualified == child + "."@ + name
        }),
{
    let module = parent + "."@ + child;
    lemma_split_behind(parent, child);
    lemma_split_join(parent);
    let parts = split_spec(module, '.');
    let n = parts.len() - 1;
    assert(parts.take(n) =~= split_spec(parent, '.'));
    assert(parts[n] == child);
}

proof fn lemma_split_behind(parent: Seq<char>, child: Seq<char>)
    requires
        is_undotted(child),
    ensures
        split_spec(parent + "."@ + child, '.') == split_spec(parent, '.').push(child),
    decreases parent.len(),
{
    reveal_strlit(".");
    let whole = parent + "."@ + child;
    let k = index_of(parent, '.');
    lemma_index_of(parent, '.');
    assert(whole[parent.len() as int] == '.');
    assert(forall|j: int| 0 <= j < parent.len() ==> whole[j] == parent[j]);
    lemma_index_of_is(whole, '.', k);
    if k < parent.len() {
        let rest = parent.skip(k + 1);
        lemma_split_behind(rest, child);
        assert(whole.take(k) =~= parent.take(k));
        assert(whole.skip(k + 1) =~= rest + "."@ + child);
        assert(split_spec(whole, '.') =~= split_spec(parent, '.').push(child));
    } else {
        assert(whole.take(k) =~= parent);
        assert(whole.skip(k + 1) =~= child);
        lemma_index_of_is(child, '.', child.len() as int);
        assert(split_spec(child, '.') =~= seq![child]);
        assert(split_spec(parent, '.') =~= seq![parent]);
        assert(split_spec(whole, '.') =~= seq![parent].push(child));
    }
}

/// A module no part of whose path is known from its parent is imported by its full path, and the
/// use becomes that path with the imported name behind it.
pub proof fn law_unknown_module_is_imported_by_path(
    facts: Seq<AnswerView>,
    module: Seq<char>,
    name: Seq<char>,
)
    requires
        forall|parent: Seq<char>, child: Seq<char>|
            leads_to(#[trigger] (parent + "."@ + child), module) ==> answer(facts, parent, child)
                != ModuleCheck::Module,
    ensures
        fix_of(facts, module, name).stmt == "import "@ + module,
        fix_of(facts, module, name).qualified == module + "."@ + name,
{
    let f = fix_of(facts, module, name);
    law_fix_imports_the_module(facts, module, name);
    if !imports_by_path(f, module, name) {
        let (parent, child) = choose|parent: Seq<char>, child: Seq<char>| #[trigger]
            imports_from_parent(f, facts, module, name, parent, child);
        assert(leads_to(parent + "."@ + child, module));
    }
}

/// Of the modules on the way to the one that a name came from the deepest that is known from its
/// parent is imported; only where none is known the whole path is.
pub proof fn law_deepest_known_module_is_imported(
    facts: Seq<AnswerView>,
    module: Seq<char>,
    name: Seq<char>,
    m: int,
)
    requires
        1 <= m < split_spec(module, '.').len(),
        answer(facts, join_spec(split_spec(module, '.').take(m), "."@), split_spec(module, '.')[m])
            == ModuleCheck::Module,
    ensures
        exists|n: int|
            m <= n < split_spec(module, '.').len() && fix_of(facts, module, name).bound
                == #[trigger] split_spec(module, '.')[n] && fix_of(facts, module, name).target
                == join_spec(split_spec(module, '.').take(n + 1), "."@),
{
    let parts = split_spec(module, '.');
    lemma_module_split(facts, parts, parts.len() - 1);
    match module_split(facts, parts, parts.len() - 1) {
        Some(n) => {
            assert(parts.take(n + 1).drop_last() =~= parts.take(n));
            assert(parts.take(n + 1).last() == parts[n]);
            assert(parts.take(m) =~= parts.take(m));
        },
        None => {
            assert(parts.take(m) =~= parts.take(m));
        },
    }
}

// ---------------------------------------------------------------------------
// What is looked at
// ---------------------------------------------------------------------------

/// Whether the node at `a` stands around the node at `i`.
pub open spec fn is_around(nodes: Seq<NodeView>, a: int, i: int) -> bool
    decreases i,
{
    0 < i && 0 <= nodes[i].parent < i && (nodes[i].parent == a || is_around(
        nodes,
        a,
        nodes[i].parent,
    ))
}

/// Whether a node is one that can hold statements.
pub open spec fn can_hold_statements(k: Kind) -> bool {
    ||| k == Kind::Module
    ||| k == Kind::FunctionDef
    ||| k == Kind::ClassDef
    ||| k == Kind::If
    ||| k == Kind::ElifElse
    ||| k == Kind::For
    ||| k == Kind::While
    ||| k == Kind::With
    ||| k == Kind::Match
    ||| k == Kind::Case
    ||| k == Kind::Try
    ||| k == Kind::Handler
}

/// Imports are looked for at any depth: wherever all that stands around a statement can hold
/// statements.
pub proof fn law_imports_are_looked_for_at_any_depth(nodes: Seq<NodeView>, i: int)
    ensures
        reached(nodes, i) <==> forall|a: int|
            is_around(nodes, a, i) ==> can_hold_statements(#[trigger] nodes[a].kind),
    decreases i,
{
    if 0 < i && 0 <= nodes[i].parent < i {
        let p = nodes[i].parent;
        law_imports_are_looked_for_at_any_depth(nodes, p);
        assert(is_around(nodes, p, i));
        if reached(nodes, i) {
            assert forall|a: int| is_around(nodes, a, i) implies can_hold_statements(
                #[trigger] nodes[a].kind,
            ) by {
                if a != p {
                    assert(is_around(nodes, a, p));
                }
            }
        }
        if forall|a: int| is_around(nodes, a, i) ==> can_hold_statements(#[trigger] nodes[a].kind) {
            assert(can_hold_statements(nodes[p].kind));
            assert forall|a: int| is_around(nodes, a, p) implies can_hold_statements(
                #[trigger] nodes[a].kind,
            ) by {
                assert(is_around(nodes, a, i));
            }
        }
    }
}

/// Whether the node at `j` is an identifier right inside the node at `i`.
pub open spec fn has_name(nodes: Seq<NodeView>, j: int, i: int) -> bool {
    j < nodes.len() && nodes[j].kind == Kind::Identifier && nodes[j].parent == i
}

/// Whether the node at `a` is a name of a `from X import ...` that names its module without
/// leading dots, at any depth.
pub open spec fn is_imported_name(nodes: Seq<NodeView>, a: int) -> bool {
    let s = nodes[a].parent;
    &&& 0 <= a < nodes.len()
    &&& nodes[a].kind == Kind::Alias
    &&& nodes[s].kind == Kind::ImportFrom && nodes[s].level == 0
    &&& 0 <= s + 1 && has_name(nodes, s + 1, s)
    &&& forall|x: int| is_around(nodes, x, s) ==> can_hold_statements(#[trigger] nodes[x].kind)
}

/// The module that a name is imported from.
pub open spec fn module_at(nodes: Seq<NodeView>, a: int) -> Seq<char> {
    nodes[nodes[a].parent + 1].text
}

/// The name that is imported.
pub open spec fn name_at(nodes: Seq<NodeView>, a: int) -> Seq<char> {
    if has_name(nodes, a + 1, a) {
        nodes[a + 1].text
    } else {
        Seq::empty()
    }
}

/// The name that it has in the file.
pub open spec fn local_at(nodes: Seq<NodeView>, a: int) -> Seq<char> {
    if has_name(nodes, a + 2, a) {
        nodes[a + 2].text
    } else {
        name_at(nodes, a)
    }
}

/// Whether a string at `e` stands in the list or tuple `v` that a statement `s` of the module gives
/// or adds to `__all__`.
pub open spec fn is_listed_at(nodes: Seq<NodeView>, e: int, v: int, s: int, t: int) -> bool {
    &&& 0 <= e < nodes.len() && nodes[e].kind == Kind::Str && nodes[e].parent == v
    &&& nodes[v].kind == Kind::List || nodes[v].kind == Kind::Tuple
    &&& nodes[v].parent == s && forall|j: int|
        v < j < nodes.len() ==> (#[trigger] nodes[j]).parent != s
    &&& (nodes[s].kind == Kind::Assign || nodes[s].kind == Kind::AugAssign) && nodes[s].parent == 0
    &&& 0 <= t < v && nodes[t].parent == s && nodes[t].text == "__all__"@
    &&& nodes[t].kind == Kind::Store || nodes[t].kind == Kind::Load
}

/// Whether the file lists a name in `__all__`.
pub open spec fn is_listed(nodes: Seq<NodeView>, name: Seq<char>) -> bool {
    exists|e: int, v: int, s: int, t: int| #[trigger]
        is_listed_at(nodes, e, v, s, t) && nodes[e].text == name
}

proof fn lemma_listed(nodes: Seq<NodeView>, name: Seq<char>)
    ensures
        exported(nodes, name) == is_listed(nodes, name),
{
    if exported(nodes, name) {
        let e = choose|e: int|
            0 <= e < nodes.len() && is_export(nodes, e) && (#[trigger] nodes[e]).text == name;
        let v = nodes[e].parent;
        let s = nodes[v].parent;
        assert(is_last_in(nodes, v, s));
        let t = choose|t: int|
            0 <= t < v && (#[trigger] nodes[t]).parent == s && (nodes[t].kind == Kind::Store
                || nodes[t].kind == Kind::Load) && nodes[t].text == "__all__"@;
        assert(is_listed_at(nodes, e, v, s, t));
    }
    if is_listed(nodes, name) {
        let (e, v, s, t) = choose|e: int, v: int, s: int, t: int| #[trigger]
            is_listed_at(nodes, e, v, s, t) && nodes[e].text == name;
        assert(nodes[t].parent == s);
        assert(is_export(nodes, e));
        assert(nodes[e].text == name);
    }
}

/// Whether a `# noqa` on a line suppresses the rule.
pub open spec fn is_silenced(input: Input, line: int) -> bool {
    let lines = lines_spec(input.source);
    !input.ignore_noqa && 1 <= line <= lines.len() && suppressed(
        lines[line - 1],
        "KIS001"@,
        input.aliases,
    )
}

/// Whether an imported name is to be looked at: its module is not excepted, the file does not list
/// it in `__all__`, and no `# noqa` on the first line of its statement or on its own silences it.
/// What the name is spelled like plays no part.
pub open spec fn is_due(input: Input, a: int) -> bool {
    let nodes = input.nodes();
    let starts = line_starts_of(input.source);
    &&& is_imported_name(nodes, a)
    &&& !input.exceptions.contains(module_at(nodes, a))
    &&& !is_listed(nodes, name_at(nodes, a))
    &&& !is_listed(nodes, local_at(nodes, a))
    &&& !is_silenced(input, line_of(starts, nodes[nodes[a].parent].start))
    &&& !is_silenced(input, line_of(starts, nodes[a].start))
}

/// What is known of an imported name.
pub open spec fn known_of(input: Input, a: int) -> ModuleCheck {
    answer(input.facts, module_at(input.nodes(), a), name_at(input.nodes(), a))
}

/// Whether a violation is about an imported name: it stands where the statement does.
pub open spec fn stands_at(input: Input, a: int, v: ViolationView) -> bool {
    let nodes = input.nodes();
    let starts = line_starts_of(input.source);
    let s = nodes[nodes[a].parent];
    let last = if s.end > 0 {
        s.end - 1
    } else {
        0
    };
    &&& v.rule == "KIS001"@
    &&& v.line == line_of(starts, s.start) && v.col == col_of(starts, s.start)
    &&& v.end_line == line_of(starts, last) && v.end_col == col_of(starts, last) + 1
}

/// Whether a violation says that an imported name is no module.
pub open spec fn says_no_module(input: Input, a: int, level: Level, v: ViolationView) -> bool {
    &&& stands_at(input, a, v)
    &&& v.level == level
    &&& v.message == "KIS001: Import '"@ + name_at(input.nodes(), a) + "' from '"@ + module_at(
        input.nodes(),
        a,
    ) + "' is not a module."@
}

/// Whether a violation says that it is not known what an imported name is.
pub open spec fn says_unknown(input: Input, a: int, level: Level, v: ViolationView) -> bool {
    &&& stands_at(input, a, v)
    &&& v.level == level && !v.fixable
    &&& ("KIS001: Cannot verify whether '"@ + name_at(input.nodes(), a) + "' from '"@ + module_at(
        input.nodes(),
        a,
    ) + "' is a module -- '"@).is_prefix_of(v.message)
}

// ---------------------------------------------------------------------------
// What is reported
// ---------------------------------------------------------------------------

pub proof fn lemma_item(input: Input, a: int)
    requires
        0 <= a < input.nodes().len(),
    ensures
        is_item(input.nodes(), a) == is_imported_name(input.nodes(), a),
        is_item(input.nodes(), a) ==> {
            let it = item_of(line_starts_of(input.source), input.nodes(), a);
            &&& it.module == module_at(input.nodes(), a)
            &&& it.name == name_at(input.nodes(), a)
            &&& it.local() == local_at(input.nodes(), a)
            &&& input.reported(it) == (is_due(input, a) && known_of(input, a)
                != ModuleCheck::Module)
            &&& input.verdict(it) == known_of(input, a)
        },
{
    let nodes = input.nodes();
    let s = nodes[a].parent;
    law_imports_are_looked_for_at_any_depth(nodes, s);
    lemma_listed(nodes, name_at(nodes, a));
    lemma_listed(nodes, local_at(nodes, a));
    assert(identifier_in(nodes, s + 1, s) == (0 <= s + 1 && has_name(nodes, s + 1, s)));
    if is_item(nodes, a) {
        let it = item_of(line_starts_of(input.source), nodes, a);
        assert(it.name == name_at(nodes, a));
        assert(alias_asname(nodes, a) == if has_name(nodes, a + 2, a) {
            Some(nodes[a + 2].text)
        } else {
            None
        });
    }
}

pub proof fn lemma_item_at(starts: Seq<int>, nodes: Seq<NodeView>, n: int, k: int) -> (a: int)
    requires
        0 <= k < items_to(starts, nodes, n).len(),
    ensures
        0 <= a < n,
        is_item(nodes, a),
        items_to(starts, nodes, n)[k] == item_of(starts, nodes, a),
    decreases n,
{
    if k < items_to(starts, nodes, n - 1).len() {
        lemma_item_at(starts, nodes, n - 1, k)
    } else {
        n - 1
    }
}

pub proof fn lemma_item_index(starts: Seq<int>, nodes: Seq<NodeView>, n: int, a: int) -> (k: int)
    requires
        0 <= a < n,
        is_item(nodes, a),
    ensures
        0 <= k < items_to(starts, nodes, n).len(),
        items_to(starts, nodes, n)[k] == item_of(starts, nodes, a),
    decreases n,
{
    if a < n - 1 {
        lemma_item_index(starts, nodes, n - 1, a)
    } else {
        items_to(starts, nodes, n - 1).len() as int
    }
}

proof fn lemma_reported_item(
    input: Input,
    level: Level,
    unresolved: Option<Level>,
    n: int,
    k: int,
) -> (i: int)
    requires
        0 <= k < n <= input.items().len(),
        input.reported(input.items()[k]),
        input.verdict(input.items()[k]) == ModuleCheck::NotModule || unresolved is Some,
    ensures
        0 <= i < input.violations(level, unresolved, n).len(),
        ({
            let it = input.items()[k];
            let v = input.violations(level, unresolved, n)[i];
            if input.verdict(it) == ModuleCheck::NotModule {
                v == module_violation(it, level, input.colliding(it, input.plan(k)))
            } else {
                v == unknown_violation(it, unresolved->0)
            }
        }),
    decreases n,
{
    if k < n - 1 {
        lemma_reported_item(input, level, unresolved, n - 1, k)
    } else {
        input.violations(level, unresolved, n - 1).len() as int
    }
}

proof fn lemma_violation_item(
    input: Input,
    level: Level,
    unresolved: Option<Level>,
    n: int,
    i: int,
) -> (k: int)
    requires
        0 <= i < input.violations(level, unresolved, n).len(),
        n <= input.items().len(),
    ensures
        0 <= k < n,
        input.reported(input.items()[k]),
        ({
            let it = input.items()[k];
            let v = input.violations(level, unresolved, n)[i];
            if input.verdict(it) == ModuleCheck::NotModule {
                v == module_violation(it, level, input.colliding(it, input.plan(k)))
            } else {
                unresolved is Some && v == unknown_violation(it, unresolved->0)
            }
        }),
    decreases n,
{
    if i < input.violations(level, unresolved, n - 1).len() {
        lemma_violation_item(input, level, unresolved, n - 1, i)
    } else {
        n - 1
    }
}

proof fn lemma_said(input: Input, a: int, level: Level, unresolved: Level, colliding: Option<Seq<char>>)
    requires
        0 <= a < input.nodes().len(),
        is_item(input.nodes(), a),
    ensures
        ({
            let it = item_of(line_starts_of(input.source), input.nodes(), a);
            &&& says_no_module(
                input,
                a,
                level,
                module_violation(it, level, colliding),
            )
            &&& says_unknown(input, a, unresolved, unknown_violation(it, unresolved))
        }),
{
    lemma_item(input, a);
    let it = item_of(line_starts_of(input.source), input.nodes(), a);
    let v = unknown_violation(it, unresolved);
    let front = "KIS001: Cannot verify whether '"@ + it.name + "' from '"@ + it.module
        + "' is a module -- '"@;
    assert(v.message.take(front.len() as int) =~= front);
}

/// Every imported name that is known to be no module is reported, whatever it is called and however
/// deep the import stands, unless its module is excepted, the file lists it in `__all__`, or a
/// `# noqa` silences it.
pub proof fn law_every_imported_object_is_reported(
    input: Input,
    level: Level,
    unresolved: Option<Level>,
    a: int,
) -> (i: int)
    requires
        is_due(input, a),
        known_of(input, a) == ModuleCheck::NotModule,
    ensures
        ({
            let all = input.violations(level, unresolved, input.items().len() as int);
            0 <= i < all.len() && says_no_module(input, a, level, all[i])
        }),
{
    let nodes = input.nodes();
    let starts = line_starts_of(input.source);
    lemma_item(input, a);
    let k = lemma_item_index(starts, nodes, nodes.len() as int, a);
    let i = lemma_reported_item(input, level, unresolved, input.items().len() as int, k);
    lemma_said(input, a, level, level, input.colliding(input.items()[k], input.plan(k)));
    i
}

/// Every imported name of which nothing is known is reported as such with the level for those,
/// unless that is switched off, or for the reasons for which others are not reported.
pub proof fn law_every_unknown_import_is_reported(
    input: Input,
    level: Level,
    unresolved: Level,
    a: int,
) -> (i: int)
    requires
        is_due(input, a),
        known_of(input, a) == ModuleCheck::Unknown,
    ensures
        ({
            let all = input.violations(level, Some(unresolved), input.items().len() as int);
            0 <= i < all.len() && says_unknown(input, a, unresolved, all[i])
        }),
{
    let nodes = input.nodes();
    let starts = line_starts_of(input.source);
    lemma_item(input, a);
    let k = lemma_item_index(starts, nodes, nodes.len() as int, a);
    let i = lemma_reported_item(input, level, Some(unresolved), input.items().len() as int, k);
    lemma_said(input, a, level, unresolved, None);
    i
}

/// Nothing else is reported: each violation is about an imported name that is to be looked at and
/// is known to be no module, or of which nothing is known where that is reported.
pub proof fn law_nothing_else_is_reported(
    input: Input,
    level: Level,
    unresolved: Option<Level>,
    i: int,
) -> (a: int)
    requires
        0 <= i < input.violations(level, unresolved, input.items().len() as int).len(),
    ensures
        is_due(input, a),
        ({
            let v = input.violations(level, unresolved, input.items().len() as int)[i];
            ||| known_of(input, a) == ModuleCheck::NotModule && says_no_module(input, a, level, v)
            ||| known_of(input, a) == ModuleCheck::Unknown && unresolved is Some && says_unknown(
                input,
                a,
                unresolved->0,
                v,
            )
        }),
{
    let nodes = input.nodes();
    let starts = line_starts_of(input.source);
    let n = input.items().len() as int;
    let k = lemma_violation_item(input, level, unresolved, n, i);
    let a = lemma_item_at(starts, nodes, nodes.len() as int, k);
    lemma_item(input, a);
    let l = match unresolved {
        Some(l) => l,
        None => level,
    };
    lemma_said(input, a, level, l, input.colliding(input.items()[k], input.plan(k)));
    a
}

/// How many of the first `n` nodes are imported names that are reported.
pub open spec fn due_count(input: Input, unresolved: Option<Level>, n: int) -> nat
    decreases n,
{
    if n <= 0 {
        0
    } else {
        due_count(input, unresolved, n - 1) + if is_due(input, n - 1) && (known_of(input, n - 1)
            == ModuleCheck::NotModule || (known_of(input, n - 1) == ModuleCheck::Unknown
            && unresolved is Some)) {
            1nat
        } else {
            0
        }
    }
}

proof fn lemma_violation_count(input: Input, level: Level, unresolved: Option<Level>, n: int)
    requires
        0 <= n <= input.nodes().len(),
    ensures
        ({
            let items = items_to(line_starts_of(input.source), input.nodes(), n);
            &&& items.len() <= input.items().len()
            &&& forall|k: int| 0 <= k < items.len() ==> items[k] == input.items()[k]
            &&& input.violations(level, unresolved, items.len() as int).len() == due_count(
                input,
                unresolved,
                n,
            )
        }),
    decreases n,
{
    let starts = line_starts_of(input.source);
    let nodes = input.nodes();
    lemma_items_grow(starts, nodes, n, nodes.len() as int);
    if n > 0 {
        lemma_violation_count(input, level, unresolved, n - 1);
        lemma_item(input, n - 1);
        let before = items_to(starts, nodes, n - 1);
        let items = items_to(starts, nodes, n);
        if is_item(nodes, n - 1) {
            assert(items[before.len() as int] == input.items()[before.len() as int]);
        }
    }
}

proof fn lemma_items_grow(starts: Seq<int>, nodes: Seq<NodeView>, m: int, n: int)
    requires
        0 <= m <= n,
    ensures
        items_to(starts, nodes, m).len() <= items_to(starts, nodes, n).len(),
        forall|k: int|
            0 <= k < items_to(starts, nodes, m).len() ==> items_to(starts, nodes, m)[k] == items_to(
                starts,
                nodes,
                n,
            )[k],
    decreases n,
{
    if m < n {
        lemma_items_grow(starts, nodes, m, n - 1);
    }
}

/// Every name that is reported is reported once.
pub proof fn law_each_import_is_reported_once(
    input: Input,
    level: Level,
    unresolved: Option<Level>,
)
    ensures
        input.violations(level, unresolved, input.items().len() as int).len() == due_count(
            input,
            unresolved,
            input.nodes().len() as int,
        ),
{
    lemma_violation_count(input, level, unresolved, input.nodes().len() as int);
}

} // verus!
