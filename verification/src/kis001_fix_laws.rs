//! Which imports are rewritten, and what rewriting them leaves of a file.
use crate::edit::{lemma_push_holds, spliced, SpliceView};
use crate::import_items::{item_of, ItemView};
use crate::imports::{alias_asname, binding_of, dots, is_import_alias};
use crate::kis001::{path_of, Input, PlanView};
use crate::kis001_fix::{
    added_imports, does_import, ended_lines, first_vanished, is_imported, line_end, needs_pass,
    removed_at, rename_of, renamed_line, uses_on, vanished_in,
};
use crate::kis001_laws::{
    has_name, is_due, is_silenced, known_of, lemma_item, lemma_item_at, lemma_item_index, local_at,
    module_at, name_at,
};
use crate::kis002_laws::{is_import_name, lemma_import_name};
use crate::line_index::{col_of, line_of, line_starts_of};
use crate::module_facts::ModuleCheck;
use crate::ordered::{lemma_with_text, sorted};
use crate::rewrite::{entry_name, survivors};
use crate::scope::{bound, SpanView};
use crate::split::{head_spec, lines_spec};
use crate::syntax::{Kind, NodeView};
use crate::text::{occurs, trim_spec};
use vstd::prelude::*;

verus! {

// ---------------------------------------------------------------------------
// Which names are rewritten
// ---------------------------------------------------------------------------

/// The dotted path of what an import gives a name to.
pub open spec fn path_at(nodes: Seq<NodeView>, b: int) -> Seq<char> {
    let s = nodes[b].parent;
    if nodes[s].kind == Kind::ImportFrom {
        if has_name(nodes, s + 1, s) && s + 1 >= 0 {
            dots(nodes[s].level) + nodes[s + 1].text + "."@ + name_at(nodes, b)
        } else {
            dots(nodes[s].level) + name_at(nodes, b)
        }
    } else if has_name(nodes, b + 2, b) {
        name_at(nodes, b)
    } else {
        head_spec(name_at(nodes, b), '.')
    }
}

/// Whether an import that is not rewritten as a whole gives a name to something other than what the
/// path says.
pub open spec fn is_taken_by_an_import(input: Input, name: Seq<char>, path: Seq<char>) -> bool {
    exists|b: int|
        0 <= b < input.nodes().len() && #[trigger] is_import_name(input.nodes(), b, name) && !(
        is_due(input, b) && known_of(input, b) == ModuleCheck::NotModule) && path_at(
            input.nodes(),
            b,
        ) != path
}

proof fn lemma_overlaps(input: Input, name: Seq<char>, path: Seq<char>)
    requires
        input.target is None,
    ensures
        input.overlaps(name, path) == is_taken_by_an_import(input, name, path),
{
    let nodes = input.nodes();
    assert forall|b: int| 0 <= b < nodes.len() implies (is_import_alias(nodes, b)
        && !input.flagged_node(b) && binding_of(nodes, b).0 == name && path_of(nodes, b) != path)
        == (is_import_name(nodes, b, name) && !(is_due(input, b) && known_of(input, b)
        == ModuleCheck::NotModule) && path_at(nodes, b) != path) by {
        lemma_import_name(nodes, b, name);
        lemma_item(input, b);
        assert(alias_asname(nodes, b) == if has_name(nodes, b + 2, b) {
            Some(nodes[b + 2].text)
        } else {
            None
        });
        assert(path_at(nodes, b) == path_of(nodes, b));
    }
    if input.overlaps(name, path) {
        let b = choose|b: int|
            0 <= b < nodes.len() && #[trigger] is_import_alias(nodes, b) && !input.flagged_node(b)
                && binding_of(nodes, b).0 == name && path_of(nodes, b) != path;
        assert(is_import_name(nodes, b, name));
    }
    if is_taken_by_an_import(input, name, path) {
        let b = choose|b: int|
            0 <= b < nodes.len() && #[trigger] is_import_name(nodes, b, name) && !(is_due(input, b)
                && known_of(input, b) == ModuleCheck::NotModule) && path_at(nodes, b) != path;
        assert(is_import_alias(nodes, b));
    }
}

/// Whether an earlier rewritten import takes a name for something else.
pub open spec fn is_claimed(plan: Seq<PlanView>, name: Seq<char>, path: Seq<char>) -> bool {
    exists|j: int|
        0 <= j < plan.len() && (#[trigger] plan[j]).fix.bound == name && plan[j].fix.target != path
}

proof fn lemma_planned(input: Input, n: int, k: int) -> (i: int)
    requires
        0 <= k < n,
        input.flagged(input.items()[k]),
        input.safe(input.items()[k], input.plan(k)),
    ensures
        0 <= i < input.plan(n).len(),
        input.plan(n)[i].item == input.items()[k],
        input.plan(n)[i].fix == input.fix(input.items()[k]),
    decreases n,
{
    if k < n - 1 {
        lemma_planned(input, n - 1, k)
    } else {
        input.plan(n - 1).len() as int
    }
}

/// Every imported name that is reported as no module is rewritten, unless the file gives its name or
/// the new one another meaning, an import that stays takes the new name for something else, or an
/// import that is rewritten before it does.
pub proof fn law_reported_names_are_rewritten_where_that_is_safe(input: Input, a: int) -> (k: int)
    requires
        input.target is None,
        is_due(input, a),
        known_of(input, a) == ModuleCheck::NotModule,
    ensures
        0 <= k < input.items().len(),
        input.items()[k] == item_of(line_starts_of(input.source), input.nodes(), a),
        ({
            let f = crate::kis001::fix_of(
                input.facts,
                module_at(input.nodes(), a),
                name_at(input.nodes(), a),
            );
            let safe = !bound(input.nodes(), local_at(input.nodes(), a)) && !bound(
                input.nodes(),
                f.bound,
            ) && !is_taken_by_an_import(input, f.bound, f.target) && !is_claimed(
                input.plan(k),
                f.bound,
                f.target,
            );
            safe ==> exists|i: int|
                0 <= i < input.full_plan().len() && (#[trigger] input.full_plan()[i]).item
                    == input.items()[k] && input.full_plan()[i].fix == f
        }),
{
    let nodes = input.nodes();
    let starts = line_starts_of(input.source);
    lemma_item(input, a);
    let k = lemma_item_index(starts, nodes, nodes.len() as int, a);
    let it = input.items()[k];
    let f = input.fix(it);
    lemma_overlaps(input, f.bound, f.target);
    if !bound(nodes, local_at(nodes, a)) && !bound(nodes, f.bound) && !is_taken_by_an_import(
        input,
        f.bound,
        f.target,
    ) && !is_claimed(input.plan(k), f.bound, f.target) {
        if crate::kis001::claimed(input.plan(k), f.bound, f.target) {
            let j = choose|j: int|
                0 <= j < input.plan(k).len() && (#[trigger] input.plan(k)[j]).fix.bound == f.bound
                    && input.plan(k)[j].fix.target != f.target;
            assert(is_claimed(input.plan(k), f.bound, f.target));
        }
        assert(input.flagged(it));
        let i = lemma_planned(input, input.items().len() as int, k);
        assert(input.full_plan()[i].item == it);
    }
    k
}

/// Nothing else is rewritten: what is rewritten was reported as no module, and neither its name nor
/// the new one has another meaning in the file.
pub proof fn law_only_safe_names_are_rewritten(input: Input, n: int, j: int) -> (a: int)
    requires
        input.target is None,
        n <= input.items().len(),
        0 <= j < input.plan(n).len(),
    ensures
        is_due(input, a),
        known_of(input, a) == ModuleCheck::NotModule,
        input.plan(n)[j].item == item_of(line_starts_of(input.source), input.nodes(), a),
        ({
            let f = input.plan(n)[j].fix;
            &&& f == crate::kis001::fix_of(
                input.facts,
                module_at(input.nodes(), a),
                name_at(input.nodes(), a),
            )
            &&& !bound(input.nodes(), local_at(input.nodes(), a))
            &&& !bound(input.nodes(), f.bound)
            &&& !is_taken_by_an_import(input, f.bound, f.target)
        }),
    decreases n,
{
    if j < input.plan(n - 1).len() {
        law_only_safe_names_are_rewritten(input, n - 1, j)
    } else {
        let nodes = input.nodes();
        let a = lemma_item_at(line_starts_of(input.source), nodes, nodes.len() as int, n - 1);
        lemma_item(input, a);
        let f = input.plan(n)[j].fix;
        lemma_overlaps(input, f.bound, f.target);
        a
    }
}

// ---------------------------------------------------------------------------
// What leaves the imports
// ---------------------------------------------------------------------------

/// The names that leave the import that starts on a line are those of the rewritten names there,
/// each once and in order.
pub proof fn law_rewritten_names_leave_their_import(plan: Seq<PlanView>, at: int)
    ensures
        sorted(removed_at(plan, at)),
        forall|x: Seq<char>|
            removed_at(plan, at).contains(x) <==> exists|k: int|
                0 <= k < plan.len() && (#[trigger] plan[k]).item.start_line - 1 == at
                    && plan[k].item.name == x,
    decreases plan.len(),
{
    if plan.len() > 0 {
        let rest = plan.drop_last();
        let last = plan.last();
        law_rewritten_names_leave_their_import(rest, at);
        lemma_with_text(removed_at(rest, at), last.item.name);
        assert forall|x: Seq<char>| removed_at(plan, at).contains(x) <==> exists|k: int|
            0 <= k < plan.len() && (#[trigger] plan[k]).item.start_line - 1 == at
                && plan[k].item.name == x by {
            if removed_at(rest, at).contains(x) {
                let k = choose|k: int|
                    0 <= k < rest.len() && (#[trigger] rest[k]).item.start_line - 1 == at
                        && rest[k].item.name == x;
                assert(plan[k] == rest[k]);
            }
            if exists|k: int|
                0 <= k < plan.len() && (#[trigger] plan[k]).item.start_line - 1 == at
                    && plan[k].item.name == x {
                let k = choose|k: int|
                    0 <= k < plan.len() && (#[trigger] plan[k]).item.start_line - 1 == at
                        && plan[k].item.name == x;
                if k < rest.len() {
                    assert(rest[k] == plan[k]);
                }
            }
            if last.item.start_line - 1 == at && x == last.item.name {
                assert(plan[plan.len() - 1].item.name == x);
            }
        }
    } else {
        assert forall|x: Seq<char>| !removed_at(plan, at).contains(x) by {}
    }
}

/// The entries of an import that stay are those whose first word does not leave, in their order and
/// each on its own account.
pub proof fn law_entries_stay_on_their_own_account(
    a: Seq<Seq<char>>,
    b: Seq<Seq<char>>,
    removed: Seq<Seq<char>>,
    keep_empty: bool,
)
    ensures
        survivors(a + b, removed, keep_empty) == survivors(a, removed, keep_empty) + survivors(
            b,
            removed,
            keep_empty,
        ),
        survivors(Seq::empty(), removed, keep_empty).len() == 0,
        b.len() == 1 ==> survivors(b, removed, keep_empty) == if (trim_spec(b[0]).len() > 0
            || keep_empty) && !removed.contains(entry_name(trim_spec(b[0]))) {
            seq![trim_spec(b[0])]
        } else {
            Seq::empty()
        },
    decreases b.len(),
{
    let all = a + b;
    if b.len() == 0 {
        assert(all =~= a);
        assert(survivors(a, removed, keep_empty) + Seq::<Seq<char>>::empty() =~= survivors(
            a,
            removed,
            keep_empty,
        ));
    } else {
        let rest = b.drop_last();
        law_entries_stay_on_their_own_account(a, rest, removed, keep_empty);
        assert(all.drop_last() =~= a + rest);
        assert(all.last() == b.last());
        assert(survivors(all, removed, keep_empty) =~= survivors(a, removed, keep_empty)
            + survivors(b, removed, keep_empty));
        if b.len() == 1 {
            assert(survivors(rest, removed, keep_empty) =~= Seq::empty());
            assert(Seq::<Seq<char>>::empty().push(trim_spec(b[0])) =~= seq![trim_spec(b[0])]);
        }
    }
}

// ---------------------------------------------------------------------------
// Uses
// ---------------------------------------------------------------------------

/// A name becomes what the first rewritten import of that name says, and stays where none is
/// rewritten.
pub proof fn law_uses_follow_the_first_rewritten_import(plan: Seq<PlanView>, name: Seq<char>)
    ensures
        match rename_of(plan, name) {
            Some(new) => exists|k: int|
                0 <= k < plan.len() && (#[trigger] plan[k]).item.local() == name
                    && plan[k].fix.qualified == new && forall|j: int|
                    0 <= j < k ==> (#[trigger] plan[j]).item.local() != name,
            None => forall|j: int| 0 <= j < plan.len() ==> (#[trigger] plan[j]).item.local() != name,
        },
    decreases plan.len(),
{
    if plan.len() > 0 {
        if plan[0].item.local() == name {
            assert(plan[0].fix.qualified == rename_of(plan, name)->0);
        } else {
            let rest = plan.skip(1);
            law_uses_follow_the_first_rewritten_import(rest, name);
            match rename_of(rest, name) {
                Some(new) => {
                    let k = choose|k: int|
                        0 <= k < rest.len() && (#[trigger] rest[k]).item.local() == name
                            && rest[k].fix.qualified == new && forall|j: int|
                            0 <= j < k ==> (#[trigger] rest[j]).item.local() != name;
                    assert(plan[k + 1] == rest[k]);
                    assert forall|j: int| 0 <= j < k + 1 implies (#[trigger] plan[j]).item.local()
                        != name by {
                        if j > 0 {
                            assert(rest[j - 1].item.local() != name);
                        }
                    }
                },
                None => {
                    assert forall|j: int| 0 <= j < plan.len() implies (
                    #[trigger] plan[j]).item.local() != name by {
                        if j > 0 {
                            assert(rest[j - 1].item.local() != name);
                        }
                    }
                },
            }
        }
    }
}

/// Whether a splice puts the new name where a rewritten name is read on the line `i`.
pub open spec fn is_use_on(
    starts: Seq<int>,
    plan: Seq<PlanView>,
    i: int,
    s: SpanView,
    x: SpliceView,
) -> bool {
    &&& rename_of(plan, s.name) == Some(x.text)
    &&& line_of(starts, s.start) == i + 1 && line_of(starts, s.end) == i + 1
    &&& x.start == col_of(starts, s.start) && x.end == col_of(starts, s.end)
}

/// Every place on a line that reads a rewritten name is changed to the new one, and no other place.
pub proof fn law_every_use_is_qualified(
    starts: Seq<int>,
    spans: Seq<SpanView>,
    plan: Seq<PlanView>,
    i: int,
    x: SpliceView,
)
    ensures
        uses_on(starts, spans, plan, i).contains(x) <==> exists|j: int|
            0 <= j < spans.len() && is_use_on(starts, plan, i, #[trigger] spans[j], x),
    decreases spans.len(),
{
    if spans.len() > 0 {
        let rest = spans.drop_last();
        let s = spans.last();
        law_every_use_is_qualified(starts, rest, plan, i, x);
        let before = uses_on(starts, rest, plan, i);
        if before.contains(x) {
            let j = choose|j: int|
                0 <= j < rest.len() && is_use_on(starts, plan, i, #[trigger] rest[j], x);
            assert(spans[j] == rest[j]);
        }
        if exists|j: int| 0 <= j < spans.len() && is_use_on(starts, plan, i, #[trigger] spans[j], x) {
            let j = choose|j: int|
                0 <= j < spans.len() && is_use_on(starts, plan, i, #[trigger] spans[j], x);
            if j < rest.len() {
                assert(rest[j] == spans[j]);
            }
        }
        match rename_of(plan, s.name) {
            Some(new) => {
                let y = SpliceView {
                    start: col_of(starts, s.start),
                    end: col_of(starts, s.end),
                    text: new,
                };
                lemma_push_holds(before, y, x);
                if x == y && line_of(starts, s.start) == i + 1 && line_of(starts, s.end) == i + 1 {
                    assert(is_use_on(starts, plan, i, spans[spans.len() - 1], x));
                }
            },
            None => {},
        }
    }
}

// ---------------------------------------------------------------------------
// New imports
// ---------------------------------------------------------------------------

/// Whether the file holds, among the statements of the module itself, an import that does what
/// `stmt` says: of one module without renaming it, or of one name of a module without renaming it.
pub open spec fn holds_import(nodes: Seq<NodeView>, a: int, stmt: Seq<char>) -> bool {
    let s = nodes[a].parent;
    &&& 0 <= a < nodes.len() && nodes[a].kind == Kind::Alias && nodes[s].parent == 0
    &&& {
        ||| nodes[s].kind == Kind::Import && !has_name(nodes, a + 2, a) && stmt == "import "@
            + name_at(nodes, a)
        ||| nodes[s].kind == Kind::ImportFrom && nodes[s].level == 0 && local_at(nodes, a)
            == name_at(nodes, a) && stmt == "from "@ + (if s + 1 >= 0 && has_name(
            nodes,
            s + 1,
            s,
        ) {
            nodes[s + 1].text
        } else {
            Seq::empty()
        }) + " import "@ + name_at(nodes, a)
    }
}

proof fn lemma_holds_import(nodes: Seq<NodeView>, a: int, stmt: Seq<char>)
    requires
        0 <= a < nodes.len(),
    ensures
        does_import(nodes, a, stmt) == holds_import(nodes, a, stmt),
{
    assert(alias_asname(nodes, a) == if has_name(nodes, a + 2, a) {
        Some(nodes[a + 2].text)
    } else {
        None
    });
}

/// The imports that are added are the statements of the rewritten names that the file does not hold
/// already, each once and in order.
pub proof fn law_missing_imports_are_added(
    nodes: Seq<NodeView>,
    plan: Seq<PlanView>,
    n: int,
    stmt: Seq<char>,
)
    requires
        0 <= n <= plan.len(),
    ensures
        sorted(added_imports(nodes, plan, n)),
        added_imports(nodes, plan, n).contains(stmt) <==> (exists|k: int|
            0 <= k < n && (#[trigger] plan[k]).fix.stmt == stmt) && !exists|a: int|
            0 <= a < nodes.len() && #[trigger] holds_import(nodes, a, stmt),
    decreases n,
{
    assert(is_imported(nodes, stmt) <==> exists|a: int|
        0 <= a < nodes.len() && #[trigger] holds_import(nodes, a, stmt)) by {
        if is_imported(nodes, stmt) {
            let a = choose|a: int| 0 <= a < nodes.len() && #[trigger] does_import(nodes, a, stmt);
            lemma_holds_import(nodes, a, stmt);
        }
        if exists|a: int| 0 <= a < nodes.len() && #[trigger] holds_import(nodes, a, stmt) {
            let a = choose|a: int| 0 <= a < nodes.len() && #[trigger] holds_import(nodes, a, stmt);
            lemma_holds_import(nodes, a, stmt);
        }
    }
    if n > 0 {
        law_missing_imports_are_added(nodes, plan, n - 1, stmt);
        let before = added_imports(nodes, plan, n - 1);
        lemma_with_text(before, plan[n - 1].fix.stmt);
        if exists|k: int| 0 <= k < n - 1 && (#[trigger] plan[k]).fix.stmt == stmt {
            let k = choose|k: int| 0 <= k < n - 1 && (#[trigger] plan[k]).fix.stmt == stmt;
            assert(plan[k].fix.stmt == stmt);
        }
        if exists|k: int| 0 <= k < n && (#[trigger] plan[k]).fix.stmt == stmt {
            let k = choose|k: int| 0 <= k < n && (#[trigger] plan[k]).fix.stmt == stmt;
            if k < n - 1 {
                assert(plan[k].fix.stmt == stmt);
            }
        }
        if plan[n - 1].fix.stmt == stmt {
            assert(plan[n - 1].fix.stmt == stmt);
        }
    } else {
        assert(!added_imports(nodes, plan, n).contains(stmt));
    }
}

/// Whether an import of the module itself is looked at.
pub open spec fn is_anchor(input: Input, it: ItemView) -> bool {
    it.is_top_level && !input.exceptions.contains(it.module) && !is_silenced(input, it.start_line)
}

proof fn lemma_anchor(input: Input, n: int)
    requires
        0 <= n <= input.items().len(),
    ensures
        match input.anchor(n) {
            Some(line) => (exists|k: int|
                0 <= k < n && is_anchor(input, #[trigger] input.items()[k])
                    && input.items()[k].end_line - 1 == line) && forall|k: int|
                0 <= k < n && is_anchor(input, #[trigger] input.items()[k])
                    ==> input.items()[k].end_line - 1 <= line,
            None => forall|k: int| 0 <= k < n ==> !is_anchor(input, #[trigger] input.items()[k]),
        },
    decreases n,
{
    if n > 0 {
        lemma_anchor(input, n - 1);
        let it = input.items()[n - 1];
        assert(input.considered(it) == (!input.exceptions.contains(it.module) && !is_silenced(
            input,
            it.start_line,
        )));
        match input.anchor(n - 1) {
            Some(line) => {
                let k = choose|k: int|
                    0 <= k < n - 1 && is_anchor(input, #[trigger] input.items()[k])
                        && input.items()[k].end_line - 1 == line;
                assert(is_anchor(input, input.items()[k]));
            },
            None => {},
        }
        assert(input.items()[n - 1] == it);
    }
}

/// The new imports stand together behind the last import of the module itself that is looked at, or
/// at the very top where there is none; all other lines come in their order.
pub proof fn law_new_imports_stand_behind_the_last_import(input: Input) -> (at: int)
    ensures
        ({
            let lines = input.renamed_lines();
            let plan = input.full_plan();
            let added = added_imports(input.nodes(), plan, plan.len() as int);
            let fixed = input.fixed_lines();
            &&& 0 <= at <= lines.len()
            &&& fixed.len() == lines.len() + added.len()
            &&& forall|i: int| 0 <= i < at ==> #[trigger] fixed[i] == lines[i]
            &&& forall|i: int|
                0 <= i < added.len() ==> #[trigger] fixed[at + i] == added[i] + line_end(
                    input.source,
                )
            &&& forall|i: int|
                at <= i < lines.len() ==> #[trigger] fixed[i + added.len()] == lines[i]
            &&& forall|k: int|
                0 <= k < input.items().len() && is_anchor(input, #[trigger] input.items()[k])
                    ==> input.items()[k].end_line <= at || at == lines.len()
            &&& (at > 0 && at < lines.len()) ==> exists|k: int|
                0 <= k < input.items().len() && is_anchor(input, #[trigger] input.items()[k])
                    && input.items()[k].end_line == at
        }),
{
    let lines = input.renamed_lines();
    let n = input.items().len() as int;
    lemma_anchor(input, n);
    let at = input.inject_at(lines.len() as int);
    match input.anchor(n) {
        Some(line) => {
            let k = choose|k: int|
                0 <= k < n && is_anchor(input, #[trigger] input.items()[k])
                    && input.items()[k].end_line - 1 == line;
            lemma_line_positive_item(input, k);
            assert(is_anchor(input, input.items()[k]));
        },
        None => {},
    }
    at
}

proof fn lemma_line_positive_item(input: Input, k: int)
    requires
        0 <= k < input.items().len(),
    ensures
        input.items()[k].end_line >= 1,
{
    let starts = line_starts_of(input.source);
    let nodes = input.nodes();
    let a = lemma_item_at(starts, nodes, nodes.len() as int, k);
    crate::line_index::lemma_line_starts_ascending(input.source);
    let s = nodes[nodes[a].parent];
    lemma_positive(starts, if s.end > 0 { s.end - 1 } else { 0 });
}

proof fn lemma_positive(starts: Seq<int>, offset: int)
    requires
        starts.len() > 0,
    ensures
        line_of(starts, offset) >= 1,
    decreases starts.len(),
{
    if starts.len() > 1 && starts.last() > offset {
        lemma_positive(starts.drop_last(), offset);
    }
}

// ---------------------------------------------------------------------------
// Blocks and lines
// ---------------------------------------------------------------------------

/// Whether an item is an import of a block that loses all its names.
pub open spec fn is_lost(plan: Seq<PlanView>, it: ItemView, block: int) -> bool {
    &&& it.block == block
    &&& !it.is_top_level
    &&& it.is_first
    &&& removed_at(plan, it.start_line - 1).len() > 0
    &&& removed_at(plan, it.start_line - 1).len() == it.alias_count
}

/// How many imports of a block are lost.
pub open spec fn lost_count(plan: Seq<PlanView>, items: Seq<ItemView>, block: int) -> nat {
    items.filter(|it: ItemView| is_lost(plan, it, block)).len()
}

proof fn lemma_lost(plan: Seq<PlanView>, items: Seq<ItemView>, block: int, n: int)
    requires
        0 <= n <= items.len(),
    ensures
        vanished_in(plan, items, block, n) == lost_count(plan, items.take(n), block),
    decreases n,
{
    reveal(Seq::filter);
    if n > 0 {
        lemma_lost(plan, items, block, n - 1);
        assert(items.take(n).drop_last() =~= items.take(n - 1));
        assert(items.take(n).last() == items[n - 1]);
    } else {
        assert(items.take(0) =~= Seq::empty());
    }
}

proof fn lemma_first_lost(plan: Seq<PlanView>, items: Seq<ItemView>, block: int, n: int, k: int) -> (j:
    int)
    requires
        0 <= k < n <= items.len(),
        is_lost(plan, items[k], block),
    ensures
        0 <= j < n,
        is_lost(plan, items[j], block),
        first_vanished(plan, items, block, n) == Some(items[j].start_line - 1),
        forall|i: int|
            0 <= i < n && is_lost(plan, #[trigger] items[i], block) ==> items[j].start_line
                <= items[i].start_line,
    decreases n,
{
    if exists|i: int| 0 <= i < n - 1 && is_lost(plan, #[trigger] items[i], block) {
        let i = choose|i: int| 0 <= i < n - 1 && is_lost(plan, #[trigger] items[i], block);
        let j = lemma_first_lost(plan, items, block, n - 1, i);
        if is_lost(plan, items[n - 1], block) && items[n - 1].start_line < items[j].start_line {
            n - 1
        } else {
            j
        }
    } else {
        lemma_none_lost(plan, items, block, n - 1);
        assert(k == n - 1);
        n - 1
    }
}

proof fn lemma_none_lost(plan: Seq<PlanView>, items: Seq<ItemView>, block: int, n: int)
    requires
        0 <= n <= items.len(),
        forall|i: int| 0 <= i < n ==> !is_lost(plan, #[trigger] items[i], block),
    ensures
        first_vanished(plan, items, block, n) is None,
    decreases n,
{
    if n > 0 {
        lemma_none_lost(plan, items, block, n - 1);
        assert(!is_lost(plan, items[n - 1], block));
    }
}

/// Where the imports that are lost are all the statements of a block, a `pass` stands on the first
/// of their lines.
pub proof fn law_empty_blocks_get_a_pass(plan: Seq<PlanView>, items: Seq<ItemView>, k: int) -> (j:
    int)
    requires
        0 <= k < items.len(),
        is_lost(plan, items[k], items[k].block),
        lost_count(plan, items, items[k].block) == items[k].block_size,
    ensures
        0 <= j < items.len(),
        is_lost(plan, items[j], items[k].block),
        needs_pass(plan, items, items[j].start_line - 1),
        forall|i: int|
            0 <= i < items.len() && is_lost(plan, #[trigger] items[i], items[k].block)
                ==> items[j].start_line <= items[i].start_line,
{
    let n = items.len() as int;
    lemma_lost(plan, items, items[k].block, n);
    assert(items.take(n) =~= items);
    let j = lemma_first_lost(plan, items, items[k].block, n, k);
    assert(!items[k].is_top_level);
    j
}

/// A `pass` stands only where every statement of a block is an import that is lost, on the line of
/// one of them.
pub proof fn law_only_empty_blocks_get_a_pass(plan: Seq<PlanView>, items: Seq<ItemView>, at: int) -> (j:
    int)
    requires
        needs_pass(plan, items, at),
    ensures
        0 <= j < items.len(),
        is_lost(plan, items[j], items[j].block),
        items[j].start_line - 1 == at,
        exists|k: int|
            0 <= k < items.len() && (#[trigger] items[k]).block == items[j].block && lost_count(
                plan,
                items,
                items[j].block,
            ) == items[k].block_size,
{
    let n = items.len() as int;
    let k = choose|k: int|
        0 <= k < items.len() && !(#[trigger] items[k]).is_top_level && vanished_in(
            plan,
            items,
            items[k].block,
            items.len() as int,
        ) == items[k].block_size && first_vanished(
            plan,
            items,
            items[k].block,
            items.len() as int,
        ) == Some(at);
    let block = items[k].block;
    lemma_lost(plan, items, block, n);
    assert(items.take(n) =~= items);
    if forall|i: int| 0 <= i < n ==> !is_lost(plan, #[trigger] items[i], block) {
        lemma_none_lost(plan, items, block, n);
    }
    let i = choose|i: int| 0 <= i < n && is_lost(plan, #[trigger] items[i], block);
    lemma_first_lost(plan, items, block, n, i)
}

/// Every line of a file has its line end: a carriage return and a newline where the file has one
/// such end, and else a newline.
pub proof fn law_lines_have_the_end_of_the_file(source: Seq<char>, i: int)
    requires
        0 <= i < lines_spec(source).len(),
    ensures
        ended_lines(source).len() == lines_spec(source).len(),
        occurs(source, "\r\n"@) ==> ended_lines(source)[i] == lines_spec(source)[i] + "\r\n"@,
        !occurs(source, "\r\n"@) ==> ended_lines(source)[i] == lines_spec(source)[i] + "\n"@,
{
}

/// Uses are renamed in the line before its end, which stays.
pub proof fn law_renamed_lines_keep_their_end(body: Seq<char>, uses: Seq<SpliceView>)
    ensures
        renamed_line(body + "\r\n"@, uses) == spliced(body, uses) + "\r\n"@,
        body.len() == 0 || body.last() != '\r' ==> renamed_line(body + "\n"@, uses) == spliced(
            body,
            uses,
        ) + "\n"@,
{
    reveal_strlit("\r\n");
    reveal_strlit("\n");
    let a = body + "\r\n"@;
    assert(a.skip(body.len() as int) =~= "\r\n"@);
    assert(a.take(body.len() as int) =~= body);
    let b = body + "\n"@;
    assert(b.skip(body.len() as int) =~= "\n"@);
    assert(b.take(body.len() as int) =~= body);
    if "\r\n"@.is_suffix_of(b) {
        assert(b.skip(b.len() - 2)[0] == b[b.len() - 2]);
    }
}

} // verus!
