//! The fixer of KIS001: imports modules in place of names and qualifies every use of the names.
//!
//! Lines are rewritten in place first, so that the places of the uses stay valid; new imports are
//! added last, behind the last import at module level.
use crate::edit::{apply_splices, splice_views, spliced, Splice, SpliceView};
use crate::import_items::{item_views, ImportItem, ItemView};
use crate::imports::{
    alias_asname, alias_name, module_of, read_asname, read_module, read_name, statement_of,
};
use crate::kis001::{decide, kept_to, plan_views, Input, PlanView, Planned, Query, Survey};
use crate::line_index::{ascending, col_of, line_of, line_starts_of, offset_to_line_col};
use crate::noqa::pairs;
use crate::ordered::{insert_text, lemma_with_text, sorted, with_text};
use crate::rewrite::{new_lines, overwrite, put_lines, rewrite_import};
use crate::scope::{collect_load_names, load_spans, span_views, NamedSpan, SpanView};
use crate::split::{concat, concat_spec, lines_spec};
use crate::syntax::{views, well_formed, Kind, Node, NodeView};
use crate::text::{chars, contains, ends_with, eq, index_of, occurs, part, string, strs};
use crate::types::opt;
use vstd::prelude::*;
use vstd::string::*;

verus! {

// ---------------------------------------------------------------------------
// Which names leave which lines
// ---------------------------------------------------------------------------

/// The names that leave the import that starts on the 0-based line `at`, sorted, no repeats.
pub open spec fn removed_at(plan: Seq<PlanView>, at: int) -> Seq<Seq<char>>
    decreases plan.len(),
{
    if plan.len() == 0 {
        Seq::empty()
    } else {
        let before = removed_at(plan.drop_last(), at);
        if plan.last().item.start_line - 1 == at {
            with_text(before, plan.last().item.name)
        } else {
            before
        }
    }
}

impl Input {
    /// The whole plan.
    pub open spec fn full_plan(self) -> Seq<PlanView> {
        self.plan(self.items().len() as int)
    }

    /// The 0-based last line of the import that starts on line `at`, as the first `n` items have
    /// it; of several that start there the last counts.
    pub open spec fn span_end(self, at: int, n: int) -> int
        decreases n,
    {
        if n <= 0 {
            at
        } else {
            let it = self.items()[n - 1];
            if self.considered(it) && it.start_line - 1 == at {
                it.end_line - 1
            } else {
                self.span_end(at, n - 1)
            }
        }
    }

    /// The 0-based line behind which new imports go: the last line of any import at module level
    /// among the first `n` items that is looked at.
    pub open spec fn anchor(self, n: int) -> Option<int>
        decreases n,
    {
        if n <= 0 {
            None
        } else {
            let it = self.items()[n - 1];
            let before = self.anchor(n - 1);
            if self.considered(it) && it.is_top_level {
                match before {
                    Some(line) => if line >= it.end_line - 1 {
                        before
                    } else {
                        Some(it.end_line - 1)
                    },
                    None => Some(it.end_line - 1),
                }
            } else {
                before
            }
        }
    }
}

/// Whether an import inside a block loses all its names.
pub open spec fn vanishes(plan: Seq<PlanView>, it: ItemView) -> bool {
    let removed = removed_at(plan, it.start_line - 1);
    !it.is_top_level && it.is_first && removed.len() > 0 && removed.len() == it.alias_count
}

/// How many of the first `n` imports of a block lose all their names.
pub open spec fn vanished_in(plan: Seq<PlanView>, items: Seq<ItemView>, block: int, n: int) -> int
    decreases n,
{
    if n <= 0 {
        0
    } else {
        vanished_in(plan, items, block, n - 1) + if items[n - 1].block == block && vanishes(
            plan,
            items[n - 1],
        ) {
            1int
        } else {
            0
        }
    }
}

/// The first 0-based line of an import of a block, among the first `n` items, that loses all its
/// names.
pub open spec fn first_vanished(
    plan: Seq<PlanView>,
    items: Seq<ItemView>,
    block: int,
    n: int,
) -> Option<int>
    decreases n,
{
    if n <= 0 {
        None
    } else {
        let before = first_vanished(plan, items, block, n - 1);
        let it = items[n - 1];
        if it.block == block && vanishes(plan, it) {
            match before {
                Some(line) => if line <= it.start_line - 1 {
                    before
                } else {
                    Some(it.start_line - 1)
                },
                None => Some(it.start_line - 1),
            }
        } else {
            before
        }
    }
}

/// Whether a `pass` has to stand on the 0-based line `at`: every statement of its block is an
/// import that loses all its names, and this is the first of them.
pub open spec fn needs_pass(plan: Seq<PlanView>, items: Seq<ItemView>, at: int) -> bool {
    exists|k: int|
        0 <= k < items.len() && !(#[trigger] items[k]).is_top_level && vanished_in(
            plan,
            items,
            items[k].block,
            items.len() as int,
        ) == items[k].block_size && first_vanished(
            plan,
            items,
            items[k].block,
            items.len() as int,
        ) == Some(at)
}

// ---------------------------------------------------------------------------
// Rewritten lines
// ---------------------------------------------------------------------------

/// The line end of a file.
pub open spec fn line_end(source: Seq<char>) -> Seq<char> {
    if occurs(source, "\r\n"@) {
        "\r\n"@
    } else {
        "\n"@
    }
}

/// The lines of a file, each with the file's line end.
pub open spec fn ended_lines(source: Seq<char>) -> Seq<Seq<char>> {
    lines_spec(source).map_values(|l: Seq<char>| l + line_end(source))
}

impl Input {
    /// The lines of the file after the imports that start on one of the first `n` lines have lost
    /// their names.
    pub open spec fn without_names(self, n: int) -> Seq<Seq<char>>
        decreases n,
    {
        if n <= 0 {
            ended_lines(self.source)
        } else {
            let before = self.without_names(n - 1);
            let at = n - 1;
            let plan = self.full_plan();
            let removed = removed_at(plan, at);
            let end = self.span_end(at, self.items().len() as int);
            if removed.len() == 0 || end < at {
                before
            } else {
                match new_lines(
                    lines_spec(self.source),
                    at,
                    end,
                    removed,
                    needs_pass(plan, self.items(), at),
                    line_end(self.source),
                ) {
                    Some(new) => put_lines(before, at, end, new, line_end(self.source)),
                    None => before,
                }
            }
        }
    }
}

// ---------------------------------------------------------------------------
// Renamed uses
// ---------------------------------------------------------------------------

/// What a use of `name` becomes: the first fix of an import that binds it decides.
pub open spec fn rename_of(plan: Seq<PlanView>, name: Seq<char>) -> Option<Seq<char>>
    decreases plan.len(),
{
    if plan.len() == 0 {
        None
    } else if plan[0].item.local() == name {
        Some(plan[0].fix.qualified)
    } else {
        rename_of(plan.skip(1), name)
    }
}

/// The renamed uses on the 0-based line `i`, with their byte columns.
pub open spec fn uses_on(
    starts: Seq<int>,
    spans: Seq<SpanView>,
    plan: Seq<PlanView>,
    i: int,
) -> Seq<SpliceView>
    decreases spans.len(),
{
    if spans.len() == 0 {
        Seq::empty()
    } else {
        let before = uses_on(starts, spans.drop_last(), plan, i);
        let s = spans.last();
        match rename_of(plan, s.name) {
            Some(new) => if line_of(starts, s.start) == line_of(starts, s.end) && line_of(
                starts,
                s.start,
            ) - 1 == i {
                before.push(
                    SpliceView { start: col_of(starts, s.start), end: col_of(starts, s.end), text: new },
                )
            } else {
                before
            },
            None => before,
        }
    }
}

/// The line end that a line has.
pub open spec fn own_end(line: Seq<char>) -> Seq<char> {
    if "\r\n"@.is_suffix_of(line) {
        "\r\n"@
    } else if "\n"@.is_suffix_of(line) {
        "\n"@
    } else {
        Seq::empty()
    }
}

/// A line with the uses on it renamed; its end stays.
pub open spec fn renamed_line(line: Seq<char>, uses: Seq<SpliceView>) -> Seq<char> {
    let end = own_end(line);
    spliced(line.take(line.len() - end.len()), uses) + end
}

impl Input {
    /// The lines of the file after the uses of all rewritten names are qualified.
    pub open spec fn renamed_lines(self) -> Seq<Seq<char>> {
        let lines = self.without_names(lines_spec(self.source).len() as int);
        Seq::new(
            lines.len(),
            |i: int|
                renamed_line(
                    lines[i],
                    uses_on(
                        line_starts_of(self.source),
                        load_spans(self.nodes()),
                        self.full_plan(),
                        i,
                    ),
                ),
        )
    }
}

// ---------------------------------------------------------------------------
// New imports
// ---------------------------------------------------------------------------

/// The statement that imports what an alias imports, and nothing else, without renaming it.
pub open spec fn lone_import(nodes: Seq<NodeView>, a: int) -> Seq<char> {
    if statement_of(nodes, a).kind == Kind::ImportFrom {
        let module = match module_of(nodes, nodes[a].parent) {
            Some(module) => module,
            None => Seq::empty(),
        };
        "from "@ + module + " import "@ + alias_name(nodes, a)
    } else {
        "import "@ + alias_name(nodes, a)
    }
}

/// Whether an alias renames what it imports. `import a.b as a` binds `a` to something else than
/// `import a.b` does; `from a import b as b` does what `from a import b` does.
pub open spec fn renames(nodes: Seq<NodeView>, a: int) -> bool {
    match alias_asname(nodes, a) {
        Some(asname) => statement_of(nodes, a).kind != Kind::ImportFrom || asname != alias_name(
            nodes,
            a,
        ),
        None => false,
    }
}

/// Whether an alias of an import among the statements of the module itself does what `stmt` does:
/// it imports the same and binds the same name.
pub open spec fn does_import(nodes: Seq<NodeView>, a: int, stmt: Seq<char>) -> bool {
    let s = statement_of(nodes, a);
    &&& nodes[a].kind == Kind::Alias
    &&& s.kind == Kind::Import || (s.kind == Kind::ImportFrom && s.level == 0)
    &&& s.parent == 0
    &&& !renames(nodes, a)
    &&& lone_import(nodes, a) == stmt
}

/// Whether the file does what `stmt` does already.
pub open spec fn is_imported(nodes: Seq<NodeView>, stmt: Seq<char>) -> bool {
    exists|a: int| 0 <= a < nodes.len() && #[trigger] does_import(nodes, a, stmt)
}

/// The imports to add for the first `n` fixes, sorted, no repeats: the statement of each fix that
/// the file does not hold already.
pub open spec fn added_imports(
    nodes: Seq<NodeView>,
    plan: Seq<PlanView>,
    n: int,
) -> Seq<Seq<char>>
    decreases n,
{
    if n <= 0 {
        Seq::empty()
    } else {
        let before = added_imports(nodes, plan, n - 1);
        if is_imported(nodes, plan[n - 1].fix.stmt) {
            before
        } else {
            with_text(before, plan[n - 1].fix.stmt)
        }
    }
}

impl Input {
    /// Where the new imports go: behind the last import at module level, or at the very top.
    pub open spec fn inject_at(self, len: int) -> int {
        match self.anchor(self.items().len() as int) {
            Some(line) => if line + 1 <= len {
                line + 1
            } else {
                len
            },
            None => 0,
        }
    }

    /// The lines of the fixed file.
    pub open spec fn fixed_lines(self) -> Seq<Seq<char>> {
        let lines = self.renamed_lines();
        let plan = self.full_plan();
        let at = self.inject_at(lines.len() as int);
        lines.take(at) + added_imports(
            self.nodes(),
            plan,
            plan.len() as int,
        ).map_values(|s: Seq<char>| s + line_end(self.source)) + lines.skip(at)
    }

    /// The fixed file; `None` where nothing is rewritten.
    pub open spec fn fixed(self) -> Option<Seq<char>> {
        if self.full_plan().len() == 0 {
            None
        } else {
            Some(concat_spec(self.fixed_lines()))
        }
    }
}

// ---------------------------------------------------------------------------
// The fixer
// ---------------------------------------------------------------------------

/// The items that are rewritten.
fn make_plan(q: &Query<'_>, survey: &Survey) -> (r: Vec<Planned>)
    requires
        survey.of(q.input()),
    ensures
        plan_views(r@, q.input().items()) == q.input().full_plan(),
        forall|k: int| 0 <= k < r@.len() ==> (#[trigger] r@[k]).item < survey.items@.len(),
{
    let ghost items = q.input().items();
    let kept = survey.kept(q);
    let mut plan: Vec<Planned> = Vec::new();
    assert(plan_views(plan@, items) =~= Seq::empty());
    let mut i: usize = 0;
    while i < survey.items.len()
        invariant
            i <= survey.items@.len(),
            survey.of(q.input()),
            items == q.input().items(),
            pairs(kept@) == kept_to(q.input(), q.input().nodes().len() as int),
            plan_views(plan@, items) == q.input().plan(i as int),
            forall|k: int| 0 <= k < plan@.len() ==> (#[trigger] plan@[k]).item < survey.items@.len(),
        decreases survey.items@.len() - i,
    {
        let it = &survey.items[i];
        assert(items[i as int] == it@);
        if survey.flagged(q, it) {
            let (fix, colliding) = decide(q, survey, &kept, &plan, i);
            if colliding.is_none() {
                let ghost plan_before = plan@;
                let planned = Planned { item: i, fix };
                plan.push(planned);
                assert(plan_views(plan@, items) =~= plan_views(plan_before, items).push(
                    PlanView { item: items[i as int], fix: fix@ },
                ));
            }
        }
        i += 1;
    }
    plan
}

/// The plan `plan` for the items `items` says what `of` says.
spec fn is_plan(plan: Seq<Planned>, items: Seq<ImportItem>, of: Seq<PlanView>) -> bool {
    &&& plan_views(plan, item_views(items)) == of
    &&& forall|k: int| 0 <= k < plan.len() ==> (#[trigger] plan[k]).item < items.len()
}

/// The names that leave the import that starts on the 0-based line `at`.
fn find_removed(
    plan: &Vec<Planned>,
    items: &Vec<ImportItem>,
    at: usize,
    Ghost(all): Ghost<Seq<PlanView>>,
) -> (r: Vec<String>)
    requires
        is_plan(plan@, items@, all),
    ensures
        strs(r@) == removed_at(all, at as int),
{
    let mut out: Vec<String> = Vec::new();
    let mut k: usize = 0;
    assert(strs(out@) =~= Seq::empty());
    assert(all.take(0) =~= Seq::empty());
    while k < plan.len()
        invariant
            k <= plan@.len(),
            is_plan(plan@, items@, all),
            strs(out@) == removed_at(all.take(k as int), at as int),
        decreases plan@.len() - k,
    {
        assert(all.take(k + 1).drop_last() =~= all.take(k as int));
        assert(all.take(k + 1).last() == all[k as int]);
        let it = &items[plan[k].item];
        assert(all[k as int].item == it@);
        if it.start_line >= 1 && it.start_line - 1 == at {
            insert_text(&mut out, it.name.clone());
        }
        k += 1;
    }
    assert(all.take(all.len() as int) =~= all);
    out
}

/// Whether an import inside a block loses all its names.
fn find_vanishes(
    plan: &Vec<Planned>,
    items: &Vec<ImportItem>,
    k: usize,
    Ghost(all): Ghost<Seq<PlanView>>,
) -> (r: bool)
    requires
        is_plan(plan@, items@, all),
        k < items@.len(),
        items@[k as int].start_line >= 1,
    ensures
        r == vanishes(all, items@[k as int]@),
{
    let it = &items[k];
    if it.is_top_level || !it.is_first {
        return false;
    }
    let removed = find_removed(plan, items, it.start_line - 1, Ghost(all));
    assert(strs(removed@).len() == removed@.len());
    removed.len() > 0 && removed.len() == it.alias_count
}

/// Every item starts on a line that counts from 1 and does not end before it.
spec fn lines_in_order(items: Seq<ImportItem>) -> bool {
    forall|k: int| 0 <= k < items.len() ==> (#[trigger] items[k]).start_line >= 1
}

/// The number of imports of a block that lose all their names, and the first line of one.
fn find_vanished(
    plan: &Vec<Planned>,
    items: &Vec<ImportItem>,
    block: usize,
    Ghost(all): Ghost<Seq<PlanView>>,
) -> (r: (usize, Option<usize>))
    requires
        is_plan(plan@, items@, all),
        lines_in_order(items@),
    ensures
        r.0 == vanished_in(all, item_views(items@), block as int, items@.len() as int),
        match r.1 {
            Some(line) => first_vanished(
                all,
                item_views(items@),
                block as int,
                items@.len() as int,
            ) == Some(line as int),
            None => first_vanished(
                all,
                item_views(items@),
                block as int,
                items@.len() as int,
            ) is None,
        },
{
    let ghost its = item_views(items@);
    let mut count: usize = 0;
    let mut first: Option<usize> = None;
    let mut k: usize = 0;
    while k < items.len()
        invariant
            k <= items@.len(),
            is_plan(plan@, items@, all),
            lines_in_order(items@),
            its == item_views(items@),
            count <= k,
            count == vanished_in(all, its, block as int, k as int),
            match first {
                Some(line) => first_vanished(all, its, block as int, k as int) == Some(line as int),
                None => first_vanished(all, its, block as int, k as int) is None,
            },
        decreases items@.len() - k,
    {
        assert(its[k as int] == items@[k as int]@);
        if items[k].block == block && find_vanishes(plan, items, k, Ghost(all)) {
            count += 1;
            let line: usize = items[k].start_line - 1;
            first = match first {
                Some(earlier) => if earlier <= line {
                    Some(earlier)
                } else {
                    Some(line)
                },
                None => Some(line),
            };
        }
        k += 1;
    }
    (count, first)
}

/// The lines on which a `pass` has to stand.
fn find_pass_lines(
    plan: &Vec<Planned>,
    items: &Vec<ImportItem>,
    Ghost(all): Ghost<Seq<PlanView>>,
) -> (r: Vec<usize>)
    requires
        is_plan(plan@, items@, all),
        lines_in_order(items@),
    ensures
        forall|at: usize|
            #![trigger r@.contains(at)]
            r@.contains(at) <==> needs_pass(all, item_views(items@), at as int),
{
    let ghost its = item_views(items@);
    let mut out: Vec<usize> = Vec::new();
    let mut k: usize = 0;
    while k < items.len()
        invariant
            k <= items@.len(),
            is_plan(plan@, items@, all),
            lines_in_order(items@),
            its == item_views(items@),
            forall|at: usize|
                #![trigger out@.contains(at)]
                out@.contains(at) <==> exists|j: int|
                    0 <= j < k && !(#[trigger] its[j]).is_top_level && vanished_in(
                        all,
                        its,
                        its[j].block,
                        its.len() as int,
                    ) == its[j].block_size && first_vanished(
                        all,
                        its,
                        its[j].block,
                        its.len() as int,
                    ) == Some(at as int),
        decreases items@.len() - k,
    {
        assert(its[k as int] == items@[k as int]@);
        assert(its.len() == items@.len());
        let ghost before = out@;
        let mut found: Option<usize> = None;
        if !items[k].is_top_level {
            let (count, first) = find_vanished(plan, items, items[k].block, Ghost(all));
            if count == items[k].block_size {
                found = first;
            }
        }
        match found {
            Some(line) => {
                out.push(line);
            },
            None => {},
        }
        proof {
            assert forall|at: usize| #![trigger out@.contains(at)]
                out@.contains(at) <==> exists|j: int|
                    0 <= j < k + 1 && !(#[trigger] its[j]).is_top_level && vanished_in(
                        all,
                        its,
                        its[j].block,
                        its.len() as int,
                    ) == its[j].block_size && first_vanished(
                        all,
                        its,
                        its[j].block,
                        its.len() as int,
                    ) == Some(at as int) by {
                assert(before.contains(at) <==> exists|j: int|
                    0 <= j < k && !(#[trigger] its[j]).is_top_level && vanished_in(
                        all,
                        its,
                        its[j].block,
                        its.len() as int,
                    ) == its[j].block_size && first_vanished(
                        all,
                        its,
                        its[j].block,
                        its.len() as int,
                    ) == Some(at as int));
                if before.contains(at) {
                    let m = before.index_of(at);
                    assert(out@[m] == at);
                }
                if found == Some(at) {
                    assert(out@[before.len() as int] == at);
                    assert(!its[k as int].is_top_level);
                }
                if out@.contains(at) {
                    let m = out@.index_of(at);
                    if m < before.len() {
                        assert(before[m] == at);
                        assert(before.contains(at));
                    } else {
                        assert(found == Some(at));
                    }
                }
                if exists|j: int|
                    0 <= j < k + 1 && !(#[trigger] its[j]).is_top_level && vanished_in(
                        all,
                        its,
                        its[j].block,
                        its.len() as int,
                    ) == its[j].block_size && first_vanished(
                        all,
                        its,
                        its[j].block,
                        its.len() as int,
                    ) == Some(at as int) {
                    let j = choose|j: int|
                        0 <= j < k + 1 && !(#[trigger] its[j]).is_top_level && vanished_in(
                            all,
                            its,
                            its[j].block,
                            its.len() as int,
                        ) == its[j].block_size && first_vanished(
                            all,
                            its,
                            its[j].block,
                            its.len() as int,
                        ) == Some(at as int);
                    if j < k {
                        assert(before.contains(at));
                    } else {
                        assert(found == Some(at));
                    }
                }
            }
        }
        k += 1;
    }
    out
}

fn has_line(list: &Vec<usize>, x: usize) -> (r: bool)
    ensures
        r == list@.contains(x),
{
    let mut i: usize = 0;
    while i < list.len()
        invariant
            i <= list@.len(),
            forall|j: int| 0 <= j < i ==> list@[j] != x,
        decreases list@.len() - i,
    {
        if list[i] == x {
            return true;
        }
        i += 1;
    }
    false
}

/// The 0-based last line of the import that starts on line `at`.
fn find_span_end(q: &Query<'_>, survey: &Survey, at: usize) -> (r: usize)
    requires
        survey.of(q.input()),
        lines_in_order(survey.items@),
        forall|k: int| 0 <= k < survey.items@.len() ==> (#[trigger] survey.items@[k]).end_line >= 1,
    ensures
        r == q.input().span_end(at as int, q.input().items().len() as int),
{
    let ghost items = q.input().items();
    let mut n: usize = survey.items.len();
    assert(items.len() == survey.items@.len());
    while n > 0
        invariant
            n <= survey.items@.len(),
            survey.of(q.input()),
            lines_in_order(survey.items@),
            forall|k: int|
                0 <= k < survey.items@.len() ==> (#[trigger] survey.items@[k]).end_line >= 1,
            items == q.input().items(),
            items.len() == survey.items@.len(),
            q.input().span_end(at as int, items.len() as int) == q.input().span_end(
                at as int,
                n as int,
            ),
        decreases n,
    {
        let it = &survey.items[n - 1];
        assert(items[n - 1] == it@);
        if it.start_line - 1 == at && survey.considered(q, it) {
            return it.end_line - 1;
        }
        n -= 1;
    }
    at
}

/// The 0-based line behind which new imports go.
fn find_anchor(q: &Query<'_>, survey: &Survey) -> (r: Option<usize>)
    requires
        survey.of(q.input()),
        forall|k: int| 0 <= k < survey.items@.len() ==> (#[trigger] survey.items@[k]).end_line >= 1,
    ensures
        match r {
            Some(line) => q.input().anchor(q.input().items().len() as int) == Some(line as int)
                && line < usize::MAX,
            None => q.input().anchor(q.input().items().len() as int) is None,
        },
{
    let ghost items = q.input().items();
    let mut best: Option<usize> = None;
    let mut n: usize = 0;
    assert(items.len() == survey.items@.len());
    while n < survey.items.len()
        invariant
            n <= survey.items@.len(),
            survey.of(q.input()),
            forall|k: int|
                0 <= k < survey.items@.len() ==> (#[trigger] survey.items@[k]).end_line >= 1,
            items == q.input().items(),
            items.len() == survey.items@.len(),
            match best {
                Some(line) => q.input().anchor(n as int) == Some(line as int) && line < usize::MAX,
                None => q.input().anchor(n as int) is None,
            },
        decreases survey.items@.len() - n,
    {
        let it = &survey.items[n];
        assert(items[n as int] == it@);
        if it.is_top_level && survey.considered(q, it) {
            let line: usize = it.end_line - 1;
            best = match best {
                Some(earlier) => if earlier >= line {
                    Some(earlier)
                } else {
                    Some(line)
                },
                None => Some(line),
            };
        }
        n += 1;
    }
    best
}

/// The line end of a file.
pub fn find_line_end(source: &str) -> (r: String)
    ensures
        r@ == line_end(source@),
{
    let text = chars(source);
    let crlf = chars("\r\n");
    if contains(text.as_slice(), crlf.as_slice()) {
        "\r\n".to_owned()
    } else {
        "\n".to_owned()
    }
}

/// The lines of a file, each with the file's line end.
fn end_lines(source_lines: &Vec<String>, eol: &str, Ghost(source): Ghost<Seq<char>>) -> (r: Vec<
    String,
>)
    requires
        strs(source_lines@) == lines_spec(source),
        eol@ == line_end(source),
    ensures
        strs(r@) == ended_lines(source),
{
    let mut out: Vec<String> = Vec::new();
    let mut i: usize = 0;
    assert(strs(out@) =~= ended_lines(source).take(0));
    while i < source_lines.len()
        invariant
            i <= source_lines@.len(),
            strs(source_lines@) == lines_spec(source),
            eol@ == line_end(source),
            strs(out@) == ended_lines(source).take(i as int),
        decreases source_lines@.len() - i,
    {
        let mut line = source_lines[i].clone();
        assert(strs(source_lines@)[i as int] == line@);
        line.append(eol);
        let ghost before = out@;
        out.push(line);
        assert(strs(out@) =~= strs(before).push(line@));
        assert(ended_lines(source).take(i + 1) =~= ended_lines(source).take(i as int).push(line@));
        i += 1;
    }
    assert(ended_lines(source).take(ended_lines(source).len() as int) =~= ended_lines(source));
    out
}

/// Takes the names of the plan out of the imports.
fn remove_names(
    q: &Query<'_>,
    survey: &Survey,
    plan: &Vec<Planned>,
    eol: &str,
) -> (r: Vec<String>)
    requires
        survey.of(q.input()),
        is_plan(plan@, survey.items@, q.input().full_plan()),
        lines_in_order(survey.items@),
        forall|k: int| 0 <= k < survey.items@.len() ==> (#[trigger] survey.items@[k]).end_line >= 1,
        eol@ == line_end(q.source@),
    ensures
        strs(r@) == q.input().without_names(lines_spec(q.source@).len() as int),
        r@.len() == survey.source_lines@.len(),
{
    let ghost all = q.input().full_plan();
    let ghost its = q.input().items();
    let pass_lines = find_pass_lines(plan, &survey.items, Ghost(all));
    let mut out = end_lines(&survey.source_lines, eol, Ghost(q.source@));
    let mut at: usize = 0;
    assert(strs(out@).len() == out@.len());
    assert(ended_lines(q.source@).len() == lines_spec(q.source@).len());
    assert(strs(survey.source_lines@).len() == survey.source_lines@.len());
    while at < survey.source_lines.len()
        invariant
            at <= survey.source_lines@.len(),
            survey.of(q.input()),
            is_plan(plan@, survey.items@, all),
            lines_in_order(survey.items@),
            forall|k: int|
                0 <= k < survey.items@.len() ==> (#[trigger] survey.items@[k]).end_line >= 1,
            eol@ == line_end(q.source@),
            all == q.input().full_plan(),
            its == q.input().items(),
            forall|line: usize|
                #![trigger pass_lines@.contains(line)]
                pass_lines@.contains(line) <==> needs_pass(all, its, line as int),
            strs(out@) == q.input().without_names(at as int),
            out@.len() == survey.source_lines@.len(),
        decreases survey.source_lines@.len() - at,
    {
        let removed = find_removed(plan, &survey.items, at, Ghost(all));
        let end: usize = find_span_end(q, survey, at);
        assert(strs(removed@).len() == removed@.len());
        if removed.len() > 0 && end >= at {
            let pass = has_line(&pass_lines, at);
            match rewrite_import(&survey.source_lines, at, end, &removed, pass, eol) {
                Some(new) => {
                    overwrite(&mut out, at, end, &new, eol);
                    assert(strs(out@).len() == out@.len());
                },
                None => {},
            }
        }
        at += 1;
    }
    assert(strs(survey.source_lines@).len() == survey.source_lines@.len());
    out
}

/// What a use of `name` becomes.
fn find_rename(
    plan: &Vec<Planned>,
    items: &Vec<ImportItem>,
    name: &str,
    Ghost(all): Ghost<Seq<PlanView>>,
) -> (r: Option<String>)
    requires
        is_plan(plan@, items@, all),
    ensures
        opt(r) == rename_of(all, name@),
{
    let mut k: usize = 0;
    assert(all.skip(0) =~= all);
    while k < plan.len()
        invariant
            k <= plan@.len(),
            is_plan(plan@, items@, all),
            rename_of(all, name@) == rename_of(all.skip(k as int), name@),
        decreases plan@.len() - k,
    {
        assert(all.skip(k as int)[0] == all[k as int]);
        assert(all.skip(k as int).skip(1) =~= all.skip(k + 1));
        let it = &items[plan[k].item];
        assert(all[k as int].item == it@);
        let local = match &it.asname {
            Some(asname) => asname.as_str(),
            None => it.name.as_str(),
        };
        if eq(local, name) {
            return Some(plan[k].fix.new_qualified.clone());
        }
        k += 1;
    }
    None
}

/// The renamed uses on the 0-based line `i`.
fn find_uses(
    survey: &Survey,
    load_names: &Vec<NamedSpan>,
    plan: &Vec<Planned>,
    i: usize,
    Ghost(input): Ghost<Input>,
) -> (r: Vec<Splice>)
    requires
        survey.of(input),
        span_views(load_names@) == load_spans(input.nodes()),
        is_plan(plan@, survey.items@, input.full_plan()),
    ensures
        splice_views(r@) == uses_on(
            line_starts_of(input.source),
            load_spans(input.nodes()),
            input.full_plan(),
            i as int,
        ),
{
    let ghost starts = line_starts_of(input.source);
    let ghost spans = load_spans(input.nodes());
    let ghost all = input.full_plan();
    let mut out: Vec<Splice> = Vec::new();
    let mut k: usize = 0;
    assert(splice_views(out@) =~= Seq::empty());
    assert(spans.take(0) =~= Seq::empty());
    while k < load_names.len()
        invariant
            k <= load_names@.len(),
            survey.of(input),
            starts == line_starts_of(input.source),
            spans == load_spans(input.nodes()),
            all == input.full_plan(),
            span_views(load_names@) == spans,
            is_plan(plan@, survey.items@, all),
            splice_views(out@) == uses_on(starts, spans.take(k as int), all, i as int),
        decreases load_names@.len() - k,
    {
        let span = &load_names[k];
        assert(spans.take(k + 1).drop_last() =~= spans.take(k as int));
        assert(spans.take(k + 1).last() == span@);
        match find_rename(plan, &survey.items, span.name.as_str(), Ghost(all)) {
            Some(new) => {
                let (line, col) = offset_to_line_col(&survey.starts, span.start);
                let (end_line, end_col) = offset_to_line_col(&survey.starts, span.end);
                if line == end_line && line - 1 == i {
                    let ghost before = out@;
                    let splice = Splice { start: col as u32, end: end_col as u32, text: new };
                    out.push(splice);
                    assert(splice_views(out@) =~= splice_views(before).push(splice@));
                }
            },
            None => {},
        }
        k += 1;
    }
    assert(spans.take(spans.len() as int) =~= spans);
    out
}

/// A line with the uses on it renamed.
fn rename_line(line: &str, uses: Vec<Splice>) -> (r: String)
    ensures
        r@ == renamed_line(line@, splice_views(uses@)),
{
    let text = chars(line);
    let crlf = chars("\r\n");
    let lf = chars("\n");
    let end = if ends_with(text.as_slice(), crlf.as_slice()) {
        "\r\n"
    } else if ends_with(text.as_slice(), lf.as_slice()) {
        "\n"
    } else {
        ""
    };
    proof {
        reveal_strlit("");
        assert(""@ =~= Seq::empty());
    }
    assert(end@ == own_end(line@));
    let end_chars = chars(end);
    let keep: usize = text.len() - end_chars.len();
    assert(text@.subrange(0, keep as int) =~= text@.take(keep as int));
    let bare = apply_splices(part(text.as_slice(), 0, keep), uses);
    let mut out = string(bare.as_slice());
    out.append(end);
    out
}

/// Qualifies every use of the names of the plan.
fn rename_uses(
    q: &Query<'_>,
    survey: &Survey,
    plan: &Vec<Planned>,
    lines: &Vec<String>,
) -> (r: Vec<String>)
    requires
        survey.of(q.input()),
        is_plan(plan@, survey.items@, q.input().full_plan()),
        strs(lines@) == q.input().without_names(lines_spec(q.source@).len() as int),
    ensures
        strs(r@) == q.input().renamed_lines(),
{
    let ghost after = q.input().renamed_lines();
    let load_names = collect_load_names(&survey.nodes);
    let mut out: Vec<String> = Vec::new();
    let mut i: usize = 0;
    assert(strs(out@) =~= after.take(0));
    assert(strs(lines@).len() == lines@.len());
    while i < lines.len()
        invariant
            i <= lines@.len(),
            survey.of(q.input()),
            is_plan(plan@, survey.items@, q.input().full_plan()),
            strs(lines@) == q.input().without_names(lines_spec(q.source@).len() as int),
            strs(lines@).len() == lines@.len(),
            span_views(load_names@) == load_spans(q.input().nodes()),
            after == q.input().renamed_lines(),
            strs(out@) == after.take(i as int),
        decreases lines@.len() - i,
    {
        let uses = find_uses(survey, &load_names, plan, i, Ghost(q.input()));
        let line = rename_line(lines[i].as_str(), uses);
        assert(strs(lines@)[i as int] == lines@[i as int]@);
        let ghost before = out@;
        assert(line@ == after[i as int]);
        out.push(line);
        assert(strs(out@) =~= strs(before).push(line@));
        assert(after.take(i + 1) =~= after.take(i as int).push(line@));
        i += 1;
    }
    assert(after.take(after.len() as int) =~= after);
    out
}

/// Whether the alias at `a` does what `stmt` does.
fn check_import(nodes: &Vec<Node>, a: usize, stmt: &str) -> (r: bool)
    requires
        a < nodes@.len(),
        well_formed(views(nodes@)),
    ensures
        r == does_import(views(nodes@), a as int, stmt@),
{
    let ghost all = views(nodes@);
    assert(all[a as int] == nodes@[a as int]@);
    assert(all[a as int].parent <= a);
    let p: usize = nodes[a].parent;
    assert(all[p as int] == nodes@[p as int]@);
    if nodes[a].kind != Kind::Alias || nodes[p].parent != 0 {
        return false;
    }
    let name = read_name(nodes, a);
    if nodes[p].kind == Kind::ImportFrom {
        if nodes[p].level != 0 {
            return false;
        }
        let same_name = match read_asname(nodes, a) {
            Some(asname) => asname == name,
            None => true,
        };
        let module = match read_module(nodes, p) {
            Some(module) => module,
            None => String::new(),
        };
        let mut text = "from ".to_owned();
        text.append(module.as_str());
        text.append(" import ");
        text.append(name.as_str());
        same_name && eq(text.as_str(), stmt)
    } else if nodes[p].kind == Kind::Import {
        let mut text = "import ".to_owned();
        text.append(name.as_str());
        read_asname(nodes, a).is_none() && eq(text.as_str(), stmt)
    } else {
        false
    }
}

/// Whether the file does what `stmt` does already.
fn find_imported(nodes: &Vec<Node>, stmt: &str) -> (r: bool)
    requires
        well_formed(views(nodes@)),
    ensures
        r == is_imported(views(nodes@), stmt@),
{
    let mut a: usize = 0;
    while a < nodes.len()
        invariant
            a <= nodes@.len(),
            well_formed(views(nodes@)),
            forall|j: int| 0 <= j < a ==> !#[trigger] does_import(views(nodes@), j, stmt@),
        decreases nodes@.len() - a,
    {
        if check_import(nodes, a, stmt) {
            return true;
        }
        a += 1;
    }
    false
}

/// The imports to add.
fn find_added(
    nodes: &Vec<Node>,
    plan: &Vec<Planned>,
    Ghost(all): Ghost<Seq<PlanView>>,
    Ghost(items): Ghost<Seq<ItemView>>,
) -> (r: Vec<String>)
    requires
        well_formed(views(nodes@)),
        plan_views(plan@, items) == all,
    ensures
        strs(r@) == added_imports(views(nodes@), all, all.len() as int),
{
    let mut out: Vec<String> = Vec::new();
    let mut k: usize = 0;
    assert(strs(out@) =~= Seq::empty());
    assert(all.len() == plan@.len());
    while k < plan.len()
        invariant
            k <= plan@.len(),
            well_formed(views(nodes@)),
            plan_views(plan@, items) == all,
            strs(out@) == added_imports(views(nodes@), all, k as int),
        decreases plan@.len() - k,
    {
        assert(all[k as int].fix == plan@[k as int].fix@);
        if !find_imported(nodes, plan[k].fix.import_stmt.as_str()) {
            insert_text(&mut out, plan[k].fix.import_stmt.clone());
        }
        k += 1;
    }
    out
}

/// Copies of the lines from `from` up to `to`, each with `end` behind it, put behind `out`.
fn push_lines(out: &mut Vec<String>, lines: &Vec<String>, from: usize, to: usize, end: &str)
    requires
        from <= to <= lines@.len(),
    ensures
        strs(final(out)@) == strs(old(out)@) + strs(lines@).subrange(
            from as int,
            to as int,
        ).map_values(|s: Seq<char>| s + end@),
{
    let ghost ended = |s: Seq<char>| s + end@;
    let ghost start = strs(old(out)@);
    let mut i: usize = from;
    assert(strs(lines@).subrange(from as int, i as int).map_values(ended) =~= Seq::empty());
    assert(start + Seq::<Seq<char>>::empty() =~= start);
    while i < to
        invariant
            from <= i <= to <= lines@.len(),
            ended == |s: Seq<char>| s + end@,
            start == strs(old(out)@),
            strs(out@) == start + strs(lines@).subrange(from as int, i as int).map_values(ended),
        decreases to - i,
    {
        let mut line = lines[i].clone();
        line.append(end);
        assert(line@ == ended(strs(lines@)[i as int]));
        let ghost before = out@;
        out.push(line);
        assert(strs(out@) =~= strs(before).push(line@));
        assert(strs(lines@).subrange(from as int, i + 1).map_values(ended) =~= strs(
            lines@,
        ).subrange(from as int, i as int).map_values(ended).push(line@));
        assert((start + strs(lines@).subrange(from as int, i as int).map_values(ended)).push(line@)
            =~= start + strs(lines@).subrange(from as int, i as int).map_values(ended).push(line@));
        i += 1;
    }
}

proof fn lemma_add_nothing(s: Seq<Seq<char>>, end: Seq<char>)
    requires
        end == Seq::<char>::empty(),
    ensures
        s.map_values(|x: Seq<char>| x + end) == s,
{
    assert forall|i: int| 0 <= i < s.len() implies s.map_values(|x: Seq<char>| x + end)[i] == s[i] by {
        assert(s[i] + end =~= s[i]);
    }
    assert(s.map_values(|x: Seq<char>| x + end) =~= s);
}

/// The lines with the new imports among them, as one text.
fn add_imports(
    q: &Query<'_>,
    survey: &Survey,
    lines: &Vec<String>,
    added: &Vec<String>,
    eol: &str,
) -> (r: String)
    requires
        survey.of(q.input()),
        forall|k: int| 0 <= k < survey.items@.len() ==> (#[trigger] survey.items@[k]).end_line >= 1,
        strs(lines@) == q.input().renamed_lines(),
        strs(added@) == added_imports(
            q.input().nodes(),
            q.input().full_plan(),
            q.input().full_plan().len() as int,
        ),
        eol@ == line_end(q.source@),
    ensures
        r@ == concat_spec(q.input().fixed_lines()),
{
    let ghost all = strs(lines@);
    assert(all.len() == lines@.len());
    let at: usize = match find_anchor(q, survey) {
        Some(line) => if line + 1 <= lines.len() {
            line + 1
        } else {
            lines.len()
        },
        None => 0,
    };
    assert(at == q.input().inject_at(all.len() as int));
    proof {
        reveal_strlit("");
        assert(""@ =~= Seq::empty());
    }
    let mut out: Vec<String> = Vec::new();
    assert(strs(out@) =~= Seq::empty());
    push_lines(&mut out, lines, 0, at, "");
    proof {
        lemma_add_nothing(all.subrange(0, at as int), ""@);
        assert(all.subrange(0, at as int) =~= all.take(at as int));
        assert(strs(out@) =~= all.take(at as int));
    }
    push_lines(&mut out, added, 0, added.len(), eol);
    proof {
        assert(strs(added@).subrange(0, added@.len() as int) =~= strs(added@));
    }
    push_lines(&mut out, lines, at, lines.len(), "");
    proof {
        lemma_add_nothing(all.subrange(at as int, all.len() as int), ""@);
        assert(all.subrange(at as int, all.len() as int) =~= all.skip(at as int));
        assert(strs(out@) =~= q.input().fixed_lines());
    }
    concat(&out)
}

/// Rewrites every import of a name that is no module where that keeps the meaning of the file;
/// `None` where there is none.
pub fn apply_fixes(q: &Query<'_>) -> (r: Option<String>)
    ensures
        opt(r) == q.input().fixed(),
{
    let survey = match Survey::take(q) {
        Some(survey) => survey,
        None => {
            assert(q.input().items() =~= Seq::empty());
            return None;
        },
    };
    let ghost items = q.input().items();
    proof {
        lemma_item_lines(q.input(), survey);
    }
    let plan = make_plan(q, &survey);
    assert(plan_views(plan@, items).len() == plan@.len());
    if plan.len() == 0 {
        return None;
    }
    let eol = find_line_end(q.source);
    let lines = remove_names(q, &survey, &plan, eol.as_str());
    let renamed = rename_uses(q, &survey, &plan, &lines);
    let added = find_added(
        &survey.nodes,
        &plan,
        Ghost(q.input().full_plan()),
        Ghost(items),
    );
    Some(add_imports(q, &survey, &renamed, &added, eol.as_str()))
}

/// Lines count from 1.
proof fn lemma_item_lines(input: Input, survey: Survey)
    requires
        survey.of(input),
    ensures
        forall|k: int|
            0 <= k < survey.items@.len() ==> (#[trigger] survey.items@[k]).end_line >= 1
                && survey.items@[k].start_line >= 1,
{
    lemma_items_to_lines(
        line_starts_of(input.source),
        input.nodes(),
        input.nodes().len() as int,
    );
    assert forall|k: int| 0 <= k < survey.items@.len() implies (#[trigger] survey.items@[k]).end_line
        >= 1 && survey.items@[k].start_line >= 1 by {
        assert(item_views(survey.items@)[k] == survey.items@[k]@);
        assert(input.items()[k].end_line >= 1);
    }
}

proof fn lemma_items_to_lines(
    starts: Seq<int>,
    nodes: Seq<NodeView>,
    n: int,
)
    requires
        ascending(starts),
        n <= nodes.len(),
    ensures
        forall|k: int|
            0 <= k < crate::import_items::items_to(starts, nodes, n).len() ==> (
            #[trigger] crate::import_items::items_to(starts, nodes, n)[k]).end_line >= 1
                && crate::import_items::items_to(starts, nodes, n)[k].start_line >= 1,
    decreases n,
{
    if n > 0 {
        lemma_items_to_lines(starts, nodes, n - 1);
        let i = nodes[n - 1].parent;
        lemma_line_positive(starts, nodes[i].start);
        lemma_line_positive(starts, crate::import_items::last_before(nodes[i].end));
    }
}

proof fn lemma_line_positive(starts: Seq<int>, offset: int)
    requires
        starts.len() > 0,
    ensures
        line_of(starts, offset) >= 1,
    decreases starts.len(),
{
    if starts.len() > 1 && starts.last() > offset {
        lemma_line_positive(starts.drop_last(), offset);
    }
}

// ---------------------------------------------------------------------------
// Laws
// ---------------------------------------------------------------------------

/// The fixer changes a file exactly where the check reports a name as fixable.
pub proof fn law_fix_exactly_when_reported_fixable(
    input: Input,
    level: crate::types::Level,
    unresolved: Option<crate::types::Level>,
)
    requires
        input.target is None,
    ensures
        input.fixed() is Some <==> exists|k: int|
            0 <= k < input.violations(level, unresolved, input.items().len() as int).len() && (
            #[trigger] input.violations(
                level,
                unresolved,
                input.items().len() as int,
            )[k]).fixable,
{
    lemma_plan_prefix(input, level, unresolved, input.items().len() as int);
}

proof fn lemma_plan_prefix(
    input: Input,
    level: crate::types::Level,
    unresolved: Option<crate::types::Level>,
    n: int,
)
    requires
        input.target is None,
    ensures
        input.plan(n).len() > 0 <==> exists|k: int|
            0 <= k < input.violations(level, unresolved, n).len() && (#[trigger] input.violations(
                level,
                unresolved,
                n,
            )[k]).fixable,
    decreases n,
{
    if n > 0 {
        lemma_plan_prefix(input, level, unresolved, n - 1);
        let before = input.violations(level, unresolved, n - 1);
        let after = input.violations(level, unresolved, n);
        if after.len() > before.len() {
            assert(after.drop_last() =~= before);
            if exists|k: int| 0 <= k < before.len() && (#[trigger] before[k]).fixable {
                let k = choose|k: int| 0 <= k < before.len() && (#[trigger] before[k]).fixable;
                assert(after[k].fixable);
            }
            if after.last().fixable {
                assert(after[before.len() as int].fixable);
            }
            if exists|k: int| 0 <= k < after.len() && (#[trigger] after[k]).fixable {
                let k = choose|k: int| 0 <= k < after.len() && (#[trigger] after[k]).fixable;
                if k < before.len() {
                    assert(before[k].fixable);
                }
            }
        }
    }
}

/// Where one violation alone is to be fixed, every name that is rewritten belongs to it.
pub proof fn law_target_alone_is_fixed(input: Input, n: int, k: int)
    requires
        input.target is Some,
        0 <= k < input.plan(n).len(),
    ensures
        input.target->0.rule == "KIS001"@,
        input.plan(n)[k].item.start_line == input.target->0.line,
        input.plan(n)[k].item.col == input.target->0.col,
    decreases n,
{
    if n > 0 && k < input.plan(n - 1).len() {
        law_target_alone_is_fixed(input, n - 1, k);
    }
}

/// No line of the file is inserted or lost where names leave imports and uses are renamed.
pub proof fn law_lines_stay_in_place(input: Input, n: int)
    ensures
        input.without_names(n).len() == lines_spec(input.source).len(),
        input.renamed_lines().len() == lines_spec(input.source).len(),
{
    lemma_line_count(input, n);
    lemma_line_count(input, lines_spec(input.source).len() as int);
}

proof fn lemma_line_count(input: Input, n: int)
    ensures
        input.without_names(n).len() == lines_spec(input.source).len(),
    decreases n,
{
    if n > 0 {
        lemma_line_count(input, n - 1);
    }
}

/// A line that belongs to no rewritten import and reads no rewritten name stays as it is, but for
/// the file's line end behind it.
pub proof fn law_other_lines_stay(input: Input, i: int)
    requires
        0 <= i < lines_spec(input.source).len(),
        forall|at: int|
            0 <= at < lines_spec(input.source).len() && removed_at(
                input.full_plan(),
                at,
            ).len() > 0 ==> !(at <= i <= #[trigger] input.span_end(at, input.items().len() as int)),
        uses_on(
            line_starts_of(input.source),
            load_spans(input.nodes()),
            input.full_plan(),
            i,
        ).len() == 0,
    ensures
        input.renamed_lines()[i] == lines_spec(input.source)[i] + line_end(input.source),
{
    let n = lines_spec(input.source).len() as int;
    law_lines_stay_in_place(input, n);
    lemma_untouched(input, i, n);
    let line = input.without_names(n)[i];
    let uses = uses_on(
        line_starts_of(input.source),
        load_spans(input.nodes()),
        input.full_plan(),
        i,
    );
    assert(uses =~= Seq::empty());
    assert(crate::edit::last_first(uses) =~= Seq::empty());
    let end = own_end(line);
    let bare = line.take(line.len() - end.len());
    assert(spliced(bare, uses) == bare);
    assert(bare + end =~= line) by {
        if end.len() > 0 {
            assert(end.is_suffix_of(line));
            assert(line.skip(line.len() - end.len()) =~= end);
        }
    }
}

proof fn lemma_untouched(input: Input, i: int, n: int)
    requires
        0 <= i < lines_spec(input.source).len(),
        n <= lines_spec(input.source).len(),
        forall|at: int|
            0 <= at < lines_spec(input.source).len() && removed_at(
                input.full_plan(),
                at,
            ).len() > 0 ==> !(at <= i <= #[trigger] input.span_end(at, input.items().len() as int)),
    ensures
        input.without_names(n)[i] == lines_spec(input.source)[i] + line_end(input.source),
    decreases n,
{
    if n > 0 {
        lemma_untouched(input, i, n - 1);
        lemma_line_count(input, n - 1);
        let end = input.span_end(n - 1, input.items().len() as int);
        assert(removed_at(input.full_plan(), n - 1).len() > 0 ==> !(n - 1 <= i <= end));
    }
}

/// Whatever a rewritten use needs is imported: by the file as it was, or by an import that is
/// added.
pub proof fn law_needed_imports_are_there(input: Input, k: int)
    requires
        0 <= k < input.full_plan().len(),
    ensures
        ({
            let plan = input.full_plan();
            let stmt = plan[k].fix.stmt;
            is_imported(input.nodes(), stmt) || added_imports(
                input.nodes(),
                plan,
                plan.len() as int,
            ).contains(stmt)
        }),
{
    lemma_added(input.nodes(), input.full_plan(), input.full_plan().len() as int, k);
}

proof fn lemma_added(nodes: Seq<NodeView>, plan: Seq<PlanView>, n: int, k: int)
    requires
        n <= plan.len(),
    ensures
        sorted(added_imports(nodes, plan, n)),
        0 <= k < n ==> is_imported(nodes, plan[k].fix.stmt) || added_imports(
            nodes,
            plan,
            n,
        ).contains(plan[k].fix.stmt),
    decreases n,
{
    if n > 0 {
        lemma_added(nodes, plan, n - 1, k);
        lemma_with_text(added_imports(nodes, plan, n - 1), plan[n - 1].fix.stmt);
    }
}

} // verus!
