//! KIS002: `from X import Y as Z` where the rename to `Z` avoids no collision.
//!
//! Only `from` imports by absolute module name are looked at. `as Y` is the re-export idiom and a
//! name that begins with `_` a deliberate marker; neither is reported.
use crate::edit::{apply_splices, splice_views, spliced, Splice, SpliceView};
use crate::imports::{
    alias_asname, alias_name, ambiguous, collect_import_bindings, import_bindings, import_binds,
    is_ambiguous, is_import_bound, module_of, reached, reached_nodes, read_asname, read_module,
    read_name, statement_of,
};
use crate::line_index::{
    ascending, build_line_starts, col_of, line_of, line_starts_of, offset_to_line_col, offsets,
};
use crate::noqa::{has_noqa, pairs, suppressed};
use crate::scope::{
    bucket_at, bucket_for_offset, build_scope_index, collect_load_names, is_name_shadowed,
    lemma_shadowed_where_read, load_spans, shadowed, shadowed_at_occurrences_of,
    shadowed_where_read, span_views, NamedSpan, ScopeIndex, SpanView,
};
use crate::split::{lines_spec, str_lines};
use crate::syntax::{module_nodes, parse_module_stmts, views, well_formed, Kind, Node, NodeView};
use crate::text::{chars, eq, string, strs};
use crate::types::{
    aimed_at, is_aimed_at, target_of, violation_views, FixTarget, Level, TargetView, Violation,
    ViolationView,
};
use vstd::prelude::*;
use vstd::string::*;

verus! {

// ---------------------------------------------------------------------------
// Alias candidates
// ---------------------------------------------------------------------------

/// One `Y as Z` of a `from X import ...` that renames `Y`.
pub struct AliasCandidate {
    pub module: String,
    pub name: String,
    pub asname: String,
    /// The bytes of `Y as Z`.
    pub alias_start: u32,
    pub alias_end: u32,
}

/// What an [`AliasCandidate`] says.
#[verifier::ext_equal]
pub struct CandidateView {
    pub module: Seq<char>,
    pub name: Seq<char>,
    pub asname: Seq<char>,
    pub start: int,
    pub end: int,
}

impl View for AliasCandidate {
    type V = CandidateView;

    open spec fn view(&self) -> CandidateView {
        CandidateView {
            module: self.module@,
            name: self.name@,
            asname: self.asname@,
            start: self.alias_start as int,
            end: self.alias_end as int,
        }
    }
}

/// What several candidates say.
pub open spec fn candidate_views(v: Seq<AliasCandidate>) -> Seq<CandidateView> {
    v.map_values(|c: AliasCandidate| c@)
}

/// Whether an alias renames what it imports from an absolute module.
pub open spec fn is_candidate(nodes: Seq<NodeView>, a: int) -> bool {
    let s = statement_of(nodes, a);
    &&& nodes[a].kind == Kind::Alias
    &&& s.kind == Kind::ImportFrom
    &&& s.level == 0
    &&& module_of(nodes, nodes[a].parent) is Some
    &&& reached(nodes, nodes[a].parent)
    &&& match alias_asname(nodes, a) {
        Some(asname) => asname != alias_name(nodes, a) && !(asname.len() > 0 && asname[0] == '_'),
        None => false,
    }
}

/// The candidate that an alias is.
pub open spec fn candidate_of(nodes: Seq<NodeView>, a: int) -> CandidateView {
    CandidateView {
        module: module_of(nodes, nodes[a].parent)->0,
        name: alias_name(nodes, a),
        asname: alias_asname(nodes, a)->0,
        start: nodes[a].start,
        end: nodes[a].end,
    }
}

/// The candidates among the first `n` nodes, in source order.
pub open spec fn candidates_to(nodes: Seq<NodeView>, n: int) -> Seq<CandidateView>
    decreases n,
{
    if n <= 0 {
        Seq::empty()
    } else {
        let before = candidates_to(nodes, n - 1);
        if is_candidate(nodes, n - 1) {
            before.push(candidate_of(nodes, n - 1))
        } else {
            before
        }
    }
}

/// The candidates of a module, in source order.
pub open spec fn candidates(nodes: Seq<NodeView>) -> Seq<CandidateView> {
    candidates_to(nodes, nodes.len() as int)
}

/// The candidates of a module.
pub fn collect_alias_candidates(nodes: &Vec<Node>) -> (r: Vec<AliasCandidate>)
    requires
        well_formed(views(nodes@)),
    ensures
        candidate_views(r@) == candidates(views(nodes@)),
{
    let ghost all = views(nodes@);
    let visible = reached_nodes(nodes);
    let mut out: Vec<AliasCandidate> = Vec::new();
    let mut i: usize = 0;
    assert(candidate_views(out@) =~= Seq::empty());
    while i < nodes.len()
        invariant
            i <= nodes@.len(),
            all == views(nodes@),
            well_formed(all),
            visible@.len() == nodes@.len(),
            forall|j: int| 0 <= j < visible@.len() ==> #[trigger] visible@[j] == reached(all, j),
            candidate_views(out@) == candidates_to(all, i as int),
        decreases nodes@.len() - i,
    {
        assert(all[i as int] == nodes@[i as int]@);
        assert(all[i as int].parent <= i);
        let p: usize = nodes[i].parent;
        assert(all[p as int] == nodes@[p as int]@);
        let ghost before = out@;
        if nodes[i].kind == Kind::Alias && nodes[p].kind == Kind::ImportFrom && nodes[p].level == 0
            && visible[p] {
            let name = read_name(nodes, i);
            match (read_module(nodes, p), read_asname(nodes, i)) {
                (Some(module), Some(asname)) => {
                    let text = chars(asname.as_str());
                    if asname != name && !(text.len() > 0 && text[0] == '_') {
                        let c = AliasCandidate {
                            module,
                            name,
                            asname,
                            alias_start: nodes[i].start,
                            alias_end: nodes[i].end,
                        };
                        out.push(c);
                        assert(candidate_views(out@) =~= candidate_views(before).push(c@));
                    }
                },
                _ => {},
            }
        }
        i += 1;
    }
    out
}

// ---------------------------------------------------------------------------
// Necessity and safety
// ---------------------------------------------------------------------------

/// Whether the rename avoids a collision: the original name is bound by an import, or shadowed
/// at the import or anywhere that the alias is read.
pub open spec fn necessary(nodes: Seq<NodeView>, c: CandidateView) -> bool {
    ||| import_binds(import_bindings(nodes), c.name)
    ||| shadowed(nodes, c.name, bucket_at(nodes, c.start))
    ||| shadowed_where_read(nodes, c.name, c.asname)
}

/// Whether every use of the alias means this import: it is nowhere shadowed where it is read, and
/// imports bind it to one thing only.
pub open spec fn renameable(nodes: Seq<NodeView>, c: CandidateView) -> bool {
    !shadowed_where_read(nodes, c.asname, c.asname) && !ambiguous(import_bindings(nodes), c.asname)
}

/// Whether the rename is not needed and could be dropped on its own.
pub open spec fn eligible(nodes: Seq<NodeView>, c: CandidateView) -> bool {
    !necessary(nodes, c) && renameable(nodes, c)
}

/// Whether two candidates would bind one name in one scope.
pub open spec fn same_slot(nodes: Seq<NodeView>, a: CandidateView, b: CandidateView) -> bool {
    bucket_at(nodes, a.start) == bucket_at(nodes, b.start) && a.name == b.name
}

/// Whether an eligible candidate before the one at `i` takes the same name in the same scope.
pub open spec fn taken(nodes: Seq<NodeView>, i: int) -> bool {
    let all = candidates(nodes);
    exists|j: int|
        0 <= j < all.len() && eligible(nodes, #[trigger] all[j]) && same_slot(nodes, all[j], all[i])
            && (all[j].start < all[i].start || (all[j].start == all[i].start && j < i))
}

/// Whether dropping the alias at byte `start` would collide with an earlier candidate.
pub open spec fn collides(nodes: Seq<NodeView>, start: int) -> bool {
    let all = candidates(nodes);
    exists|i: int|
        0 <= i < all.len() && (#[trigger] all[i]).start == start && eligible(nodes, all[i]) && taken(
            nodes,
            i,
        )
}

/// Whether the alias can be dropped automatically.
pub open spec fn droppable(nodes: Seq<NodeView>, c: CandidateView) -> bool {
    renameable(nodes, c) && !collides(nodes, c.start)
}

/// Whether the rename in `cand` is needed to avoid a collision.
pub fn is_necessary(
    cand: &AliasCandidate,
    load_names: &Vec<NamedSpan>,
    scope_index: &ScopeIndex,
    bound_targets: &Vec<(String, String)>,
) -> (r: bool)
    ensures
        r == (import_binds(pairs(bound_targets@), cand.name@) || scope_index.shadows(
            cand.name@,
            cand.alias_start as int,
        ) || exists|j: int|
            0 <= j < load_names@.len() && (#[trigger] load_names@[j]).name@ == cand.asname@
                && scope_index.shadows(cand.name@, load_names@[j].start as int)),
{
    is_import_bound(bound_targets, cand.name.as_str()) || is_name_shadowed(
        cand.name.as_str(),
        bucket_for_offset(scope_index, cand.alias_start),
        scope_index,
    ) || shadowed_at_occurrences_of(
        cand.name.as_str(),
        cand.asname.as_str(),
        load_names,
        scope_index,
    )
}

/// Whether dropping the alias and renaming its uses would keep their meaning.
pub fn is_fixable(
    cand: &AliasCandidate,
    load_names: &Vec<NamedSpan>,
    scope_index: &ScopeIndex,
    bound_targets: &Vec<(String, String)>,
) -> (r: bool)
    ensures
        r == (!ambiguous(pairs(bound_targets@), cand.asname@) && !exists|j: int|
            0 <= j < load_names@.len() && (#[trigger] load_names@[j]).name@ == cand.asname@
                && scope_index.shadows(cand.asname@, load_names@[j].start as int)),
{
    !shadowed_at_occurrences_of(
        cand.asname.as_str(),
        cand.asname.as_str(),
        load_names,
        scope_index,
    ) && !is_ambiguous(bound_targets, cand.asname.as_str())
}

/// All that is known of a module's names.
pub struct Facts {
    pub load_names: Vec<NamedSpan>,
    pub scope_index: ScopeIndex,
    pub bound_targets: Vec<(String, String)>,
}

impl Facts {
    /// The facts are those of `nodes`.
    pub open spec fn of(self, nodes: Seq<NodeView>) -> bool {
        &&& span_views(self.load_names@) == load_spans(nodes)
        &&& self.scope_index.describes(nodes)
        &&& pairs(self.bound_targets@) == import_bindings(nodes)
    }

    /// Gathers the facts of a module.
    pub fn gather(nodes: &Vec<Node>) -> (r: Facts)
        requires
            well_formed(views(nodes@)),
        ensures
            r.of(views(nodes@)),
    {
        Facts {
            load_names: collect_load_names(nodes),
            scope_index: build_scope_index(nodes),
            bound_targets: collect_import_bindings(nodes),
        }
    }
}

fn find_necessary(cand: &AliasCandidate, facts: &Facts, Ghost(nodes): Ghost<Seq<NodeView>>) -> (r:
    bool)
    requires
        facts.of(nodes),
    ensures
        r == necessary(nodes, cand@),
{
    proof {
        lemma_shadowed_where_read(
            facts.scope_index,
            facts.load_names@,
            nodes,
            cand.name@,
            cand.asname@,
        );
    }
    is_necessary(cand, &facts.load_names, &facts.scope_index, &facts.bound_targets)
}

fn find_renameable(cand: &AliasCandidate, facts: &Facts, Ghost(nodes): Ghost<Seq<NodeView>>) -> (r:
    bool)
    requires
        facts.of(nodes),
    ensures
        r == renameable(nodes, cand@),
{
    proof {
        lemma_shadowed_where_read(
            facts.scope_index,
            facts.load_names@,
            nodes,
            cand.asname@,
            cand.asname@,
        );
    }
    is_fixable(cand, &facts.load_names, &facts.scope_index, &facts.bound_targets)
}

/// Whether two optional offsets are the same.
fn same_bucket(a: Option<u32>, b: Option<u32>) -> (r: bool)
    ensures
        r == (a == b),
{
    match (a, b) {
        (Some(x), Some(y)) => x == y,
        (None, None) => true,
        _ => false,
    }
}

/// For each candidate, whether it is eligible and an earlier eligible one takes the same name in
/// the same scope.
fn collect_rename_collisions(
    cands: &Vec<AliasCandidate>,
    facts: &Facts,
    Ghost(nodes): Ghost<Seq<NodeView>>,
) -> (r: Vec<u32>)
    requires
        facts.of(nodes),
        candidate_views(cands@) == candidates(nodes),
    ensures
        forall|start: u32| #![trigger r@.contains(start)] r@.contains(start) <==> collides(nodes, start as int),
{
    let ghost all = candidates(nodes);
    let mut fit: Vec<bool> = Vec::new();
    let mut i: usize = 0;
    while i < cands.len()
        invariant
            i <= cands@.len(),
            facts.of(nodes),
            candidate_views(cands@) == all,
            all == candidates(nodes),
            fit@.len() == i,
            forall|j: int| 0 <= j < i ==> #[trigger] fit@[j] == eligible(nodes, all[j]),
        decreases cands@.len() - i,
    {
        assert(all[i as int] == cands@[i as int]@);
        let ok = !find_necessary(&cands[i], facts, Ghost(nodes)) && find_renameable(
            &cands[i],
            facts,
            Ghost(nodes),
        );
        fit.push(ok);
        i += 1;
    }
    let mut rejected: Vec<u32> = Vec::new();
    let mut k: usize = 0;
    while k < cands.len()
        invariant
            k <= cands@.len(),
            facts.of(nodes),
            candidate_views(cands@) == all,
            all == candidates(nodes),
            fit@.len() == cands@.len(),
            forall|j: int| 0 <= j < fit@.len() ==> #[trigger] fit@[j] == eligible(nodes, all[j]),
            forall|start: u32|
                #![trigger rejected@.contains(start)]
                rejected@.contains(start) <==> exists|j: int|
                    0 <= j < k && (#[trigger] all[j]).start == start && eligible(nodes, all[j])
                        && taken(nodes, j),
        decreases cands@.len() - k,
    {
        assert(all[k as int] == cands@[k as int]@);
        let mut claimed = false;
        if fit[k] {
            let mine = bucket_for_offset(&facts.scope_index, cands[k].alias_start);
            let mut j: usize = 0;
            while j < cands.len()
                invariant
                    j <= cands@.len(),
                    k < cands@.len(),
                    facts.of(nodes),
                    candidate_views(cands@) == all,
                    all == candidates(nodes),
                    all[k as int] == cands@[k as int]@,
                    fit@.len() == cands@.len(),
                    forall|m: int|
                        0 <= m < fit@.len() ==> #[trigger] fit@[m] == eligible(nodes, all[m]),
                    match mine {
                        Some(start) => bucket_at(nodes, all[k as int].start) == Some(start as int),
                        None => bucket_at(nodes, all[k as int].start) is None,
                    },
                    claimed == exists|m: int|
                        0 <= m < j && eligible(nodes, #[trigger] all[m]) && same_slot(
                            nodes,
                            all[m],
                            all[k as int],
                        ) && (all[m].start < all[k as int].start || (all[m].start
                            == all[k as int].start && m < k)),
                decreases cands@.len() - j,
            {
                assert(all[j as int] == cands@[j as int]@);
                let theirs = bucket_for_offset(&facts.scope_index, cands[j].alias_start);
                let earlier = cands[j].alias_start < cands[k].alias_start || (cands[j].alias_start
                    == cands[k].alias_start && j < k);
                if fit[j] && earlier && cands[j].name == cands[k].name && same_bucket(
                    theirs,
                    mine,
                ) {
                    assert(same_slot(nodes, all[j as int], all[k as int]));
                    claimed = true;
                }
                j += 1;
            }
            assert(claimed == taken(nodes, k as int));
        }
        let ghost before = rejected@;
        if claimed {
            rejected.push(cands[k].alias_start);
        }
        proof {
            let here = eligible(nodes, all[k as int]) && taken(nodes, k as int);
            assert(claimed == here);
            assert forall|start: u32| #![trigger rejected@.contains(start)]
                rejected@.contains(start) <==> exists|j: int|
                    0 <= j < k + 1 && (#[trigger] all[j]).start == start && eligible(nodes, all[j])
                        && taken(nodes, j) by {
                if before.contains(start) {
                    let m = before.index_of(start);
                    assert(rejected@[m] == start);
                    let j = choose|j: int|
                        0 <= j < k && (#[trigger] all[j]).start == start && eligible(nodes, all[j])
                            && taken(nodes, j);
                    assert(all[j].start == start);
                }
                if here && all[k as int].start == start {
                    assert(rejected@[before.len() as int] == start);
                }
                if rejected@.contains(start) {
                    let m = rejected@.index_of(start);
                    if m < before.len() {
                        assert(before[m] == start);
                        assert(before.contains(start));
                    } else {
                        assert(all[k as int].start == start);
                    }
                }
                if exists|j: int|
                    0 <= j < k + 1 && (#[trigger] all[j]).start == start && eligible(nodes, all[j])
                        && taken(nodes, j) {
                    let j = choose|j: int|
                        0 <= j < k + 1 && (#[trigger] all[j]).start == start && eligible(
                            nodes,
                            all[j],
                        ) && taken(nodes, j);
                    if j < k {
                        assert(before.contains(start));
                    }
                }
            }
        }
        k += 1;
    }
    rejected
}

// ---------------------------------------------------------------------------
// Check
// ---------------------------------------------------------------------------

/// The line of a byte offset in a source, counted from 1.
pub open spec fn source_line(source: Seq<char>, offset: int) -> int {
    line_of(line_starts_of(source), offset)
}

/// The byte column of a byte offset in its line.
pub open spec fn source_col(source: Seq<char>, offset: int) -> int {
    col_of(line_starts_of(source), offset)
}

/// The offset of the last byte before `end`.
pub open spec fn last_byte(end: int) -> int {
    if end > 0 {
        end - 1
    } else {
        0
    }
}

/// Whether a `# noqa` on the line of `offset` suppresses `code`.
pub open spec fn silenced(
    source: Seq<char>,
    offset: int,
    code: Seq<char>,
    ignore_noqa: bool,
    aliases: Seq<(Seq<char>, Seq<char>)>,
) -> bool {
    let line = source_line(source, offset);
    !ignore_noqa && line <= lines_spec(source).len() && suppressed(
        lines_spec(source)[line - 1],
        code,
        aliases,
    )
}

/// What is said of a candidate that is reported.
pub open spec fn alias_violation(
    source: Seq<char>,
    c: CandidateView,
    level: Level,
    fixable: bool,
) -> ViolationView {
    ViolationView {
        rule: "KIS002"@,
        line: source_line(source, c.start),
        col: source_col(source, c.start),
        end_line: source_line(source, last_byte(c.end)),
        end_col: source_col(source, last_byte(c.end)) + 1,
        message: "Unnecessary alias: `"@ + c.name + "` is imported as `"@ + c.asname + "`, but `"@
            + c.name + "` isn't otherwise used in this module"@,
        help: Some(
            if fixable {
                "Remove the alias: `from "@ + c.module + " import "@ + c.name + "`."@
            } else {
                "`"@ + c.asname
                    + "` is shadowed or bound to more than one import in this file, so konform can't safely rename every use; remove ` as "@
                    + c.asname + "` and rename its uses by hand."@
            },
        ),
        level,
        fixable,
    }
}

/// Whether a candidate is reported: its rename is not needed, and no `# noqa` silences it.
pub open spec fn alias_reported(
    source: Seq<char>,
    c: CandidateView,
    ignore_noqa: bool,
    aliases: Seq<(Seq<char>, Seq<char>)>,
) -> bool {
    !necessary(module_nodes(source), c) && !silenced(
        source,
        c.start,
        "KIS002"@,
        ignore_noqa,
        aliases,
    )
}

/// What is reported of the first `n` candidates of a source.
pub open spec fn alias_violations(
    source: Seq<char>,
    level: Level,
    ignore_noqa: bool,
    aliases: Seq<(Seq<char>, Seq<char>)>,
    n: int,
) -> Seq<ViolationView>
    decreases n,
{
    if n <= 0 {
        Seq::empty()
    } else {
        let nodes = module_nodes(source);
        let before = alias_violations(source, level, ignore_noqa, aliases, n - 1);
        let c = candidates(nodes)[n - 1];
        if alias_reported(source, c, ignore_noqa, aliases) {
            before.push(alias_violation(source, c, level, droppable(nodes, c)))
        } else {
            before
        }
    }
}

/// Whether a `# noqa` on the line of `offset` suppresses `code`.
fn is_silenced(
    source: &str,
    source_lines: &Vec<String>,
    line: usize,
    code: &str,
    ignore_noqa: bool,
    aliases: &Vec<(String, String)>,
    Ghost(offset): Ghost<int>,
) -> (r: bool)
    requires
        strs(source_lines@) == lines_spec(source@),
        line == source_line(source@, offset),
        line >= 1,
    ensures
        r == silenced(source@, offset, code@, ignore_noqa, pairs(aliases@)),
{
    if ignore_noqa || line > source_lines.len() {
        return false;
    }
    assert(strs(source_lines@)[line - 1] == source_lines@[line - 1]@);
    has_noqa(source_lines[line - 1].as_str(), code, aliases)
}

fn make_alias_violation(
    source: &str,
    starts: &Vec<u32>,
    c: &AliasCandidate,
    level: Level,
    fixable: bool,
) -> (r: Violation)
    requires
        offsets(starts@) == line_starts_of(source@),
        ascending(offsets(starts@)),
    ensures
        r@ == alias_violation(source@, c@, level, fixable),
{
    let (line, col) = offset_to_line_col(starts, c.alias_start);
    let end: u32 = if c.alias_end > 0 {
        c.alias_end - 1
    } else {
        0
    };
    let (end_line, last_col) = offset_to_line_col(starts, end);
    assert(last_col <= end);
    let mut message = "Unnecessary alias: `".to_owned();
    message.append(c.name.as_str());
    message.append("` is imported as `");
    message.append(c.asname.as_str());
    message.append("`, but `");
    message.append(c.name.as_str());
    message.append("` isn't otherwise used in this module");
    let help = if fixable {
        let mut help = "Remove the alias: `from ".to_owned();
        help.append(c.module.as_str());
        help.append(" import ");
        help.append(c.name.as_str());
        help.append("`.");
        help
    } else {
        let mut help = "`".to_owned();
        help.append(c.asname.as_str());
        help.append("` is shadowed or bound to more than one import in this file, so konform can't safely rename every use; remove ` as ");
        help.append(c.asname.as_str());
        help.append("` and rename its uses by hand.");
        help
    };
    let v = Violation {
        rule: "KIS002".to_owned(),
        line,
        col,
        end_line,
        end_col: last_col + 1,
        message,
        help: Some(help),
        level,
        fixable,
    };
    v
}

/// Reports every alias of a `from` import that is not needed.
pub fn check_aliases(
    source: &str,
    level: Level,
    ignore_noqa: bool,
    noqa_aliases: &Vec<(String, String)>,
) -> (r: Vec<Violation>)
    ensures
        violation_views(r@) == alias_violations(
            source@,
            level,
            ignore_noqa,
            pairs(noqa_aliases@),
            candidates(module_nodes(source@)).len() as int,
        ),
{
    let nodes = parse_module_stmts(source);
    let ghost all = views(nodes@);
    let mut out: Vec<Violation> = Vec::new();
    assert(violation_views(out@) =~= Seq::empty());
    if nodes.len() == 0 {
        assert(all =~= Seq::empty());
        assert(candidates(all) =~= Seq::empty());
        return out;
    }
    let starts = build_line_starts(source);
    let source_lines = str_lines(source);
    let facts = Facts::gather(&nodes);
    let cands = collect_alias_candidates(&nodes);
    let collisions = collect_rename_collisions(&cands, &facts, Ghost(all));
    let mut i: usize = 0;
    while i < cands.len()
        invariant
            i <= cands@.len(),
            all == module_nodes(source@),
            facts.of(all),
            candidate_views(cands@) == candidates(all),
            offsets(starts@) == line_starts_of(source@),
            ascending(offsets(starts@)),
            strs(source_lines@) == lines_spec(source@),
            forall|start: u32|
                #![trigger collisions@.contains(start)]
                collisions@.contains(start) <==> collides(all, start as int),
            violation_views(out@) == alias_violations(
                source@,
                level,
                ignore_noqa,
                pairs(noqa_aliases@),
                i as int,
            ),
        decreases cands@.len() - i,
    {
        let c = &cands[i];
        assert(candidates(all)[i as int] == c@);
        let ghost before = out@;
        let (line, _) = offset_to_line_col(&starts, c.alias_start);
        if !find_necessary(c, &facts, Ghost(all)) && !is_silenced(
            source,
            &source_lines,
            line,
            "KIS002",
            ignore_noqa,
            noqa_aliases,
            Ghost(c.alias_start as int),
        ) {
            let fixable = find_renameable(c, &facts, Ghost(all)) && !has_offset(
                &collisions,
                c.alias_start,
            );
            let v = make_alias_violation(source, &starts, c, level, fixable);
            out.push(v);
            assert(violation_views(out@) =~= violation_views(before).push(v@));
        }
        i += 1;
    }
    assert(candidates(all).len() == cands@.len());
    out
}

/// Whether a list holds an offset.
fn has_offset(list: &Vec<u32>, x: u32) -> (r: bool)
    ensures
        r == list@.contains(x),
{
    let mut i: usize = 0;
    while i < list.len()
        invariant
            i <= list@.len(),
            forall|j: int| 0 <= j < i ==> list@[j] != x,
        decreases list@.len() - i,
    {
        if list[i] == x {
            return true;
        }
        i += 1;
    }
    false
}

// ---------------------------------------------------------------------------
// Fix
// ---------------------------------------------------------------------------

/// Whether the alias of a candidate is dropped: its rename is not needed, it can be dropped
/// automatically, no `# noqa` silences it, and no other violation alone is to be fixed.
pub open spec fn alias_dropped(
    source: Seq<char>,
    c: CandidateView,
    ignore_noqa: bool,
    aliases: Seq<(Seq<char>, Seq<char>)>,
    target: Option<TargetView>,
) -> bool {
    alias_reported(source, c, ignore_noqa, aliases) && droppable(module_nodes(source), c)
        && aimed_at(
        target,
        "KIS002"@,
        source_line(source, c.start),
        source_col(source, c.start),
    )
}

/// The candidates among the first `n` whose aliases are dropped.
pub open spec fn dropped(
    source: Seq<char>,
    ignore_noqa: bool,
    aliases: Seq<(Seq<char>, Seq<char>)>,
    target: Option<TargetView>,
    n: int,
) -> Seq<CandidateView>
    decreases n,
{
    if n <= 0 {
        Seq::empty()
    } else {
        let before = dropped(source, ignore_noqa, aliases, target, n - 1);
        let c = candidates(module_nodes(source))[n - 1];
        if alias_dropped(source, c, ignore_noqa, aliases, target) {
            before.push(c)
        } else {
            before
        }
    }
}

/// `Y as Z` cut down to `Y`, for each of several candidates.
pub open spec fn alias_splices(cands: Seq<CandidateView>) -> Seq<SpliceView> {
    cands.map_values(|c: CandidateView| SpliceView { start: c.start, end: c.end, text: c.name })
}

/// The name that an alias is renamed to: that of the last dropped candidate with the alias.
pub open spec fn renamed(cands: Seq<CandidateView>, asname: Seq<char>) -> Option<Seq<char>>
    decreases cands.len(),
{
    if cands.len() == 0 {
        None
    } else if cands.last().asname == asname {
        Some(cands.last().name)
    } else {
        renamed(cands.drop_last(), asname)
    }
}

/// Every use of a dropped alias replaced by the original name.
pub open spec fn use_splices(spans: Seq<SpanView>, cands: Seq<CandidateView>) -> Seq<SpliceView>
    decreases spans.len(),
{
    if spans.len() == 0 {
        Seq::empty()
    } else {
        let before = use_splices(spans.drop_last(), cands);
        let s = spans.last();
        match renamed(cands, s.name) {
            Some(name) => before.push(SpliceView { start: s.start, end: s.end, text: name }),
            None => before,
        }
    }
}

/// What changes where the aliases of `cands` are dropped: the aliases, and each use of one.
pub open spec fn changes(source: Seq<char>, cands: Seq<CandidateView>) -> Seq<SpliceView> {
    alias_splices(cands) + use_splices(load_spans(module_nodes(source)), cands)
}

/// A source without the aliases that are dropped.
pub open spec fn without_aliases(
    source: Seq<char>,
    ignore_noqa: bool,
    aliases: Seq<(Seq<char>, Seq<char>)>,
    target: Option<TargetView>,
) -> Option<Seq<char>> {
    let nodes = module_nodes(source);
    let cands = dropped(source, ignore_noqa, aliases, target, candidates(nodes).len() as int);
    if cands.len() == 0 {
        None
    } else {
        Some(spliced(source, changes(source, cands)))
    }
}

/// The name that an alias is renamed to.
fn find_renamed(cands: &Vec<AliasCandidate>, asname: &str) -> (r: Option<String>)
    ensures
        match r {
            Some(name) => renamed(candidate_views(cands@), asname@) == Some(name@),
            None => renamed(candidate_views(cands@), asname@) is None,
        },
{
    let ghost all = candidate_views(cands@);
    let mut i: usize = cands.len();
    assert(all.take(i as int) =~= all);
    while i > 0
        invariant
            i <= cands@.len(),
            all == candidate_views(cands@),
            renamed(all, asname@) == renamed(all.take(i as int), asname@),
        decreases i,
    {
        assert(all.take(i as int).drop_last() =~= all.take(i - 1));
        assert(all.take(i as int).last() == cands@[i - 1]@);
        if eq(cands[i - 1].asname.as_str(), asname) {
            return Some(cands[i - 1].name.clone());
        }
        i -= 1;
    }
    None
}

/// Drops every alias that is not needed and can be dropped automatically, and renames its uses;
/// `None` where there is none.
pub fn apply_fixes(
    source: &str,
    ignore_noqa: bool,
    noqa_aliases: &Vec<(String, String)>,
    target: &Option<FixTarget>,
) -> (r: Option<String>)
    ensures
        crate::types::opt(r) == without_aliases(
            source@,
            ignore_noqa,
            pairs(noqa_aliases@),
            target_of(*target),
        ),
{
    let nodes = parse_module_stmts(source);
    let ghost all = views(nodes@);
    if nodes.len() == 0 {
        assert(all =~= Seq::empty());
        assert(candidates(all) =~= Seq::empty());
        return None;
    }
    let starts = build_line_starts(source);
    let source_lines = str_lines(source);
    let facts = Facts::gather(&nodes);
    let cands = collect_alias_candidates(&nodes);
    let collisions = collect_rename_collisions(&cands, &facts, Ghost(all));
    let mut accepted: Vec<AliasCandidate> = Vec::new();
    let mut splices: Vec<Splice> = Vec::new();
    let mut i: usize = 0;
    assert(candidate_views(accepted@) =~= Seq::empty());
    assert(splice_views(splices@) =~= alias_splices(Seq::empty()));
    while i < cands.len()
        invariant
            i <= cands@.len(),
            all == module_nodes(source@),
            facts.of(all),
            candidate_views(cands@) == candidates(all),
            offsets(starts@) == line_starts_of(source@),
            ascending(offsets(starts@)),
            strs(source_lines@) == lines_spec(source@),
            forall|start: u32|
                #![trigger collisions@.contains(start)]
                collisions@.contains(start) <==> collides(all, start as int),
            candidate_views(accepted@) == dropped(
                source@,
                ignore_noqa,
                pairs(noqa_aliases@),
                target_of(*target),
                i as int,
            ),
            splice_views(splices@) == alias_splices(candidate_views(accepted@)),
        decreases cands@.len() - i,
    {
        let c = &cands[i];
        assert(candidates(all)[i as int] == c@);
        let ghost before = accepted@;
        let ghost splices_before = splices@;
        let (line, col) = offset_to_line_col(&starts, c.alias_start);
        if !find_necessary(c, &facts, Ghost(all)) && find_renameable(c, &facts, Ghost(all))
            && !has_offset(&collisions, c.alias_start) && is_aimed_at(target, "KIS002", line, col)
            && !is_silenced(
            source,
            &source_lines,
            line,
            "KIS002",
            ignore_noqa,
            noqa_aliases,
            Ghost(c.alias_start as int),
        ) {
            let splice = Splice { start: c.alias_start, end: c.alias_end, text: c.name.clone() };
            splices.push(splice);
            let copy = AliasCandidate {
                module: c.module.clone(),
                name: c.name.clone(),
                asname: c.asname.clone(),
                alias_start: c.alias_start,
                alias_end: c.alias_end,
            };
            accepted.push(copy);
            assert(candidate_views(accepted@) =~= candidate_views(before).push(c@));
            assert(splice_views(splices@) =~= splice_views(splices_before).push(splice@));
            assert(alias_splices(candidate_views(accepted@)) =~= alias_splices(
                candidate_views(before),
            ).push(splice@));
        }
        i += 1;
    }
    assert(candidates(all).len() == cands@.len());
    if accepted.len() == 0 {
        assert(candidate_views(accepted@).len() == 0);
        return None;
    }
    let ghost kept = candidate_views(accepted@);
    let ghost spans = load_spans(all);
    let ghost first = alias_splices(kept);
    let mut k: usize = 0;
    assert(spans.take(0) =~= Seq::empty());
    assert(first + use_splices(spans.take(0), kept) =~= first);
    while k < facts.load_names.len()
        invariant
            k <= facts.load_names@.len(),
            facts.of(all),
            spans == load_spans(all),
            kept == candidate_views(accepted@),
            splice_views(splices@) == first + use_splices(spans.take(k as int), kept),
        decreases facts.load_names@.len() - k,
    {
        assert(spans.take(k + 1).drop_last() =~= spans.take(k as int));
        assert(spans.take(k + 1).last() == facts.load_names@[k as int]@);
        let ghost before = splices@;
        match find_renamed(&accepted, facts.load_names[k].name.as_str()) {
            Some(name) => {
                let splice = Splice {
                    start: facts.load_names[k].start,
                    end: facts.load_names[k].end,
                    text: name,
                };
                splices.push(splice);
                assert(splice_views(splices@) =~= splice_views(before).push(splice@));
                assert((first + use_splices(spans.take(k as int), kept)).push(splice@) =~= first
                    + use_splices(spans.take(k as int), kept).push(splice@));
            },
            None => {},
        }
        k += 1;
    }
    assert(spans.take(spans.len() as int) =~= spans);
    let text = chars(source);
    let out = apply_splices(text.as_slice(), splices);
    Some(string(out.as_slice()))
}

// ---------------------------------------------------------------------------
// Laws
// ---------------------------------------------------------------------------

/// Two aliases that are both dropped never bind one name in one scope.
pub proof fn law_dropped_aliases_do_not_collide(nodes: Seq<NodeView>, i: int, j: int)
    requires
        0 <= i < candidates(nodes).len(),
        0 <= j < candidates(nodes).len(),
        i != j,
        eligible(nodes, candidates(nodes)[i]),
        eligible(nodes, candidates(nodes)[j]),
        droppable(nodes, candidates(nodes)[i]),
        droppable(nodes, candidates(nodes)[j]),
    ensures
        !same_slot(nodes, candidates(nodes)[i], candidates(nodes)[j]),
{
    let all = candidates(nodes);
    if same_slot(nodes, all[i], all[j]) {
        if all[i].start < all[j].start || (all[i].start == all[j].start && i < j) {
            assert(taken(nodes, j));
            assert(collides(nodes, all[j].start));
        } else {
            assert(same_slot(nodes, all[j], all[i]));
            assert(taken(nodes, i));
            assert(collides(nodes, all[i].start));
        }
    }
}

/// The fixer changes a file exactly where the check reports an alias as fixable.
pub proof fn law_fix_exactly_when_reported_fixable(
    source: Seq<char>,
    level: Level,
    ignore_noqa: bool,
    aliases: Seq<(Seq<char>, Seq<char>)>,
)
    ensures
        without_aliases(source, ignore_noqa, aliases, None) is Some <==> exists|k: int|
            0 <= k < alias_violations(
                source,
                level,
                ignore_noqa,
                aliases,
                candidates(module_nodes(source)).len() as int,
            ).len() && (#[trigger] alias_violations(
                source,
                level,
                ignore_noqa,
                aliases,
                candidates(module_nodes(source)).len() as int,
            )[k]).fixable,
{
    lemma_fix_prefix(
        source,
        level,
        ignore_noqa,
        aliases,
        candidates(module_nodes(source)).len() as int,
    );
}

proof fn lemma_fix_prefix(
    source: Seq<char>,
    level: Level,
    ignore_noqa: bool,
    aliases: Seq<(Seq<char>, Seq<char>)>,
    n: int,
)
    ensures
        dropped(source, ignore_noqa, aliases, None, n).len() > 0 <==> exists|k: int|
            0 <= k < alias_violations(source, level, ignore_noqa, aliases, n).len() && (
            #[trigger] alias_violations(source, level, ignore_noqa, aliases, n)[k]).fixable,
    decreases n,
{
    if n > 0 {
        lemma_fix_prefix(source, level, ignore_noqa, aliases, n - 1);
        let before = alias_violations(source, level, ignore_noqa, aliases, n - 1);
        let after = alias_violations(source, level, ignore_noqa, aliases, n);
        let nodes = module_nodes(source);
        let c = candidates(nodes)[n - 1];
        if alias_reported(source, c, ignore_noqa, aliases) {
            assert(after.last() == after[before.len() as int]);
            if exists|k: int| 0 <= k < before.len() && (#[trigger] before[k]).fixable {
                let k = choose|k: int| 0 <= k < before.len() && (#[trigger] before[k]).fixable;
                assert(after[k].fixable);
            }
            if exists|k: int| 0 <= k < after.len() && (#[trigger] after[k]).fixable {
                let k = choose|k: int| 0 <= k < after.len() && (#[trigger] after[k]).fixable;
                if k < before.len() {
                    assert(before[k].fixable);
                }
            }
        }
    }
}

} // verus!
