//! What dropping an alias changes in a file.
use crate::edit::{
    apart, at, last_first, law_only_replaced_parts_change, law_order_keeps_splices,
    lemma_apart_before, lemma_push_holds, patched, replaced_part, SpliceView,
};
use crate::imports::{
    alias_asname, ambiguous, binding_of, bindings, binds_otherwise, dots, identifier_in,
    import_bindings, import_binds, is_import_alias,
};
use crate::kis001_laws::{
    can_hold_statements, has_name, is_around, is_imported_name,
    law_imports_are_looked_for_at_any_depth, local_at, module_at, name_at,
};
use crate::kis002::{
    alias_dropped, alias_splices, alias_violations, candidate_of, candidates, candidates_to,
    changes, collides, dropped, droppable, eligible, is_candidate, necessary, renamed, same_slot,
    taken, use_splices, without_aliases, CandidateView,
};
use crate::line_index::{col_of, line_of, line_starts_of};
use crate::noqa::suppressed;
use crate::scope::{bucket_at, load_spans, shadowed, shadowed_where_read, SpanView};
use crate::scope_laws::law_a_name_is_taken_at_any_reading;
use crate::split::{head_spec, lines_spec};
use crate::syntax::{module_nodes, Kind, NodeView};
use crate::text::is_space;
use crate::types::{Level, TargetView, ViolationView};
use vstd::prelude::*;

verus! {

// ---------------------------------------------------------------------------
// Words
// ---------------------------------------------------------------------------

/// Whether a text ends in a character other than white space.
pub open spec fn ends_firm(s: Seq<char>) -> bool {
    s.len() > 0 && !is_space(s.last())
}

/// Whether a text begins with a character other than white space.
pub open spec fn begins_firm(s: Seq<char>) -> bool {
    s.len() > 0 && !is_space(s[0])
}

/// The number of runs of characters other than white space.
pub open spec fn words(s: Seq<char>) -> int
    decreases s.len(),
{
    if s.len() == 0 {
        0
    } else if ends_firm(s) && !ends_firm(s.drop_last()) {
        words(s.drop_last()) + 1
    } else {
        words(s.drop_last())
    }
}

/// Whether a text is one word.
pub open spec fn is_word(s: Seq<char>) -> bool {
    s.len() > 0 && forall|i: int| 0 <= i < s.len() ==> !is_space(#[trigger] s[i])
}

proof fn lemma_words_join(a: Seq<char>, b: Seq<char>)
    ensures
        words(a + b) == words(a) + words(b) - (if ends_firm(a) && begins_firm(b) {
            1int
        } else {
            0
        }),
    decreases b.len(),
{
    if b.len() == 0 {
        assert(a + b =~= a);
    } else {
        lemma_words_join(a, b.drop_last());
        assert((a + b).drop_last() =~= a + b.drop_last());
        assert((a + b).last() == b.last());
        if b.len() == 1 {
            assert(a + b.drop_last() =~= a);
            assert(words(b.drop_last()) == 0);
        } else {
            assert((a + b.drop_last()).last() == b.drop_last().last());
            assert(b.drop_last()[0] == b[0]);
        }
    }
}

proof fn lemma_some_words(s: Seq<char>)
    ensures
        words(s) >= 0,
        (exists|i: int| 0 <= i < s.len() && !is_space(#[trigger] s[i])) ==> words(s) >= 1,
    decreases s.len(),
{
    if s.len() > 0 {
        lemma_some_words(s.drop_last());
        if exists|i: int| 0 <= i < s.len() && !is_space(#[trigger] s[i]) {
            let i = choose|i: int| 0 <= i < s.len() && !is_space(#[trigger] s[i]);
            if i < s.len() - 1 {
                assert(s.drop_last()[i] == s[i]);
            } else if ends_firm(s.drop_last()) {
                assert(!is_space(s.drop_last()[s.len() - 2]));
            }
        }
    }
}

proof fn lemma_one_word(s: Seq<char>)
    requires
        is_word(s),
    ensures
        words(s) == 1,
    decreases s.len(),
{
    let front = s.drop_last();
    if front.len() == 0 {
        assert(words(front) == 0);
    } else {
        assert(forall|i: int| 0 <= i < front.len() ==> front[i] == s[i]);
        assert(!is_space(s[front.len() - 1]));
        lemma_one_word(front);
    }
}

/// A text with white space between two firm ends holds more than one word.
proof fn lemma_several_words(s: Seq<char>, k: int)
    requires
        begins_firm(s),
        ends_firm(s),
        0 <= k < s.len(),
        is_space(s[k]),
    ensures
        words(s) > 1,
{
    let a = s.take(k + 1);
    let b = s.skip(k + 1);
    assert(a + b =~= s);
    lemma_words_join(a, b);
    assert(a.last() == s[k]);
    lemma_some_words(a);
    lemma_some_words(b);
    assert(a[0] == s[0]);
    assert(b.last() == s.last());
    assert(!is_space(b[b.len() - 1]));
}

// ---------------------------------------------------------------------------
// Fewer words
// ---------------------------------------------------------------------------

/// Whether a splice puts a word where a text with firm ends stood.
pub open spec fn is_firm(text: Seq<char>, x: SpliceView) -> bool {
    is_word(x.text) && begins_firm(replaced_part(text, x)) && ends_firm(replaced_part(text, x))
}

/// Whether a splice replaces more than one word.
pub open spec fn is_spaced(text: Seq<char>, x: SpliceView) -> bool {
    exists|k: int|
        0 <= k < replaced_part(text, x).len() && is_space(#[trigger] replaced_part(text, x)[k])
}

proof fn lemma_fewer_words(text: Seq<char>, s: Seq<SpliceView>)
    requires
        apart(text, s),
        forall|i: int| 0 <= i < s.len() ==> is_firm(text, #[trigger] s[i]),
    ensures
        words(patched(text, s)) <= words(text),
        ends_firm(patched(text, s)) == ends_firm(text),
        (exists|i: int| 0 <= i < s.len() && is_spaced(text, #[trigger] s[i])) ==> words(
            patched(text, s),
        ) < words(text),
    decreases s.len(),
{
    if s.len() > 0 {
        let x = s[0];
        let rest = s.drop_first();
        lemma_apart_before(text, s);
        assert(is_firm(text, x));
        let a = at(text, x.start);
        let b = at(text, x.end);
        let front = text.take(a);
        let gone = replaced_part(text, x);
        let tail = text.skip(b);
        assert forall|i: int| 0 <= i < rest.len() implies is_firm(front, #[trigger] rest[i]) by {
            assert(rest[i] == s[i + 1]);
            assert(is_firm(text, s[i + 1]));
        }
        lemma_fewer_words(front, rest);
        let made = patched(front, rest);
        assert(text =~= front + gone + tail);
        assert(patched(text, s) == made + x.text + tail);
        lemma_words_join(front, gone);
        lemma_words_join(made, x.text);
        lemma_words_join(front + gone, tail);
        lemma_words_join(made + x.text, tail);
        assert((front + gone).last() == gone.last());
        assert((made + x.text).last() == x.text.last());
        assert(!is_space(x.text[0]));
        assert(!is_space(x.text[x.text.len() - 1]));
        lemma_one_word(x.text);
        assert(!is_space(gone[0]));
        lemma_some_words(gone);
        if tail.len() > 0 {
            assert(text.last() == tail.last());
            assert(patched(text, s).last() == tail.last());
        } else {
            assert(text =~= front + gone);
            assert(patched(text, s) =~= made + x.text);
        }
        if exists|i: int| 0 <= i < s.len() && is_spaced(text, #[trigger] s[i]) {
            let i = choose|i: int| 0 <= i < s.len() && is_spaced(text, #[trigger] s[i]);
            if i == 0 {
                let k = choose|k: int| 0 <= k < gone.len() && is_space(#[trigger] gone[k]);
                lemma_several_words(gone, k);
            } else {
                assert(rest[i - 1] == s[i]);
                assert(replaced_part(front, s[i]) == replaced_part(text, s[i]));
                assert(is_spaced(front, rest[i - 1]));
            }
        }
    }
}

// ---------------------------------------------------------------------------
// Laws
// ---------------------------------------------------------------------------

/// The candidates of a source whose aliases are dropped.
pub open spec fn all_dropped(
    source: Seq<char>,
    ignore_noqa: bool,
    aliases: Seq<(Seq<char>, Seq<char>)>,
    target: Option<TargetView>,
) -> Seq<CandidateView> {
    dropped(
        source,
        ignore_noqa,
        aliases,
        target,
        candidates(module_nodes(source)).len() as int,
    )
}

/// `Y as Z` cut down to `Y`.
pub open spec fn alias_splice(c: CandidateView) -> SpliceView {
    SpliceView { start: c.start, end: c.end, text: c.name }
}

/// Whether a splice puts the name of a dropped alias where the alias is read.
pub open spec fn is_use_of(c: CandidateView, s: SpanView, x: SpliceView) -> bool {
    s.name == c.asname && x == (SpliceView { start: s.start, end: s.end, text: c.name })
}

/// Exactly the aliases that are reported, can be dropped automatically and are aimed at are
/// dropped.
pub proof fn law_dropped_are_the_fixable_ones(
    source: Seq<char>,
    ignore_noqa: bool,
    aliases: Seq<(Seq<char>, Seq<char>)>,
    target: Option<TargetView>,
    c: CandidateView,
)
    ensures
        all_dropped(source, ignore_noqa, aliases, target).contains(c) <==> candidates(
            module_nodes(source),
        ).contains(c) && alias_dropped(source, c, ignore_noqa, aliases, target),
{
    let all = candidates(module_nodes(source));
    lemma_dropped(source, ignore_noqa, aliases, target, c, all.len() as int);
    assert(all.take(all.len() as int) =~= all);
}

proof fn lemma_dropped(
    source: Seq<char>,
    ignore_noqa: bool,
    aliases: Seq<(Seq<char>, Seq<char>)>,
    target: Option<TargetView>,
    c: CandidateView,
    n: int,
)
    requires
        0 <= n <= candidates(module_nodes(source)).len(),
    ensures
        dropped(source, ignore_noqa, aliases, target, n).contains(c) <==> candidates(
            module_nodes(source),
        ).take(n).contains(c) && alias_dropped(source, c, ignore_noqa, aliases, target),
    decreases n,
{
    let all = candidates(module_nodes(source));
    if n > 0 {
        lemma_dropped(source, ignore_noqa, aliases, target, c, n - 1);
        let before = dropped(source, ignore_noqa, aliases, target, n - 1);
        let head = all.take(n);
        assert(head =~= all.take(n - 1).push(all[n - 1]));
        lemma_push_holds(all.take(n - 1), all[n - 1], c);
        lemma_push_holds(before, all[n - 1], c);
    }
}

/// What changes are the dropped aliases and the places where one of them is read, and no others:
/// each alias is cut down to its name, and each use becomes that name.
pub proof fn law_only_aliases_and_uses_change(
    source: Seq<char>,
    ignore_noqa: bool,
    aliases: Seq<(Seq<char>, Seq<char>)>,
    target: Option<TargetView>,
    x: SpliceView,
)
    ensures
        ({
            let cands = all_dropped(source, ignore_noqa, aliases, target);
            changes(source, cands).contains(x) ==> (exists|c: CandidateView|
                cands.contains(c) && x == #[trigger] alias_splice(c)) || exists|
                c: CandidateView,
                s: SpanView,
            |
                cands.contains(c) && load_spans(module_nodes(source)).contains(s)
                    && #[trigger] is_use_of(c, s, x)
        }),
{
    let cands = all_dropped(source, ignore_noqa, aliases, target);
    let spans = load_spans(module_nodes(source));
    let first = alias_splices(cands);
    let uses = use_splices(spans, cands);
    if changes(source, cands).contains(x) {
        let i = changes(source, cands).index_of(x);
        if i < first.len() {
            assert(x == alias_splice(cands[i]));
        } else {
            assert(uses[i - first.len()] == x);
            lemma_use_splice(spans, cands, i - first.len());
        }
    }
}

proof fn lemma_renamed(cands: Seq<CandidateView>, asname: Seq<char>)
    ensures
        match renamed(cands, asname) {
            Some(name) => exists|c: CandidateView|
                #[trigger] cands.contains(c) && c.asname == asname && c.name == name,
            None => forall|i: int| 0 <= i < cands.len() ==> (#[trigger] cands[i]).asname != asname,
        },
    decreases cands.len(),
{
    if cands.len() > 0 {
        let before = cands.drop_last();
        assert(cands =~= before.push(cands.last()));
        if cands.last().asname == asname {
            assert(cands.contains(cands.last()));
        } else {
            lemma_renamed(before, asname);
            match renamed(before, asname) {
                Some(name) => {
                    let c = choose|c: CandidateView|
                        #[trigger] before.contains(c) && c.asname == asname && c.name == name;
                    lemma_push_holds(before, cands.last(), c);
                },
                None => {
                    assert forall|i: int| 0 <= i < cands.len() implies (#[trigger] cands[i]).asname
                        != asname by {
                        if i < before.len() {
                            assert(before[i] == cands[i]);
                        }
                    }
                },
            }
        }
    }
}

proof fn lemma_use_splice(spans: Seq<SpanView>, cands: Seq<CandidateView>, i: int)
    requires
        0 <= i < use_splices(spans, cands).len(),
    ensures
        exists|c: CandidateView, s: SpanView|
            cands.contains(c) && spans.contains(s) && #[trigger] is_use_of(
                c,
                s,
                use_splices(spans, cands)[i],
            ),
    decreases spans.len(),
{
    let before = use_splices(spans.drop_last(), cands);
    let last = spans.last();
    assert(spans =~= spans.drop_last().push(last));
    if i < before.len() {
        lemma_use_splice(spans.drop_last(), cands, i);
        assert(use_splices(spans, cands)[i] == before[i]);
        let (c, s) = choose|c: CandidateView, s: SpanView|
            cands.contains(c) && spans.drop_last().contains(s) && #[trigger] is_use_of(
                c,
                s,
                before[i],
            );
        lemma_push_holds(spans.drop_last(), last, s);
        assert(is_use_of(c, s, use_splices(spans, cands)[i]));
    } else {
        lemma_renamed(cands, last.name);
        lemma_push_holds(spans.drop_last(), last, last);
        let x = use_splices(spans, cands)[i];
        let c = choose|c: CandidateView|
            #[trigger] cands.contains(c) && c.asname == last.name && c.name == renamed(
                cands,
                last.name,
            )->0;
        assert(is_use_of(c, last, x));
    }
}

/// Each dropped alias is cut down to its name.
pub proof fn law_dropped_aliases_are_cut(
    source: Seq<char>,
    ignore_noqa: bool,
    aliases: Seq<(Seq<char>, Seq<char>)>,
    target: Option<TargetView>,
    c: CandidateView,
)
    requires
        all_dropped(source, ignore_noqa, aliases, target).contains(c),
    ensures
        changes(source, all_dropped(source, ignore_noqa, aliases, target)).contains(
            alias_splice(c),
        ),
{
    let cands = all_dropped(source, ignore_noqa, aliases, target);
    let i = cands.index_of(c);
    assert(changes(source, cands)[i] == alias_splice(c));
}

/// Each use of a dropped alias becomes the name that the alias stood for: that of the dropped
/// alias itself, or of another one that imports the same thing under the same name.
pub proof fn law_uses_are_renamed(
    source: Seq<char>,
    ignore_noqa: bool,
    aliases: Seq<(Seq<char>, Seq<char>)>,
    target: Option<TargetView>,
    c: CandidateView,
    s: SpanView,
)
    requires
        all_dropped(source, ignore_noqa, aliases, target).contains(c),
        load_spans(module_nodes(source)).contains(s),
        s.name == c.asname,
    ensures
        exists|d: CandidateView, x: SpliceView|
            all_dropped(source, ignore_noqa, aliases, target).contains(d) && d.module + "::"@ + d.name
                == c.module + "::"@ + c.name && changes(
                source,
                all_dropped(source, ignore_noqa, aliases, target),
            ).contains(x) && #[trigger] is_use_of(d, s, x),
{
    let cands = all_dropped(source, ignore_noqa, aliases, target);
    let spans = load_spans(module_nodes(source));
    lemma_renamed(cands, s.name);
    assert(cands[cands.index_of(c)].asname == s.name);
    let d = choose|d: CandidateView|
        #[trigger] cands.contains(d) && d.asname == s.name && d.name == renamed(cands, s.name)->0;
    let x = SpliceView { start: s.start, end: s.end, text: d.name };
    lemma_use_is_spliced(spans, cands, s);
    let uses = use_splices(spans, cands);
    let first = alias_splices(cands);
    assert(changes(source, cands)[first.len() + uses.index_of(x)] == x);
    assert(is_use_of(d, s, x));
    law_dropped_are_the_fixable_ones(source, ignore_noqa, aliases, target, c);
    law_dropped_are_the_fixable_ones(source, ignore_noqa, aliases, target, d);
    lemma_same_import(module_nodes(source), c, d);
}

proof fn lemma_use_is_spliced(spans: Seq<SpanView>, cands: Seq<CandidateView>, s: SpanView)
    requires
        spans.contains(s),
        renamed(cands, s.name) is Some,
    ensures
        use_splices(spans, cands).contains(
            (SpliceView { start: s.start, end: s.end, text: renamed(cands, s.name)->0 }),
        ),
    decreases spans.len(),
{
    let before = spans.drop_last();
    let last = spans.last();
    let x = SpliceView { start: s.start, end: s.end, text: renamed(cands, s.name)->0 };
    assert(spans =~= before.push(last));
    lemma_push_holds(before, last, s);
    let made = use_splices(before, cands);
    if before.contains(s) {
        lemma_use_is_spliced(before, cands, s);
        match renamed(cands, last.name) {
            Some(name) => {
                lemma_push_holds(
                    made,
                    SpliceView { start: last.start, end: last.end, text: name },
                    x,
                );
            },
            None => {},
        }
    } else {
        lemma_push_holds(made, x, x);
    }
}

/// Candidates that may be renamed and have one alias import the same thing.
proof fn lemma_same_import(nodes: Seq<NodeView>, c: CandidateView, d: CandidateView)
    requires
        candidates(nodes).contains(c),
        candidates(nodes).contains(d),
        c.asname == d.asname,
        !ambiguous(import_bindings(nodes), c.asname),
    ensures
        c.module + "::"@ + c.name == d.module + "::"@ + d.name,
{
    lemma_candidate_is_bound(nodes, c, nodes.len() as int);
    lemma_candidate_is_bound(nodes, d, nodes.len() as int);
    let b = import_bindings(nodes);
    let i = choose|i: int|
        0 <= i < b.len() && #[trigger] b[i] == (c.asname, c.module + "::"@ + c.name);
    let j = choose|j: int|
        0 <= j < b.len() && #[trigger] b[j] == (d.asname, d.module + "::"@ + d.name);
    if b[i].1 != b[j].1 {
        assert(binds_otherwise(b, c.asname, b[i].1));
    }
}

proof fn lemma_candidate_is_bound(nodes: Seq<NodeView>, c: CandidateView, n: int)
    requires
        candidates_to(nodes, n).contains(c),
        n <= nodes.len(),
    ensures
        exists|i: int|
            0 <= i < bindings(nodes, n).len() && #[trigger] bindings(nodes, n)[i] == (
                c.asname,
                c.module + "::"@ + c.name,
            ),
    decreases n,
{
    if n > 0 {
        let before = candidates_to(nodes, n - 1);
        let bound = bindings(nodes, n - 1);
        if is_candidate(nodes, n - 1) {
            lemma_push_holds(before, candidate_of(nodes, n - 1), c);
        }
        if before.contains(c) {
            lemma_candidate_is_bound(nodes, c, n - 1);
            let i = choose|i: int|
                0 <= i < bound.len() && #[trigger] bound[i] == (
                    c.asname,
                    c.module + "::"@ + c.name,
                );
            assert(bindings(nodes, n)[i] == bound[i]);
        } else {
            assert(is_import_alias(nodes, n - 1));
            assert(dots(0) =~= Seq::empty());
            assert(dots(0) + c.module =~= c.module);
            assert(binding_of(nodes, n - 1) == (c.asname, c.module + "::"@ + c.name));
            assert(bindings(nodes, n)[bound.len() as int] == binding_of(nodes, n - 1));
        }
    }
}

/// Whether changes can be seen in a text: they replace whole characters and do not overlap, each
/// puts a word where a text without white space at its ends stood, and each alias that is cut
/// has white space in it.
pub open spec fn is_laid_out(
    source: Seq<char>,
    cands: Seq<CandidateView>,
    all: Seq<SpliceView>,
) -> bool {
    &&& apart(source, last_first(all))
    &&& forall|i: int| 0 <= i < all.len() ==> is_firm(source, #[trigger] all[i])
    &&& forall|i: int| 0 <= i < cands.len() ==> is_spaced(source, alias_splice(#[trigger] cands[i]))
}

/// Dropping aliases changes the file, and in it only what is replaced: all other text stays as
/// it is.
pub proof fn law_fix_changes_the_text(
    source: Seq<char>,
    ignore_noqa: bool,
    aliases: Seq<(Seq<char>, Seq<char>)>,
    target: Option<TargetView>,
)
    requires
        without_aliases(source, ignore_noqa, aliases, target) is Some,
        is_laid_out(
            source,
            all_dropped(source, ignore_noqa, aliases, target),
            changes(source, all_dropped(source, ignore_noqa, aliases, target)),
        ),
    ensures
        without_aliases(source, ignore_noqa, aliases, target) == Some(
            patched(
                source,
                last_first(changes(source, all_dropped(source, ignore_noqa, aliases, target))),
            ),
        ),
        without_aliases(source, ignore_noqa, aliases, target) != Some(source),
{
    let cands = all_dropped(source, ignore_noqa, aliases, target);
    let all = changes(source, cands);
    let ordered = last_first(all);
    law_only_replaced_parts_change(source, all);
    assert forall|i: int| 0 <= i < ordered.len() implies is_firm(source, #[trigger] ordered[i]) by {
        law_order_keeps_splices(all, ordered[i]);
        assert(ordered.contains(ordered[i]));
        let j = all.index_of(ordered[i]);
        assert(is_firm(source, all[j]));
    }
    let x = alias_splice(cands[0]);
    assert(all[0] == x);
    assert(all.contains(x));
    law_order_keeps_splices(all, x);
    assert(is_spaced(source, ordered[ordered.index_of(x)]));
    lemma_fewer_words(source, ordered);
}

// ---------------------------------------------------------------------------
// What is reported
// ---------------------------------------------------------------------------

/// Whether the node at `a` renames what it imports: `Y as Z` of a `from X import ...` by absolute
/// name at any depth, where `Z` is not `Y` and does not begin with `_`.
pub open spec fn is_rename(nodes: Seq<NodeView>, a: int) -> bool {
    &&& is_imported_name(nodes, a)
    &&& has_name(nodes, a + 2, a)
    &&& local_at(nodes, a) != name_at(nodes, a)
    &&& !(local_at(nodes, a).len() > 0 && local_at(nodes, a)[0] == '_')
}

/// The candidate that a rename is.
pub open spec fn rename_at(nodes: Seq<NodeView>, a: int) -> CandidateView {
    CandidateView {
        module: module_at(nodes, a),
        name: name_at(nodes, a),
        asname: local_at(nodes, a),
        start: nodes[a].start,
        end: nodes[a].end,
    }
}

proof fn lemma_rename(nodes: Seq<NodeView>, a: int)
    requires
        0 <= a < nodes.len(),
    ensures
        is_candidate(nodes, a) == is_rename(nodes, a),
        is_candidate(nodes, a) ==> candidate_of(nodes, a) == rename_at(nodes, a),
{
    let s = nodes[a].parent;
    law_imports_are_looked_for_at_any_depth(nodes, s);
    assert(identifier_in(nodes, s + 1, s) == (0 <= s + 1 && has_name(nodes, s + 1, s)));
    assert(alias_asname(nodes, a) == if has_name(nodes, a + 2, a) {
        Some(nodes[a + 2].text)
    } else {
        None
    });
}

/// Every alias that renames what it imports is a candidate, and nothing else is.
pub proof fn law_every_rename_is_a_candidate(nodes: Seq<NodeView>, c: CandidateView, n: int)
    requires
        0 <= n <= nodes.len(),
    ensures
        candidates_to(nodes, n).contains(c) <==> exists|a: int|
            0 <= a < n && is_rename(nodes, a) && #[trigger] rename_at(nodes, a) == c,
    decreases n,
{
    if n > 0 {
        law_every_rename_is_a_candidate(nodes, c, n - 1);
        lemma_rename(nodes, n - 1);
        lemma_push_holds(candidates_to(nodes, n - 1), candidate_of(nodes, n - 1), c);
        if candidates_to(nodes, n - 1).contains(c) {
            let a = choose|a: int|
                0 <= a < n - 1 && is_rename(nodes, a) && #[trigger] rename_at(nodes, a) == c;
            assert(rename_at(nodes, a) == c);
        }
        if is_rename(nodes, n - 1) && rename_at(nodes, n - 1) == c {
            assert(candidates_to(nodes, n).contains(c));
        }
        if exists|a: int|
            0 <= a < n && is_rename(nodes, a) && #[trigger] rename_at(nodes, a) == c {
            let a = choose|a: int|
                0 <= a < n && is_rename(nodes, a) && #[trigger] rename_at(nodes, a) == c;
            if a < n - 1 {
                assert(rename_at(nodes, a) == c);
            }
        }
    }
}

/// Whether some import of the file, at any depth, gives a name a meaning.
pub open spec fn is_import_name(nodes: Seq<NodeView>, b: int, name: Seq<char>) -> bool {
    let s = nodes[b].parent;
    &&& 0 <= b < nodes.len() && nodes[b].kind == Kind::Alias
    &&& nodes[s].kind == Kind::Import || nodes[s].kind == Kind::ImportFrom
    &&& forall|x: int| is_around(nodes, x, s) ==> can_hold_statements(#[trigger] nodes[x].kind)
    &&& name == if has_name(nodes, b + 2, b) {
        nodes[b + 2].text
    } else if nodes[s].kind == Kind::ImportFrom {
        name_at(nodes, b)
    } else {
        head_spec(name_at(nodes, b), '.')
    }
}

pub proof fn lemma_import_name(nodes: Seq<NodeView>, b: int, name: Seq<char>)
    requires
        0 <= b < nodes.len(),
    ensures
        is_import_name(nodes, b, name) == (is_import_alias(nodes, b) && binding_of(nodes, b).0
            == name),
{
    law_imports_are_looked_for_at_any_depth(nodes, nodes[b].parent);
    assert(alias_asname(nodes, b) == if has_name(nodes, b + 2, b) {
        Some(nodes[b + 2].text)
    } else {
        None
    });
}

proof fn lemma_bindings(nodes: Seq<NodeView>, name: Seq<char>, n: int)
    requires
        0 <= n <= nodes.len(),
    ensures
        import_binds(bindings(nodes, n), name) <==> exists|b: int|
            0 <= b < n && #[trigger] is_import_name(nodes, b, name),
    decreases n,
{
    if n > 0 {
        lemma_bindings(nodes, name, n - 1);
        lemma_import_name(nodes, n - 1, name);
        let before = bindings(nodes, n - 1);
        let all = bindings(nodes, n);
        if import_binds(before, name) {
            let j = choose|j: int| 0 <= j < before.len() && (#[trigger] before[j]).0 == name;
            assert(all[j] == before[j]);
        }
        if is_import_name(nodes, n - 1, name) {
            assert(all[before.len() as int].0 == name);
        }
        if import_binds(all, name) {
            let j = choose|j: int| 0 <= j < all.len() && (#[trigger] all[j]).0 == name;
            if j < before.len() {
                assert(before[j] == all[j]);
            }
        }
    }
}

/// A rename is needed exactly where some import gives the original name a meaning, or the name is
/// taken where the import stands, or at any place that reads the alias.
pub proof fn law_a_rename_is_needed_where_the_name_is_taken(nodes: Seq<NodeView>, c: CandidateView)
    ensures
        necessary(nodes, c) <==> {
            ||| exists|b: int|
                0 <= b < nodes.len() && #[trigger] is_import_name(nodes, b, c.name)
            ||| shadowed(nodes, c.name, bucket_at(nodes, c.start))
            ||| exists|i: int|
                0 <= i < nodes.len() && (#[trigger] nodes[i]).kind == Kind::Load && nodes[i].text
                    == c.asname && shadowed(nodes, c.name, bucket_at(nodes, nodes[i].start))
        },
{
    lemma_bindings(nodes, c.name, nodes.len() as int);
    law_a_name_is_taken_at_any_reading(nodes, c.name, c.asname);
}

/// Whether a candidate is to be reported: its rename is not needed, and no `# noqa` on its line
/// suppresses the rule.
pub open spec fn is_needless(
    source: Seq<char>,
    c: CandidateView,
    ignore_noqa: bool,
    aliases: Seq<(Seq<char>, Seq<char>)>,
) -> bool {
    let line = line_of(line_starts_of(source), c.start);
    let lines = lines_spec(source);
    !necessary(module_nodes(source), c) && (ignore_noqa || line > lines.len() || !suppressed(
        lines[line - 1],
        "KIS002"@,
        aliases,
    ))
}

/// Whether a violation is about a candidate.
pub open spec fn says_needless(
    source: Seq<char>,
    c: CandidateView,
    level: Level,
    v: ViolationView,
) -> bool {
    &&& v.rule == "KIS002"@ && v.level == level
    &&& v.line == line_of(line_starts_of(source), c.start)
    &&& v.col == col_of(line_starts_of(source), c.start)
    &&& v.fixable == droppable(module_nodes(source), c)
    &&& v.message == "Unnecessary alias: `"@ + c.name + "` is imported as `"@ + c.asname
        + "`, but `"@ + c.name + "` isn't otherwise used in this module"@
}

/// Every alias that is not needed is reported, unless a `# noqa` silences it; it is reported as
/// fixable exactly where it can be dropped.
pub proof fn law_every_needless_alias_is_reported(
    source: Seq<char>,
    level: Level,
    ignore_noqa: bool,
    aliases: Seq<(Seq<char>, Seq<char>)>,
    n: int,
    k: int,
) -> (i: int)
    requires
        0 <= k < n <= candidates(module_nodes(source)).len(),
        is_needless(source, candidates(module_nodes(source))[k], ignore_noqa, aliases),
    ensures
        0 <= i < alias_violations(source, level, ignore_noqa, aliases, n).len(),
        says_needless(
            source,
            candidates(module_nodes(source))[k],
            level,
            alias_violations(source, level, ignore_noqa, aliases, n)[i],
        ),
    decreases n,
{
    if k < n - 1 {
        law_every_needless_alias_is_reported(source, level, ignore_noqa, aliases, n - 1, k)
    } else {
        alias_violations(source, level, ignore_noqa, aliases, n - 1).len() as int
    }
}

/// Nothing else is reported.
pub proof fn law_only_needless_aliases_are_said_to_be(
    source: Seq<char>,
    level: Level,
    ignore_noqa: bool,
    aliases: Seq<(Seq<char>, Seq<char>)>,
    n: int,
    i: int,
) -> (k: int)
    requires
        n <= candidates(module_nodes(source)).len(),
        0 <= i < alias_violations(source, level, ignore_noqa, aliases, n).len(),
    ensures
        0 <= k < n,
        is_needless(source, candidates(module_nodes(source))[k], ignore_noqa, aliases),
        says_needless(
            source,
            candidates(module_nodes(source))[k],
            level,
            alias_violations(source, level, ignore_noqa, aliases, n)[i],
        ),
    decreases n,
{
    if i < alias_violations(source, level, ignore_noqa, aliases, n - 1).len() {
        law_only_needless_aliases_are_said_to_be(source, level, ignore_noqa, aliases, n - 1, i)
    } else {
        n - 1
    }
}

/// Aliases that can be dropped mean one import only: the alias is not taken where it is read, and
/// every import under that name imports the same thing. Those that cannot be dropped fail in this,
/// or would take a name that another alias gives up first.
pub proof fn law_droppable_aliases_mean_one_import(nodes: Seq<NodeView>, c: CandidateView)
    ensures
        droppable(nodes, c) ==> !shadowed_where_read(nodes, c.asname, c.asname) && forall|
            i: int,
            j: int,
        |
            0 <= i < import_bindings(nodes).len() && 0 <= j < import_bindings(nodes).len()
                && #[trigger] import_bindings(nodes)[i].0 == c.asname
                && #[trigger] import_bindings(nodes)[j].0 == c.asname ==> import_bindings(nodes)[i].1
                == import_bindings(nodes)[j].1,
        !shadowed_where_read(nodes, c.asname, c.asname) && !ambiguous(
            import_bindings(nodes),
            c.asname,
        ) && (forall|k: int|
            0 <= k < candidates(nodes).len() && (#[trigger] candidates(nodes)[k]).name == c.name
                ==> candidates(nodes)[k] == c) && (forall|k: int|
            0 <= k < candidates(nodes).len() && (#[trigger] candidates(nodes)[k]).start == c.start
                ==> candidates(nodes)[k] == c) && (forall|k: int, l: int|
            0 <= k < candidates(nodes).len() && 0 <= l < candidates(nodes).len()
                && #[trigger] candidates(nodes)[k] == c && #[trigger] candidates(nodes)[l] == c ==> k
                == l) ==> droppable(nodes, c),
{
    let b = import_bindings(nodes);
    if droppable(nodes, c) {
        assert forall|i: int, j: int|
            0 <= i < b.len() && 0 <= j < b.len() && #[trigger] b[i].0 == c.asname
                && #[trigger] b[j].0 == c.asname implies b[i].1 == b[j].1 by {
            if b[i].1 != b[j].1 {
                assert(binds_otherwise(b, c.asname, b[i].1));
            }
        }
    }
    let all = candidates(nodes);
    if collides(nodes, c.start) && (forall|k: int|
        0 <= k < all.len() && (#[trigger] all[k]).name == c.name ==> all[k] == c) && (forall|k: int|
        0 <= k < all.len() && (#[trigger] all[k]).start == c.start ==> all[k] == c) && (forall|
        k: int,
        l: int,
    |
        0 <= k < all.len() && 0 <= l < all.len() && #[trigger] all[k] == c && #[trigger] all[l] == c
            ==> k == l) {
        let i = choose|i: int|
            0 <= i < all.len() && (#[trigger] all[i]).start == c.start && eligible(nodes, all[i])
                && taken(nodes, i);
        let j = choose|j: int|
            0 <= j < all.len() && eligible(nodes, #[trigger] all[j]) && same_slot(
                nodes,
                all[j],
                all[i],
            ) && (all[j].start < all[i].start || (all[j].start == all[i].start && j < i));
        assert(all[i] == c);
        assert(all[j].name == c.name);
        assert(all[j] == c);
        assert(i == j);
    }
}

/// Of two aliases that could both be dropped and would then bind one name in one scope, only the
/// first is: the other cannot be dropped automatically.
pub proof fn law_the_first_alias_takes_the_name(nodes: Seq<NodeView>, i: int, j: int)
    requires
        0 <= i < candidates(nodes).len(),
        0 <= j < candidates(nodes).len(),
        eligible(nodes, candidates(nodes)[i]),
        eligible(nodes, candidates(nodes)[j]),
        candidates(nodes)[i].name == candidates(nodes)[j].name,
        bucket_at(nodes, candidates(nodes)[i].start) == bucket_at(
            nodes,
            candidates(nodes)[j].start,
        ),
        candidates(nodes)[j].start < candidates(nodes)[i].start,
    ensures
        !droppable(nodes, candidates(nodes)[i]),
{
    let all = candidates(nodes);
    assert(same_slot(nodes, all[j], all[i]));
    assert(taken(nodes, i));
    assert(all[i].start == all[i].start);
    assert(collides(nodes, all[i].start));
}

/// An alias can be dropped where imports bind it to one thing, it is nowhere shadowed where it is
/// read, and no alias in front of it would bind the same name in the same scope.
pub proof fn law_aliases_without_rivals_can_be_dropped(nodes: Seq<NodeView>, i: int)
    requires
        0 <= i < candidates(nodes).len(),
        !shadowed_where_read(nodes, candidates(nodes)[i].asname, candidates(nodes)[i].asname),
        !ambiguous(import_bindings(nodes), candidates(nodes)[i].asname),
        forall|k: int, j: int|
            0 <= k < candidates(nodes).len() && 0 <= j < candidates(nodes).len() && (
            #[trigger] candidates(nodes)[k]).start == candidates(nodes)[i].start && (
            #[trigger] candidates(nodes)[j]).name == candidates(nodes)[k].name && bucket_at(
                nodes,
                candidates(nodes)[j].start,
            ) == bucket_at(nodes, candidates(nodes)[k].start) ==> candidates(nodes)[j].start
                >= candidates(nodes)[k].start && !(candidates(nodes)[j].start == candidates(
                nodes,
            )[k].start && j < k),
    ensures
        droppable(nodes, candidates(nodes)[i]),
{
    let all = candidates(nodes);
    let start = all[i].start;
    if collides(nodes, start) {
        let k = choose|k: int|
            0 <= k < all.len() && (#[trigger] all[k]).start == start && eligible(nodes, all[k])
                && taken(nodes, k);
        let j = choose|j: int|
            0 <= j < all.len() && eligible(nodes, #[trigger] all[j]) && same_slot(
                nodes,
                all[j],
                all[k],
            ) && (all[j].start < all[k].start || (all[j].start == all[k].start && j < k));
        assert(all[k].start == start);
        assert(all[j].name == all[k].name);
    }
}

} // verus!
