//! Which names of a file must be looked up, and the answers to all of them.
use crate::import_items::{collect_imports, import_items, item_views, ImportItem, ItemView};
use crate::line_index::{build_line_starts, line_starts_of};
use crate::module_facts::{answer, AnswerView, ModuleFacts};
use crate::module_probe::{ModuleProbe, ProbeView};
use crate::noqa::pairs;
use crate::split::{join_first, join_spec, lemma_split_nonempty, split, split_spec};
use crate::syntax::{module_nodes, outline};
use crate::text::{chars, strs};
use vstd::prelude::*;
use vstd::string::*;

verus! {

/// The first `n` splits of a dotted path into a parent and a child.
pub open spec fn splits(parts: Seq<Seq<char>>, n: int) -> Seq<(Seq<char>, Seq<char>)>
    decreases n,
{
    if n <= 0 {
        Seq::empty()
    } else {
        splits(parts, n - 1).push((join_spec(parts.take(n), "."@), parts[n]))
    }
}

/// What must be known of a name: whether it is a module itself, and which of the modules around
/// it is a module of its parent.
pub open spec fn questions_of(module: Seq<char>, name: Seq<char>) -> Seq<(Seq<char>, Seq<char>)> {
    let parts = split_spec(module, '.');
    seq![(module, name)] + splits(parts, parts.len() - 1)
}

/// What must be known of several names.
pub open spec fn all_questions(items: Seq<ItemView>) -> Seq<(Seq<char>, Seq<char>)>
    decreases items.len(),
{
    if items.len() == 0 {
        Seq::empty()
    } else {
        all_questions(items.drop_last()) + questions_of(items.last().module, items.last().name)
    }
}

/// Adds what must be known of a name.
fn ask(out: &mut Vec<(String, String)>, module: &str, name: &str)
    ensures
        pairs(final(out)@) == pairs(old(out)@) + questions_of(module@, name@),
{
    let text = chars(module);
    let parts = split(text.as_slice(), '.');
    let ghost all = split_spec(module@, '.');
    let ghost start = pairs(out@).push((module@, name@));
    proof {
        lemma_split_nonempty(module@, '.');
    }
    assert(strs(parts@).len() == parts@.len());
    let ghost before = out@;
    out.push((module.to_owned(), name.to_owned()));
    assert(pairs(out@) =~= pairs(before).push((module@, name@)));
    assert(start + splits(all, 0) =~= start);
    let mut n: usize = 1;
    while n < parts.len()
        invariant
            1 <= n <= parts@.len(),
            strs(parts@) == all,
            all.len() == parts@.len(),
            pairs(out@) == start + splits(all, n - 1),
        decreases parts@.len() - n,
    {
        assert(strs(parts@)[n as int] == parts@[n as int]@);
        let parent = join_first(&parts, n, ".");
        let ghost before = out@;
        let ghost pair = (parent@, parts@[n as int]@);
        out.push((parent, parts[n].clone()));
        assert(pairs(out@) =~= pairs(before).push(pair));
        assert(start + splits(all, n as int) =~= (start + splits(all, n - 1)).push(pair));
        n += 1;
    }
    assert(start + splits(all, all.len() - 1) =~= pairs(before) + questions_of(module@, name@));
}

/// All that must be known of the names that a list of imports holds.
pub fn questions(items: &Vec<ImportItem>) -> (r: Vec<(String, String)>)
    ensures
        pairs(r@) == all_questions(item_views(items@)),
{
    let ghost all = item_views(items@);
    let mut out: Vec<(String, String)> = Vec::new();
    let mut i: usize = 0;
    assert(pairs(out@) =~= Seq::empty());
    assert(all.take(0) =~= Seq::empty());
    while i < items.len()
        invariant
            i <= items@.len(),
            all == item_views(items@),
            pairs(out@) == all_questions(all.take(i as int)),
        decreases items@.len() - i,
    {
        assert(all.take(i + 1).drop_last() =~= all.take(i as int));
        assert(all.take(i + 1).last() == items@[i as int]@);
        ask(&mut out, items[i].module.as_str(), items[i].name.as_str());
        i += 1;
    }
    assert(all.take(all.len() as int) =~= all);
    out
}

/// All that must be known of the names that a source imports.
pub open spec fn questions_in(source: Seq<char>) -> Seq<(Seq<char>, Seq<char>)> {
    all_questions(import_items(line_starts_of(source), module_nodes(source)))
}

/// All that must be known of the names that a source imports.
pub fn source_questions(source: &str) -> (r: Vec<(String, String)>)
    ensures
        pairs(r@) == questions_in(source@),
{
    match outline(source) {
        Some(nodes) => {
            let starts = build_line_starts(source);
            questions(&collect_imports(&nodes, &starts))
        },
        None => {
            let none: Vec<(String, String)> = Vec::new();
            assert(pairs(none@) =~= Seq::empty());
            assert(import_items(line_starts_of(source@), module_nodes(source@)) =~= Seq::empty());
            none
        },
    }
}

/// The answers to a list of questions.
pub open spec fn answers_to(
    p: ProbeView,
    questions: Seq<(Seq<char>, Seq<char>)>,
) -> Seq<AnswerView> {
    questions.map_values(
        |q: (Seq<char>, Seq<char>)|
            AnswerView { module: q.0, name: q.1, check: p.verdict(q.0, q.1) },
    )
}

/// Answers a list of questions. An error is a directory that must be listed before that can be
/// done.
pub fn resolve(probe: &mut ModuleProbe, questions: &Vec<(String, String)>) -> (r: Result<
    ModuleFacts,
    String,
>)
    requires
        old(probe).wf(),
    ensures
        final(probe).wf(),
        final(probe)@ == old(probe)@,
        match r {
            Ok(facts) => facts@ == answers_to(old(probe)@, pairs(questions@)),
            Err(dir) => exists|i: int|
                0 <= i < questions@.len() && (old(probe)@.needs(
                    (#[trigger] pairs(questions@)[i]).0,
                    pairs(questions@)[i].1,
                    dir@,
                ) || old(probe)@.needs_root(dir@)),
        },
{
    let ghost all = pairs(questions@);
    let ghost p = probe@;
    let mut facts = ModuleFacts::new();
    let mut i: usize = 0;
    assert(answers_to(p, all.take(0)) =~= Seq::empty());
    while i < questions.len()
        invariant
            i <= questions@.len(),
            all == pairs(questions@),
            probe.wf(),
            probe@ == p,
            p == old(probe)@,
            facts@ == answers_to(p, all.take(i as int)),
        decreases questions@.len() - i,
    {
        assert(all[i as int] == (questions@[i as int].0@, questions@[i as int].1@));
        let module = questions[i].0.as_str();
        let name = questions[i].1.as_str();
        match probe.check(module, name) {
            Ok(check) => {
                facts.record(module, name, check);
                assert(facts@ =~= answers_to(p, all.take(i + 1)));
            },
            Err(dir) => {
                assert(p.needs(pairs(questions@)[i as int].0, pairs(questions@)[i as int].1, dir@)
                    || p.needs_root(dir@));
                return Err(dir);
            },
        }
        i += 1;
    }
    assert(all.take(all.len() as int) =~= all);
    Ok(facts)
}

// ---------------------------------------------------------------------------
// Laws
// ---------------------------------------------------------------------------

/// What was asked is answered by what the probe knows.
pub proof fn law_asked_is_answered(
    p: ProbeView,
    questions: Seq<(Seq<char>, Seq<char>)>,
    module: Seq<char>,
    name: Seq<char>,
)
    requires
        questions.contains((module, name)),
    ensures
        answer(answers_to(p, questions), module, name) == p.verdict(module, name),
    decreases questions.len(),
{
    let a = answers_to(p, questions);
    if questions[0] != (module, name) {
        assert(!(questions[0].0 == module && questions[0].1 == name));
        let i = choose|i: int| 0 <= i < questions.len() && questions[i] == (module, name);
        assert(questions.skip(1)[i - 1] == (module, name));
        assert(a.skip(1) =~= answers_to(p, questions.skip(1)));
        law_asked_is_answered(p, questions.skip(1), module, name);
    }
}

proof fn lemma_splits_hold(parts: Seq<Seq<char>>, n: int, k: int)
    requires
        1 <= k <= n,
    ensures
        splits(parts, n).contains((join_spec(parts.take(k), "."@), parts[k])),
    decreases n,
{
    let pair = (join_spec(parts.take(k), "."@), parts[k]);
    if k == n {
        assert(splits(parts, n).last() == pair);
    } else {
        lemma_splits_hold(parts, n - 1, k);
        let shorter = splits(parts, n - 1);
        let j = choose|j: int| 0 <= j < shorter.len() && shorter[j] == pair;
        assert(splits(parts, n)[j] == pair);
    }
}

proof fn lemma_questions_hold(items: Seq<ItemView>, i: int, q: (Seq<char>, Seq<char>))
    requires
        0 <= i < items.len(),
        questions_of(items[i].module, items[i].name).contains(q),
    ensures
        all_questions(items).contains(q),
    decreases items.len(),
{
    let before = all_questions(items.drop_last());
    let last = questions_of(items.last().module, items.last().name);
    if i == items.len() - 1 {
        let j = choose|j: int| 0 <= j < last.len() && last[j] == q;
        assert(all_questions(items)[before.len() + j] == q);
    } else {
        lemma_questions_hold(items.drop_last(), i, q);
        let j = choose|j: int| 0 <= j < before.len() && before[j] == q;
        assert(all_questions(items)[j] == q);
    }
}

/// For every import of a file, the answers tell what the probe knows of the imported name and of
/// every module around it.
pub proof fn law_imports_are_answered(p: ProbeView, items: Seq<ItemView>, i: int)
    requires
        0 <= i < items.len(),
    ensures
        answer(answers_to(p, all_questions(items)), items[i].module, items[i].name) == p.verdict(
            items[i].module,
            items[i].name,
        ),
        forall|n: int|
            1 <= n < split_spec(items[i].module, '.').len() ==> answer(
                answers_to(p, all_questions(items)),
                #[trigger] join_spec(split_spec(items[i].module, '.').take(n), "."@),
                split_spec(items[i].module, '.')[n],
            ) == p.verdict(
                join_spec(split_spec(items[i].module, '.').take(n), "."@),
                split_spec(items[i].module, '.')[n],
            ),
{
    let q = all_questions(items);
    let module = items[i].module;
    let parts = split_spec(module, '.');
    let own = questions_of(module, items[i].name);
    assert(own[0] == (module, items[i].name));
    lemma_questions_hold(items, i, (module, items[i].name));
    law_asked_is_answered(p, q, module, items[i].name);
    assert forall|n: int| 1 <= n < parts.len() implies answer(
        answers_to(p, q),
        #[trigger] join_spec(parts.take(n), "."@),
        parts[n],
    ) == p.verdict(join_spec(parts.take(n), "."@), parts[n]) by {
        let pair = (join_spec(parts.take(n), "."@), parts[n]);
        lemma_splits_hold(parts, parts.len() - 1, n);
        let s = splits(parts, parts.len() - 1);
        let j = choose|j: int| 0 <= j < s.len() && s[j] == pair;
        assert(own[j + 1] == pair);
        lemma_questions_hold(items, i, pair);
        law_asked_is_answered(p, q, pair.0, pair.1);
    }
}

} // verus!
