//! What a language server tells its client, what it offers, and what it keeps of documents.
use crate::config::Config;
use crate::engine::{all_passes, one_pass, ModeView, MAX_FIX_PASSES};
use crate::json::JsonView;
use crate::lsp_actions::{
    diagnostic_of, document_fixed, fix_all, in_range, kind_wanted, name_for, offers, quick_fix,
    quick_fixes, violation_edits, ActionKind, ActionRequest,
};
use crate::lsp_position::{
    breaks, client_column, last_line_units, law_full_edit_replaces_all, patched, units,
    units_before, Range,
};
use crate::lsp_session::{
    all_changed, document_at, place_of, settings_answered, with_document, without_document, Change,
    DocumentView,
};
use crate::rules::Rule;
use crate::split::split_spec;
use crate::text::{byte_len, char_width};
use crate::types::{TargetView, ViolationView};
use vstd::prelude::*;

verus! {

// ---------------------------------------------------------------------------
// Diagnostics
// ---------------------------------------------------------------------------

/// A diagnostic has the code and the level of its violation, the help below the message, and says
/// whether the violation can be fixed.
pub proof fn law_diagnostics_say_all(v: ViolationView, source: Seq<char>)
    ensures
        ({
            let d = diagnostic_of(v, source);
            &&& d.code == v.rule
            &&& d.severity == v.level
            &&& v.help is None ==> d.message == v.message
            &&& v.help is Some && v.help->0.len() > 0 ==> d.message == v.message + "\n"@ + v.help->0
            &&& d.data is Some <==> v.fixable
            &&& v.fixable && v.help is Some ==> d.data == Some((v.rule, v.help->0))
        }),
{
    reveal_strlit("");
}

/// A diagnostic ends on the line where its violation does, counted from 0.
pub proof fn law_diagnostics_end_on_their_line(v: ViolationView, source: Seq<char>)
    requires
        1 <= v.end_line <= u32::MAX,
    ensures
        diagnostic_of(v, source).range.end.line + 1 == v.end_line,
{
}

/// A character takes one code unit, or two where it lies beyond the first plane.
pub proof fn law_characters_take_one_or_two_units(c: char)
    ensures
        (c as u32) <= 0xffff ==> units(c) == 1,
        (c as u32) > 0xffff ==> units(c) == 2,
{
}

/// The units of a line add up over its parts.
pub proof fn law_units_add_up(a: Seq<char>, b: Seq<char>, c: char)
    requires
        forall|i: int| 0 <= i < b.len() ==> #[trigger] b[i] != '\n',
    ensures
        last_line_units(a + b) == last_line_units(a) + last_line_units(b),
        c != '\n' ==> last_line_units(seq![c]) == units(c),
    decreases b.len(),
{
    let all = a + b;
    let one = seq![c];
    assert(one.drop_last() =~= Seq::empty());
    assert(last_line_units(one.drop_last()) == 0);
    assert(one.last() == c);
    if b.len() == 0 {
        assert(all =~= a);
    } else {
        let rest = b.drop_last();
        assert forall|i: int| 0 <= i < rest.len() implies #[trigger] rest[i] != '\n' by {
            assert(rest[i] == b[i]);
        }
        law_units_add_up(a, rest, c);
        assert(all.drop_last() =~= a + rest);
        assert(b[b.len() - 1] != '\n');
        assert(all.last() == b.last());
    }
}

proof fn lemma_units_from_front(a: Seq<char>)
    requires
        a.len() > 0,
        forall|i: int| 0 <= i < a.len() ==> #[trigger] a[i] != '\n',
    ensures
        last_line_units(a) == units(a[0]) + last_line_units(a.skip(1)),
{
    let one = seq![a[0]];
    let rest = a.skip(1);
    assert forall|i: int| 0 <= i < rest.len() implies #[trigger] rest[i] != '\n' by {
        assert(rest[i] == a[i + 1]);
    }
    assert(a =~= one + rest);
    assert(a[0] != '\n');
    law_units_add_up(one, rest, a[0]);
}

proof fn lemma_units_before(a: Seq<char>, b: Seq<char>)
    requires
        forall|i: int| 0 <= i < a.len() ==> #[trigger] a[i] != '\n',
    ensures
        units_before(a + b, byte_len(a) as int) == last_line_units(a),
    decreases a.len(),
{
    let all = a + b;
    if a.len() == 0 {
        assert(byte_len(a) == 0);
    } else {
        let one = seq![a[0]];
        let rest = a.skip(1);
        assert forall|i: int| 0 <= i < rest.len() implies #[trigger] rest[i] != '\n' by {
            assert(rest[i] == a[i + 1]);
        }
        lemma_units_before(rest, b);
        lemma_units_from_front(a);
        assert(all.skip(1) =~= rest + b);
        assert(a =~= one + rest);
        crate::text_laws::law_bytes_add_up(one, rest);
        assert(one.drop_last() =~= Seq::empty());
        assert(byte_len(one.drop_last()) == 0);
        assert(byte_len(one) == char_width(a[0]));
        assert(all[0] == a[0]);
    }
}

/// The column behind a part of a line is as many units as that part takes, whatever its bytes are.
pub proof fn law_columns_count_units(source: Seq<char>, line: int, a: Seq<char>, b: Seq<char>)
    requires
        1 <= line <= split_spec(source, '\n').len(),
        split_spec(source, '\n')[line - 1] == a + b,
        forall|i: int| 0 <= i < a.len() ==> #[trigger] a[i] != '\n',
        last_line_units(a) <= u32::MAX,
    ensures
        client_column(source, line, byte_len(a) as int) == last_line_units(a),
{
    lemma_units_before(a, b);
    lemma_units_positive(a);
}

proof fn lemma_units_positive(a: Seq<char>)
    ensures
        last_line_units(a) >= 0,
    decreases a.len(),
{
    if a.len() > 0 {
        lemma_units_positive(a.drop_last());
    }
}

// ---------------------------------------------------------------------------
// Offers
// ---------------------------------------------------------------------------

/// A kind is wanted where none is named, where it is named itself, or where one above it is.
pub proof fn law_kinds_are_wanted_by_name(kinds: Seq<Seq<char>>, kind: Seq<char>)
    ensures
        kind_wanted(None, kind),
        kind_wanted(Some(kinds), kind) <==> exists|i: int|
            0 <= i < kinds.len() && ((#[trigger] kinds[i]) == kind || (kinds[i]
                + "."@).is_prefix_of(kind)),
{
    if kind_wanted(Some(kinds), kind) {
        let i = choose|i: int|
            0 <= i < kinds.len() && crate::lsp_actions::kind_fits(kind, #[trigger] kinds[i]);
        assert(kinds[i] == kind || (kinds[i] + "."@).is_prefix_of(kind));
    }
    if exists|i: int|
        0 <= i < kinds.len() && ((#[trigger] kinds[i]) == kind || (kinds[i] + "."@).is_prefix_of(
            kind,
        )) {
        let i = choose|i: int|
            0 <= i < kinds.len() && ((#[trigger] kinds[i]) == kind || (kinds[i]
                + "."@).is_prefix_of(kind));
        assert(crate::lsp_actions::kind_fits(kind, kinds[i]));
    }
}

/// A violation that can be fixed by some edits and lies on the lines that are asked about is offered
/// to be fixed, by just these edits.
pub proof fn law_fixable_violations_are_offered<R: Rule>(
    rules: Seq<R>,
    path: Seq<char>,
    config: Config,
    source: Seq<char>,
    range: Range,
    violations: Seq<ViolationView>,
    i: int,
    n: int,
) -> (k: int)
    requires
        0 <= i < n <= violations.len(),
        violations[i].fixable,
        1 <= violations[i].line <= u32::MAX,
        range.start.line < violations[i].line <= range.end.line + 1,
        violation_edits(rules, path, config, source, violations[i]) is Some,
    ensures
        ({
            let offered = quick_fixes(rules, path, config, source, range, violations, n);
            &&& 0 <= k < offered.len()
            &&& Some(offered[k].edits) == violation_edits(
                rules,
                path,
                config,
                source,
                violations[i],
            )
            &&& offered[k].kind == ActionKind::QuickFix
            &&& offered[k].diagnostics == seq![diagnostic_of(violations[i], source)]
            &&& offered[k].title == "Konform: Fix "@ + name_for(rules, violations[i].rule) + " ["@
                + violations[i].rule + "]"@
            &&& offered[k].preferred
        }),
    decreases n,
{
    if i == n - 1 {
        let prior = quick_fixes(rules, path, config, source, range, violations, n - 1);
        assert(in_range(violations[i], range));
        prior.len() as int
    } else {
        law_fixable_violations_are_offered(
            rules,
            path,
            config,
            source,
            range,
            violations,
            i,
            n - 1,
        )
    }
}

/// Nothing else is offered: each offer is for a violation that can be fixed and lies on the lines
/// that are asked about.
pub proof fn law_only_fixable_violations_are_offered<R: Rule>(
    rules: Seq<R>,
    path: Seq<char>,
    config: Config,
    source: Seq<char>,
    range: Range,
    violations: Seq<ViolationView>,
    n: int,
    k: int,
) -> (i: int)
    requires
        0 <= n <= violations.len(),
        0 <= k < quick_fixes(rules, path, config, source, range, violations, n).len(),
        forall|j: int| 0 <= j < n ==> 1 <= (#[trigger] violations[j]).line <= u32::MAX,
    ensures
        0 <= i < n,
        violations[i].fixable,
        range.start.line < violations[i].line <= range.end.line + 1,
        quick_fixes(rules, path, config, source, range, violations, n)[k].diagnostics == seq![
            diagnostic_of(violations[i], source),
        ],
    decreases n,
{
    let prior = quick_fixes(rules, path, config, source, range, violations, n - 1);
    if k < prior.len() {
        law_only_fixable_violations_are_offered(
            rules,
            path,
            config,
            source,
            range,
            violations,
            n - 1,
            k,
        )
    } else {
        assert(1 <= violations[n - 1].line <= u32::MAX);
        assert(quick_fix(rules, path, config, source, range, violations[n - 1]) is Some);
        n - 1
    }
}

/// Where no kinds are named, every fix of a violation is offered and then the fix of all.
pub proof fn law_all_kinds_are_offered<R: Rule>(
    request: ActionRequest<'_>,
    violations: Seq<ViolationView>,
    rules: Seq<R>,
    config: Config,
)
    requires
        request.only is None,
    ensures
        offers(request, violations, rules, config) == quick_fixes(
            rules,
            request.path@,
            config,
            request.source@,
            request.range,
            violations,
            violations.len() as int,
        ) + fix_all(rules, request.path@, config, request.source@),
{
}

/// The fix of all is offered where fixing changes the document, as one edit that makes it what
/// fixing gives; else it is not.
pub proof fn law_the_fix_of_all_makes_all_fixes<R: Rule>(
    rules: Seq<R>,
    path: Seq<char>,
    config: Config,
    source: Seq<char>,
)
    requires
        breaks(source) <= u32::MAX,
        last_line_units(source) <= u32::MAX,
    ensures
        ({
            let fixed = document_fixed(rules, path, config, source, None);
            let offered = fix_all(rules, path, config, source);
            &&& fixed is None ==> offered.len() == 0
            &&& fixed is Some ==> offered.len() == 1 && offered[0].kind == ActionKind::FixAll
                && offered[0].edits.len() == 1 && patched(
                source,
                offered[0].edits[0].range,
                offered[0].edits[0].new_text,
            ) == fixed->0
        }),
{
    let fixed = document_fixed(rules, path, config, source, None);
    if fixed is Some {
        law_full_edit_replaces_all(source, fixed->0);
    }
}

/// A document is fixed as a file is: over and over up to the limit, or once for a single violation.
/// Where a rule fails or nothing changes, it is not.
pub proof fn law_documents_are_fixed_like_files<R: Rule>(
    rules: Seq<R>,
    path: Seq<char>,
    config: Config,
    source: Seq<char>,
    t: TargetView,
)
    ensures
        ({
            let all = all_passes(
                rules,
                path,
                ModeView { ignore_noqa: false, target: None },
                config,
                source,
                MAX_FIX_PASSES as nat,
            );
            let one = one_pass(
                rules,
                path,
                ModeView { ignore_noqa: false, target: Some(t) },
                config,
                source,
                rules.len() as int,
            );
            &&& document_fixed(rules, path, config, source, None) == if all.error is None
                && all.changed {
                Some(all.text)
            } else {
                None
            }
            &&& document_fixed(rules, path, config, source, Some(t)) == if one.error is None
                && one.changed {
                Some(one.text)
            } else {
                None
            }
        }),
{
    reveal_with_fuel(all_passes, 2);
}

/// A rule is named by the first rule that has the code.
pub proof fn law_rules_are_named_by_code<R: Rule>(rules: Seq<R>, code: Seq<char>, k: int)
    requires
        0 <= k < rules.len(),
        rules[k].code_of() == code,
        forall|i: int| 0 <= i < k ==> (#[trigger] rules[i]).code_of() != code,
    ensures
        name_for(rules, code) == rules[k].name_of(),
{
    lemma_first_with_code(rules, code, k);
}

proof fn lemma_first_with_code<R: Rule>(rules: Seq<R>, code: Seq<char>, k: int)
    requires
        0 <= k < rules.len(),
        rules[k].code_of() == code,
        forall|i: int| 0 <= i < k ==> (#[trigger] rules[i]).code_of() != code,
    ensures
        crate::lsp_actions::first_with_code(rules, code) == Some(k),
    decreases rules.len(),
{
    let rest = rules.drop_last();
    if k < rest.len() {
        assert(rest[k] == rules[k]);
        assert forall|i: int| 0 <= i < k implies (#[trigger] rest[i]).code_of() != code by {
            assert(rest[i] == rules[i]);
        }
        lemma_first_with_code(rest, code, k);
    } else {
        assert forall|i: int| 0 <= i < rest.len() implies (#[trigger] rest[i]).code_of() != code by {
            assert(rest[i] == rules[i]);
        }
        lemma_none_with_code(rest, code);
    }
}

proof fn lemma_none_with_code<R: Rule>(rules: Seq<R>, code: Seq<char>)
    requires
        forall|i: int| 0 <= i < rules.len() ==> (#[trigger] rules[i]).code_of() != code,
    ensures
        crate::lsp_actions::first_with_code(rules, code) is None,
    decreases rules.len(),
{
    if rules.len() > 0 {
        let rest = rules.drop_last();
        assert(rules[rules.len() - 1].code_of() != code);
        assert forall|i: int| 0 <= i < rest.len() implies (#[trigger] rest[i]).code_of() != code by {
            assert(rest[i] == rules[i]);
        }
        lemma_none_with_code(rest, code);
    }
}

// ---------------------------------------------------------------------------
// Documents
// ---------------------------------------------------------------------------

/// Changes are made one after another; one without a range replaces the whole text.
pub proof fn law_changes_are_made_in_turn(s: Seq<char>, a: Seq<Change>, b: Seq<Change>)
    ensures
        all_changed(s, a + b, (a.len() + b.len()) as int) == all_changed(
            all_changed(s, a, a.len() as int),
            b,
            b.len() as int,
        ),
        b.len() == 1 && b[0].range is None ==> all_changed(s, b, 1) == b[0].text@,
{
    lemma_changes(s, a, b, b.len() as int);
    reveal_with_fuel(all_changed, 2);
}

proof fn lemma_changes(s: Seq<char>, a: Seq<Change>, b: Seq<Change>, n: int)
    requires
        0 <= n <= b.len(),
    ensures
        all_changed(s, a + b, a.len() + n) == all_changed(
            all_changed(s, a, a.len() as int),
            b,
            n,
        ),
    decreases n,
{
    if n == 0 {
        lemma_front(s, a, b, a.len() as int);
    } else {
        lemma_changes(s, a, b, n - 1);
        assert((a + b)[a.len() + n - 1] == b[n - 1]);
    }
}

proof fn lemma_front(s: Seq<char>, a: Seq<Change>, b: Seq<Change>, n: int)
    requires
        0 <= n <= a.len(),
    ensures
        all_changed(s, a + b, n) == all_changed(s, a, n),
    decreases n,
{
    if n > 0 {
        lemma_front(s, a, b, n - 1);
        assert((a + b)[n - 1] == a[n - 1]);
    }
}

/// Opening, changing or closing a document leaves all others as they are.
pub proof fn law_other_documents_stay(
    v: Seq<(Seq<char>, DocumentView)>,
    uri: Seq<char>,
    d: DocumentView,
    other: Seq<char>,
)
    requires
        uri != other,
    ensures
        document_at(with_document(v, uri, d), other) == document_at(v, other),
        document_at(without_document(v, uri), other) == document_at(v, other),
{
    lemma_with_stays(v, uri, d, other);
    lemma_without_stays(v, uri, other);
}

proof fn lemma_place(v: Seq<(Seq<char>, DocumentView)>, uri: Seq<char>)
    ensures
        0 <= place_of(v, uri) <= v.len(),
    decreases v.len(),
{
    if v.len() > 0 && v[0].0 != uri {
        lemma_place(v.skip(1), uri);
    }
}

proof fn lemma_with_stays(
    v: Seq<(Seq<char>, DocumentView)>,
    uri: Seq<char>,
    d: DocumentView,
    other: Seq<char>,
)
    requires
        uri != other,
    ensures
        document_at(with_document(v, uri, d), other) == document_at(v, other),
    decreases v.len(),
{
    let r = with_document(v, uri, d);
    if v.len() == 0 {
        assert(r =~= seq![(uri, d)]);
        assert(r.skip(1) =~= Seq::empty());
        reveal_with_fuel(place_of, 2);
    } else {
        let rest = v.skip(1);
        lemma_place(rest, other);
        lemma_place(rest, uri);
        if v[0].0 == uri {
            assert(r.skip(1) =~= rest);
            assert(r[0].0 == uri);
            if place_of(rest, other) < rest.len() {
                assert(rest[place_of(rest, other)] == v[place_of(rest, other) + 1]);
                assert(r[place_of(rest, other) + 1] == v[place_of(rest, other) + 1]);
            }
        } else {
            lemma_with_stays(rest, uri, d, other);
            let s = with_document(rest, uri, d);
            lemma_place(s, other);
            assert(r.skip(1) =~= s) by {
                if place_of(rest, uri) < rest.len() {
                    assert(place_of(v, uri) == place_of(rest, uri) + 1);
                }
            }
            assert(r[0] == v[0]);
            if v[0].0 != other {
                if place_of(s, other) < s.len() {
                    assert(s[place_of(s, other)] == r[place_of(s, other) + 1]);
                }
                if place_of(rest, other) < rest.len() {
                    assert(rest[place_of(rest, other)] == v[place_of(rest, other) + 1]);
                }
            }
        }
    }
}

proof fn lemma_placed_in(a: Seq<(Seq<char>, DocumentView)>, x: (Seq<char>, DocumentView), uri: Seq<char>)
    ensures
        place_of(a, uri) < a.len() ==> document_at(a.push(x), uri) == document_at(a, uri),
        place_of(a, uri) >= a.len() && x.0 == uri ==> document_at(a.push(x), uri) == Some(x.1),
        place_of(a, uri) >= a.len() && x.0 != uri ==> document_at(a.push(x), uri) is None,
    decreases a.len(),
{
    let r = a.push(x);
    if a.len() == 0 {
        assert(r.skip(1) =~= Seq::empty());
        reveal_with_fuel(place_of, 2);
        assert(r[0] == x);
    } else if a[0].0 != uri {
        let rest = a.skip(1);
        lemma_placed_in(rest, x, uri);
        lemma_place(rest, uri);
        assert(r.skip(1) =~= rest.push(x));
        lemma_place(rest.push(x), uri);
        assert(r[0] == a[0]);
        let k = place_of(rest.push(x), uri);
        if k < rest.len() + 1 {
            assert(rest.push(x)[k] == r[k + 1]);
        }
        if place_of(rest, uri) < rest.len() {
            assert(rest[place_of(rest, uri)] == a[place_of(rest, uri) + 1]);
        }
    }
}

proof fn lemma_without_stays(
    v: Seq<(Seq<char>, DocumentView)>,
    uri: Seq<char>,
    other: Seq<char>,
)
    requires
        uri != other,
    ensures
        document_at(without_document(v, uri), other) == document_at(v, other),
    decreases v.len(),
{
    if v.len() > 0 {
        let front = v.drop_last();
        lemma_without_stays(front, uri, other);
        lemma_placed_in(front, v.last(), other);
        assert(v =~= front.push(v.last()));
        lemma_placed_in(without_document(front, uri), v.last(), other);
    }
}

/// The settings are the first answer where that is an object; another answer gives none.
pub proof fn law_the_first_answer_counts(v: Seq<JsonView>, rest: Seq<JsonView>)
    ensures
        v.len() > 0 && v[0] is Object ==> settings_answered(JsonView::List(v + rest)) == Some(v[0]),
        v.len() > 0 && !(v[0] is Object) ==> settings_answered(JsonView::List(v + rest)) is None,
        settings_answered(JsonView::List(Seq::empty())) is None,
        settings_answered(JsonView::Null) is None,
{
}

} // verus!
