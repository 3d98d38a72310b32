//! Where patterns come from, what is read of them, and what one of them fixes at a place.
use crate::edit::char_index;
use crate::json::{member_of, JsonView};
use crate::kpt::{
    all_notes, compile_notes, compiled_subs, compiling, dotted, glob_notes, readable, regex_notes,
    resolved, widest, FileInput, PatternSources, PatternView, RawPattern, RawSubRule, SubRuleView,
};
use crate::kpt_fix::replaced_by;
use crate::kpt_read::{
    all_patterns_in, all_scalars, file_patterns, inline_patterns, pattern_in, scalar_of,
    sub_rule_in, sub_rules_in,
};
use crate::kpt_target::{
    lemma_lines_are_pieces, line_fixed, match_at, pattern_fixed, target_fixed, text_replaced,
    with_line_replaced,
};
use crate::matching::{glob_error, regex_error, regex_expanded, regex_find_all};
use crate::paths::joined;
use crate::split::{join_spec, lines_spec, split_spec};
use crate::text::strs;
use crate::types::{opt, TargetView};
use vstd::prelude::*;

verus! {

// ---------------------------------------------------------------------------
// Where patterns come from
// ---------------------------------------------------------------------------

/// The patterns that can be read are kept one by one, in order.
pub proof fn law_readable_patterns_are_kept(
    a: Seq<Option<RawPattern>>,
    b: Seq<Option<RawPattern>>,
    p: RawPattern,
)
    ensures
        readable(a + b) == readable(a) + readable(b),
        readable(seq![Some(p)]) == seq![p],
        readable(seq![None]).len() == 0,
    decreases b.len(),
{
    let all = a + b;
    let one = seq![Some(p)];
    assert(one.drop_last() =~= Seq::empty());
    assert(readable(one.drop_last()) =~= Seq::empty());
    assert(one.last() == Some(p));
    assert(readable(one) =~= seq![p]);
    let none = seq![None::<RawPattern>];
    assert(none.drop_last() =~= Seq::empty());
    assert(readable(none.drop_last()) =~= Seq::empty());
    assert(none.last() is None);
    if b.len() == 0 {
        assert(all =~= a);
        assert(readable(a) + readable(b) =~= readable(a));
    } else {
        let rest = b.drop_last();
        law_readable_patterns_are_kept(a, rest, p);
        assert(all.drop_last() =~= a + rest);
        assert(all.last() == b.last());
        if b.last() is Some {
            assert((readable(a) + readable(rest)).push(b.last()->0) =~= readable(a) + readable(
                rest,
            ).push(b.last()->0));
        }
    }
}

/// The patterns of the configuration count where it has any; else those of the file that it names,
/// or else of the TOML file, or else of the YAML file, as far as they could be read.
pub proof fn law_patterns_come_from_the_first_source(s: PatternSources)
    ensures
        s.inline is Some && s.inline->0@.len() > 0 ==> s.chosen() == readable(s.inline->0@),
        s.inline is None && s.rules_file is Some ==> s.chosen() == s.rules_file->0@,
        s.inline is None && s.rules_file is None && s.toml_file is Some ==> s.chosen()
            == s.toml_file->0@,
        s.inline is None && s.rules_file is None && s.toml_file is None && s.yaml_file is Some
            ==> s.chosen() == s.yaml_file->0@,
        s.inline is None && s.rules_file is None && s.toml_file is None && s.yaml_file is None
            ==> s.chosen().len() == 0,
        s.inline is Some && s.inline->0@.len() == 0 ==> s.chosen() == (PatternSources {
            inline: None,
            ..s
        }).chosen(),
{
}

/// The file that the configuration names is taken from the directory of the configuration.
pub proof fn law_named_files_are_taken_from_the_configuration(path: Seq<char>, dir: Seq<char>)
    ensures
        resolved(path, Some(dir)) == joined(dir, path),
        resolved(path, None) == path,
{
}

// ---------------------------------------------------------------------------
// What is read of them
// ---------------------------------------------------------------------------

/// A text is a text in both languages; a number, a truth value or nothing is one in YAML alone.
pub proof fn law_texts_are_texts(t: Seq<char>, yaml: bool, v: Seq<JsonView>)
    ensures
        scalar_of(JsonView::Text(t), yaml) == Some(t),
        scalar_of(JsonView::Number(t), true) == Some(t),
        scalar_of(JsonView::Number(t), false) is None,
        scalar_of(JsonView::Bool(true), true) == Some("true"@),
        scalar_of(JsonView::Bool(false), true) == Some("false"@),
        scalar_of(JsonView::Bool(yaml), false) is None,
        scalar_of(JsonView::Null, true) is Some && scalar_of(JsonView::Null, true)->0.len() == 0,
        scalar_of(JsonView::Null, false) is None,
        scalar_of(JsonView::List(v), yaml) is None,
{
    reveal_strlit("");
}

/// A list of texts is read whole, each in its place, or not at all.
pub proof fn law_text_lists_are_read_whole(v: Seq<JsonView>, yaml: bool, i: int)
    requires
        0 <= i < v.len(),
    ensures
        all_scalars(v, yaml) is Some <==> forall|j: int|
            0 <= j < v.len() ==> scalar_of(#[trigger] v[j], yaml) is Some,
        all_scalars(v, yaml) is Some ==> all_scalars(v, yaml)->0.len() == v.len() && Some(
            all_scalars(v, yaml)->0[i],
        ) == scalar_of(v[i], yaml),
    decreases v.len(),
{
    let rest = v.drop_last();
    if rest.len() > 0 {
        law_text_lists_are_read_whole(
            rest,
            yaml,
            if i < rest.len() {
                i
            } else {
                0
            },
        );
    } else {
        assert(all_scalars(rest, yaml) is Some);
    }
    if all_scalars(v, yaml) is Some {
        assert forall|j: int| 0 <= j < v.len() implies scalar_of(#[trigger] v[j], yaml) is Some by {
            if j < rest.len() {
                assert(rest[j] == v[j]);
            }
        }
    }
    if forall|j: int| 0 <= j < v.len() ==> scalar_of(#[trigger] v[j], yaml) is Some {
        assert(scalar_of(v[v.len() - 1], yaml) is Some);
        assert forall|j: int| 0 <= j < rest.len() implies scalar_of(#[trigger] rest[j], yaml) is Some
            by {
            assert(rest[j] == v[j]);
        }
        assert(all_scalars(rest, yaml) is Some);
    }
}

/// A pattern that can be read has what its fields say: its id and its message, its regular
/// expressions whether one or several, its globs, and what may be absent.
pub proof fn law_patterns_say_what_their_fields_say(
    j: JsonView,
    yaml: bool,
    t: Seq<char>,
    v: Seq<JsonView>,
    b: bool,
)
    requires
        pattern_in(j, yaml) is Some,
    ensures
        ({
            let p = pattern_in(j, yaml)->0;
            &&& member_of(j, "id"@) == Some(JsonView::Text(t)) ==> p.id == t
            &&& member_of(j, "message"@) == Some(JsonView::Text(t)) ==> p.message == t
            &&& member_of(j, "pattern"@) == Some(JsonView::Text(t)) ==> p.pattern == seq![t]
            &&& member_of(j, "pattern"@) == Some(JsonView::List(v)) ==> Some(p.pattern)
                == crate::document::all_texts(v)
            &&& member_of(j, "files"@) == Some(JsonView::List(v)) ==> Some(p.files) == all_scalars(
                v,
                yaml,
            )
            &&& member_of(j, "files"@) is None ==> p.files.len() == 0
            &&& member_of(j, "level"@) == Some(JsonView::Text(t)) ==> p.level == Some(t)
            &&& member_of(j, "level"@) is None ==> p.level is None
            &&& member_of(j, "help"@) == Some(JsonView::Text(t)) ==> p.help == Some(t)
            &&& member_of(j, "help"@) is None ==> p.help is None
            &&& member_of(j, "replacement"@) == Some(JsonView::Text(t)) ==> p.replacement == Some(t)
            &&& member_of(j, "replacement"@) is None ==> p.replacement is None
            &&& member_of(j, "multiline"@) == Some(JsonView::Bool(b)) ==> p.multiline == Some(b)
            &&& member_of(j, "multiline"@) is None ==> p.multiline is None
            &&& member_of(j, "sub_rules"@) == Some(JsonView::List(v)) ==> Some(p.sub_rules)
                == sub_rules_in(v, yaml)
            &&& member_of(j, "sub_rules"@) is None ==> p.sub_rules.len() == 0
        }),
{
}

/// A pattern with an id, a message and a regular expression, and nothing else, can be read; without
/// one of the three it cannot.
pub proof fn law_patterns_need_three_fields(
    j: JsonView,
    yaml: bool,
    id: Seq<char>,
    message: Seq<char>,
    pattern: Seq<char>,
)
    ensures
        ({
            &&& member_of(j, "id"@) == Some(JsonView::Text(id))
            &&& member_of(j, "message"@) == Some(JsonView::Text(message))
            &&& member_of(j, "pattern"@) == Some(JsonView::Text(pattern))
            &&& member_of(j, "files"@) is None
            &&& member_of(j, "level"@) is None
            &&& member_of(j, "help"@) is None
            &&& member_of(j, "sub_rules"@) is None
            &&& member_of(j, "multiline"@) is None
            &&& member_of(j, "replacement"@) is None
        }) ==> pattern_in(j, yaml) is Some,
        member_of(j, "id"@) is None || member_of(j, "message"@) is None || member_of(
            j,
            "pattern"@,
        ) is None ==> pattern_in(j, yaml) is None,
{
}

/// A refinement has the regular expressions, the message and the help that its fields say.
pub proof fn law_refinements_say_what_their_fields_say(j: JsonView, yaml: bool, t: Seq<char>)
    ensures
        member_of(j, "message"@) is None || member_of(j, "pattern"@) is None ==> sub_rule_in(
            j,
            yaml,
        ) is None,
        sub_rule_in(j, yaml) is Some ==> ({
            let s = sub_rule_in(j, yaml)->0;
            &&& member_of(j, "message"@) == Some(JsonView::Text(t)) ==> s.message == t
            &&& member_of(j, "pattern"@) == Some(JsonView::Text(t)) ==> s.pattern == seq![t]
            &&& member_of(j, "help"@) == Some(JsonView::Text(t)) ==> s.help == Some(t)
            &&& member_of(j, "help"@) is None ==> s.help is None
        }),
{
}

/// A file of patterns is read whole, each pattern in its place, or not at all.
pub proof fn law_pattern_files_are_read_whole(v: Seq<JsonView>, yaml: bool, i: int)
    requires
        0 <= i < v.len(),
    ensures
        all_patterns_in(v, yaml) is Some <==> forall|j: int|
            0 <= j < v.len() ==> pattern_in(#[trigger] v[j], yaml) is Some,
        all_patterns_in(v, yaml) is Some ==> all_patterns_in(v, yaml)->0.len() == v.len() && Some(
            all_patterns_in(v, yaml)->0[i],
        ) == pattern_in(v[i], yaml),
    decreases v.len(),
{
    let rest = v.drop_last();
    if rest.len() > 0 {
        law_pattern_files_are_read_whole(
            rest,
            yaml,
            if i < rest.len() {
                i
            } else {
                0
            },
        );
    } else {
        assert(all_patterns_in(rest, yaml) is Some);
    }
    if all_patterns_in(v, yaml) is Some {
        assert forall|j: int| 0 <= j < v.len() implies pattern_in(#[trigger] v[j], yaml) is Some by {
            if j < rest.len() {
                assert(rest[j] == v[j]);
            }
        }
    }
    if forall|j: int| 0 <= j < v.len() ==> pattern_in(#[trigger] v[j], yaml) is Some {
        assert(pattern_in(v[v.len() - 1], yaml) is Some);
        assert forall|j: int| 0 <= j < rest.len() implies pattern_in(#[trigger] rest[j], yaml) is Some
            by {
            assert(rest[j] == v[j]);
        }
        assert(all_patterns_in(rest, yaml) is Some);
    }
}

/// The patterns of a file are its list `rules`; without one there are none.
pub proof fn law_patterns_are_the_list_of_rules(j: JsonView, yaml: bool, v: Seq<JsonView>)
    requires
        j is Object,
    ensures
        member_of(j, "rules"@) == Some(JsonView::List(v)) ==> file_patterns(j, yaml)
            == all_patterns_in(v, yaml),
        member_of(j, "rules"@) is None ==> file_patterns(j, yaml) is Some && file_patterns(
            j,
            yaml,
        )->0.len() == 0,
        file_patterns(JsonView::List(v), yaml) is None,
{
}

/// In the configuration each pattern is read on its own: one that cannot be read spoils no other.
pub proof fn law_inline_patterns_are_read_one_by_one(j: JsonView, v: Seq<JsonView>, i: int)
    requires
        member_of(j, "rules"@) == Some(JsonView::List(v)),
        0 <= i < v.len(),
    ensures
        inline_patterns(j) is Some,
        inline_patterns(j)->0.len() == v.len(),
        inline_patterns(j)->0[i] == pattern_in(v[i], false),
{
}

// ---------------------------------------------------------------------------
// One place
// ---------------------------------------------------------------------------

/// A place is fixed by the first pattern that fixes something there; patterns before it change
/// nothing.
pub proof fn law_the_first_pattern_fixes_the_place(
    f: FileInput,
    patterns: Seq<PatternView>,
    t: TargetView,
    k: int,
)
    requires
        0 <= k < patterns.len(),
        pattern_fixed(f, patterns[k], t) is Some,
        forall|i: int| 0 <= i < k ==> pattern_fixed(f, #[trigger] patterns[i], t) is None,
    ensures
        target_fixed(f, patterns, t) == pattern_fixed(f, patterns[k], t)->0,
    decreases patterns.len(),
{
    if k > 0 {
        let rest = patterns.skip(1);
        assert(pattern_fixed(f, patterns[0], t) is None);
        assert(rest[k - 1] == patterns[k]);
        assert forall|i: int| 0 <= i < k - 1 implies pattern_fixed(f, #[trigger] rest[i], t) is None
            by {
            assert(rest[i] == patterns[i + 1]);
        }
        law_the_first_pattern_fixes_the_place(f, rest, t, k - 1);
    }
}

/// A pattern fixes a place only where it is the one aimed at, has a replacement, looks at the file,
/// and is not suppressed there.
pub proof fn law_only_aimed_patterns_fix_a_place(f: FileInput, p: PatternView, t: TargetView)
    ensures
        pattern_fixed(f, p, t) is Some ==> p.id == t.rule && p.replacement is Some && p.applies(f)
            && !f.quiet(t.line - 1, p.id),
        p.replacement is Some && p.id == t.rule && p.applies(f) && !f.quiet(t.line - 1, p.id)
            && p.multiline ==> pattern_fixed(f, p, t) == text_replaced(
            f,
            p.regexes,
            p.replacement->0,
            t,
        ),
        p.replacement is Some && p.id == t.rule && p.applies(f) && !f.quiet(t.line - 1, p.id)
            && !p.multiline ==> pattern_fixed(f, p, t) == line_fixed(
            f,
            p.regexes,
            p.replacement->0,
            t,
        ),
{
}

proof fn lemma_found_at(f: FileInput, p: PatternView, n: int, k: int)
    requires
        0 <= n <= lines_spec(f.source).len(),
        0 <= k < f.in_lines(p, n).len(),
    ensures
        ({
            let v = f.in_lines(p, n)[k];
            let line = lines_spec(f.source)[v.line - 1];
            &&& 1 <= v.line <= n
            &&& widest(p.regexes, line) is Some
            &&& (widest(p.regexes, line)->0).0 == v.col
            &&& !f.quiet(v.line - 1, p.id)
        }),
    decreases n,
{
    if k < f.in_lines(p, n - 1).len() {
        lemma_found_at(f, p, n - 1, k);
    }
}

/// Where a pattern that looks at single lines reports something, fixing that place replaces the
/// line that is reported, and fixing another column of the line changes nothing.
pub proof fn law_reported_places_are_fixed(f: FileInput, p: PatternView, k: int, other: int)
    requires
        p.applies(f),
        !p.multiline,
        p.replacement is Some,
        0 <= k < f.findings(p).len(),
        other != f.findings(p)[k].col,
    ensures
        ({
            let v = f.findings(p)[k];
            let lines = split_spec(f.source, '\n');
            &&& pattern_fixed(f, p, TargetView { rule: p.id, line: v.line, col: v.col }) == Some(
                join_spec(
                    with_line_replaced(lines, v.line - 1, p.regexes, p.replacement->0),
                    "\n"@,
                ),
            )
            &&& pattern_fixed(f, p, TargetView { rule: p.id, line: v.line, col: other }) is None
        }),
{
    lemma_found_at(f, p, lines_spec(f.source).len() as int, k);
    lemma_lines_are_pieces(f.source);
}

/// The line that is replaced keeps how it ends.
pub proof fn law_replaced_lines_keep_their_end(
    lines: Seq<Seq<char>>,
    i: int,
    regexes: Seq<Seq<char>>,
    replacement: Seq<char>,
    body: Seq<char>,
)
    requires
        0 <= i < lines.len(),
        i == lines.len() - 1 ==> lines[i] == body,
        i < lines.len() - 1 ==> lines[i] == body + seq!['\r'] || lines[i] == body && (body.len() == 0
            || body.last() != '\r'),
    ensures
        with_line_replaced(lines, i, regexes, replacement)[i] == replaced_by(
            regexes,
            body,
            replacement,
        ) + lines[i].skip(body.len() as int),
{
    if i < lines.len() - 1 && lines[i] == body + seq!['\r'] {
        assert(lines[i].drop_last() =~= body);
        assert(lines[i].take(body.len() as int) =~= body);
    }
}

proof fn lemma_match_at_is(f: FileInput, matches: Seq<(int, int)>, t: TargetView, i: int, n: int)
    requires
        0 <= i < n <= matches.len(),
        f.line_at(matches[i].0) == t.line && f.col_at(matches[i].0) == t.col,
        forall|j: int|
            0 <= j < i ==> f.line_at((#[trigger] matches[j]).0) != t.line || f.col_at(matches[j].0)
                != t.col,
    ensures
        match_at(f, matches, t, n) == Some(i),
    decreases n,
{
    if i < n - 1 {
        lemma_match_at_is(f, matches, t, i, n - 1);
    } else {
        lemma_no_match(f, matches, t, n - 1);
    }
}

proof fn lemma_no_match(f: FileInput, matches: Seq<(int, int)>, t: TargetView, n: int)
    requires
        0 <= n <= matches.len(),
        forall|j: int|
            0 <= j < n ==> f.line_at((#[trigger] matches[j]).0) != t.line || f.col_at(matches[j].0)
                != t.col,
    ensures
        match_at(f, matches, t, n) is None,
    decreases n,
{
    if n > 0 {
        lemma_no_match(f, matches, t, n - 1);
        assert(f.line_at(matches[n - 1].0) != t.line || f.col_at(matches[n - 1].0) != t.col);
    }
}

/// In the whole text, the first match that starts at the place is replaced by what the replacement
/// stands for there, and all before and behind it stays; without such a match nothing is.
pub proof fn law_the_match_at_the_place_is_replaced(
    f: FileInput,
    regex: Seq<char>,
    replacement: Seq<char>,
    t: TargetView,
    i: int,
)
    requires
        ({
            let matches = regex_find_all(regex, f.source);
            &&& 0 <= i <= matches.len()
            &&& i < matches.len() ==> f.line_at(matches[i].0) == t.line && f.col_at(matches[i].0)
                == t.col
            &&& forall|j: int|
                0 <= j < i ==> f.line_at((#[trigger] matches[j]).0) != t.line || f.col_at(
                    matches[j].0,
                ) != t.col
        }),
    ensures
        ({
            let matches = regex_find_all(regex, f.source);
            let new = regex_expanded(regex, f.source, matches[i].0, replacement);
            &&& i == matches.len() ==> text_replaced(f, seq![regex], replacement, t) is None
            &&& i < matches.len() && new is Some ==> text_replaced(f, seq![regex], replacement, t)
                == Some(
                f.source.take(char_index(f.source, matches[i].0)->0) + new->0 + f.source.skip(
                    char_index(f.source, matches[i].1)->0,
                ),
            )
        }),
{
    let matches = regex_find_all(regex, f.source);
    if i < matches.len() {
        lemma_match_at_is(f, matches, t, i, matches.len() as int);
    } else {
        lemma_no_match(f, matches, t, matches.len() as int);
    }
    let one = seq![regex];
    assert(one.drop_last() =~= Seq::empty());
    assert(text_replaced(f, one.drop_last(), replacement, t) is None);
    assert(one.last() == regex);
}

/// Of several regular expressions the first with such a match replaces it.
pub proof fn law_the_first_expression_replaces(
    f: FileInput,
    a: Seq<Seq<char>>,
    b: Seq<Seq<char>>,
    replacement: Seq<char>,
    t: TargetView,
)
    ensures
        text_replaced(f, a + b, replacement, t) == match text_replaced(f, a, replacement, t) {
            Some(text) => Some(text),
            None => text_replaced(f, b, replacement, t),
        },
    decreases b.len(),
{
    let all = a + b;
    if b.len() == 0 {
        assert(all =~= a);
    } else {
        law_the_first_expression_replaces(f, a, b.drop_last(), replacement, t);
        assert(all.drop_last() =~= a + b.drop_last());
        assert(all.last() == b.last());
    }
}

// ---------------------------------------------------------------------------
// What is said of patterns
// ---------------------------------------------------------------------------

/// Every regular expression that is not valid is told of, in order, with the pattern, the expression
/// and what is wrong; no other is.
pub proof fn law_invalid_expressions_are_told(
    id: Seq<char>,
    a: Seq<Seq<char>>,
    b: Seq<Seq<char>>,
    x: Seq<char>,
    multiline: bool,
)
    ensures
        regex_notes(id, a + b, multiline) == regex_notes(id, a, multiline) + regex_notes(
            id,
            b,
            multiline,
        ),
        regex_error(dotted(x, multiline)) is Some ==> regex_notes(id, seq![x], multiline) == seq![
            "konform: skipping pattern '"@ + id + "' — invalid regex '"@ + x + "': "@ + regex_error(
                dotted(x, multiline),
            )->0,
        ],
        regex_error(dotted(x, multiline)) is None ==> regex_notes(id, seq![x], multiline).len()
            == 0,
    decreases b.len(),
{
    let all = a + b;
    let one = seq![x];
    assert(one.drop_last() =~= Seq::empty());
    assert(regex_notes(id, one.drop_last(), multiline) =~= Seq::empty());
    assert(one.last() == x);
    assert(regex_notes(id, one, multiline) =~= match regex_error(dotted(x, multiline)) {
        Some(e) => seq![
            "konform: skipping pattern '"@ + id + "' — invalid regex '"@ + x + "': "@ + e,
        ],
        None => Seq::empty(),
    });
    if b.len() == 0 {
        assert(all =~= a);
        assert(regex_notes(id, a, multiline) + regex_notes(id, b, multiline) =~= regex_notes(
            id,
            a,
            multiline,
        ));
    } else {
        let rest = b.drop_last();
        law_invalid_expressions_are_told(id, a, rest, x, multiline);
        assert(all.drop_last() =~= a + rest);
        assert(all.last() == b.last());
        assert(regex_notes(id, all, multiline) =~= regex_notes(id, a, multiline) + regex_notes(
            id,
            b,
            multiline,
        ));
    }
}

/// Every glob that is not valid is told of, in order; no other is.
pub proof fn law_invalid_globs_are_told(
    id: Seq<char>,
    a: Seq<Seq<char>>,
    b: Seq<Seq<char>>,
    x: Seq<char>,
)
    ensures
        glob_notes(id, a + b) == glob_notes(id, a) + glob_notes(id, b),
        glob_error(x) is Some ==> glob_notes(id, seq![x]) == seq![
            "konform: skipping glob '"@ + x + "' in pattern '"@ + id + "': "@ + glob_error(x)->0,
        ],
        glob_error(x) is None ==> glob_notes(id, seq![x]).len() == 0,
    decreases b.len(),
{
    let all = a + b;
    let one = seq![x];
    assert(one.drop_last() =~= Seq::empty());
    assert(glob_notes(id, one.drop_last()) =~= Seq::empty());
    assert(one.last() == x);
    assert(glob_notes(id, one) =~= match glob_error(x) {
        Some(e) => seq!["konform: skipping glob '"@ + x + "' in pattern '"@ + id + "': "@ + e],
        None => Seq::empty(),
    });
    if b.len() == 0 {
        assert(all =~= a);
        assert(glob_notes(id, a) + glob_notes(id, b) =~= glob_notes(id, a));
    } else {
        let rest = b.drop_last();
        law_invalid_globs_are_told(id, a, rest, x);
        assert(all.drop_last() =~= a + rest);
        assert(all.last() == b.last());
        assert(glob_notes(id, all) =~= glob_notes(id, a) + glob_notes(id, b));
    }
}

/// Patterns are told of one by one.
pub proof fn law_patterns_are_told_of_one_by_one(a: Seq<RawPattern>, b: Seq<RawPattern>)
    ensures
        all_notes(a + b) == all_notes(a) + all_notes(b),
    decreases b.len(),
{
    let all = a + b;
    if b.len() == 0 {
        assert(all =~= a);
        assert(all_notes(a) + all_notes(b) =~= all_notes(a));
    } else {
        let rest = b.drop_last();
        law_patterns_are_told_of_one_by_one(a, rest);
        assert(all.drop_last() =~= a + rest);
        assert(all.last() == b.last());
        assert(all_notes(a) + all_notes(rest) + compile_notes(b.last()) =~= all_notes(a) + (
        all_notes(rest) + compile_notes(b.last())));
    }
}

/// Refinements are used one by one: each with those of its expressions that are valid, unless none
/// is.
pub proof fn law_refinements_are_used_one_by_one(
    a: Seq<RawSubRule>,
    b: Seq<RawSubRule>,
    s: RawSubRule,
)
    ensures
        compiled_subs(a + b) == compiled_subs(a) + compiled_subs(b),
        compiling(strs(s.pattern@), false).len() == 0 ==> compiled_subs(seq![s]).len() == 0,
        compiling(strs(s.pattern@), false).len() > 0 ==> compiled_subs(seq![s]) == seq![
            SubRuleView {
                patterns: compiling(strs(s.pattern@), false),
                message: s.message@,
                help: opt(s.help),
            },
        ],
    decreases b.len(),
{
    let all = a + b;
    let one = seq![s];
    assert(one.drop_last() =~= Seq::empty());
    assert(compiled_subs(one.drop_last()) =~= Seq::empty());
    assert(one.last() == s);
    if compiling(strs(s.pattern@), false).len() > 0 {
        assert(compiled_subs(one) =~= seq![
            SubRuleView {
                patterns: compiling(strs(s.pattern@), false),
                message: s.message@,
                help: opt(s.help),
            },
        ]);
    }
    if b.len() == 0 {
        assert(all =~= a);
        assert(compiled_subs(a) + compiled_subs(b) =~= compiled_subs(a));
    } else {
        let rest = b.drop_last();
        law_refinements_are_used_one_by_one(a, rest, s);
        assert(all.drop_last() =~= a + rest);
        assert(all.last() == b.last());
        assert(compiled_subs(all) =~= compiled_subs(a) + compiled_subs(b));
    }
}

} // verus!
