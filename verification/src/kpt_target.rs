//! Fixing one violation of a user-defined pattern and nothing else.
use crate::edit::{char_index, find_index};
use crate::kpt::{
    any_replacement, countable, find_position, find_widest, is_quiet, pattern_views, sources,
    widest, CompiledPattern, FileInput, KptQuery, PatternView,
};
use crate::kpt_fix::{lemma_no_line_found, replace_each, replaced_by};
use crate::matching::{
    is_span, regex_all, regex_expand, regex_expanded, regex_find_all, regex_source, spans_of,
};
use crate::split::{drop_cr, join, join_spec, lines_spec, split, split_spec, str_lines};
use crate::text::{chars, eq, index_of, lemma_index_of, part, push_all, string, strs};
use crate::types::{FixTarget, TargetView};
use regex::Regex;
use vstd::prelude::*;
use vstd::string::*;

verus! {

/// The text of a line: without the carriage return before its newline.
pub open spec fn line_body(pieces: Seq<Seq<char>>, i: int) -> Seq<char> {
    if i < pieces.len() - 1 {
        drop_cr(pieces[i])
    } else {
        pieces[i]
    }
}

/// The lines of a text with what a pattern finds in one of them replaced. A carriage return before
/// a newline stays.
pub open spec fn with_line_replaced(
    pieces: Seq<Seq<char>>,
    i: int,
    regexes: Seq<Seq<char>>,
    replacement: Seq<char>,
) -> Seq<Seq<char>> {
    let body = line_body(pieces, i);
    pieces.update(
        i,
        replaced_by(regexes, body, replacement) + pieces[i].skip(body.len() as int),
    )
}

/// The place of the first of several matches that starts where the target is.
pub open spec fn match_at(
    f: FileInput,
    matches: Seq<(int, int)>,
    t: TargetView,
    n: int,
) -> Option<int>
    decreases n,
{
    if n <= 0 {
        None
    } else {
        match match_at(f, matches, t, n - 1) {
            Some(i) => Some(i),
            None => {
                let m = matches[n - 1];
                if f.line_at(m.0) == t.line && f.col_at(m.0) == t.col {
                    Some(n - 1)
                } else {
                    None
                }
            },
        }
    }
}

/// The text with a match of a regular expression at the target replaced.
pub open spec fn match_replaced(
    f: FileInput,
    regex: Seq<char>,
    replacement: Seq<char>,
    t: TargetView,
) -> Option<Seq<char>> {
    let matches = regex_find_all(regex, f.source);
    match match_at(f, matches, t, matches.len() as int) {
        Some(i) => {
            let m = matches[i];
            match regex_expanded(regex, f.source, m.0, replacement) {
                Some(new) => Some(
                    f.source.take(char_index(f.source, m.0)->0) + new + f.source.skip(
                        char_index(f.source, m.1)->0,
                    ),
                ),
                None => None,
            }
        },
        None => None,
    }
}

/// The text with the match at the target replaced, for the first regular expression with one.
pub open spec fn text_replaced(
    f: FileInput,
    regexes: Seq<Seq<char>>,
    replacement: Seq<char>,
    t: TargetView,
) -> Option<Seq<char>>
    decreases regexes.len(),
{
    if regexes.len() == 0 {
        None
    } else {
        match text_replaced(f, regexes.drop_last(), replacement, t) {
            Some(text) => Some(text),
            None => match_replaced(f, regexes.last(), replacement, t),
        }
    }
}

/// The text with the line of the target replaced, where the pattern finds something at the target.
pub open spec fn line_fixed(
    f: FileInput,
    regexes: Seq<Seq<char>>,
    replacement: Seq<char>,
    t: TargetView,
) -> Option<Seq<char>> {
    let pieces = split_spec(f.source, '\n');
    if 1 <= t.line <= lines_spec(f.source).len() {
        match widest(regexes, line_body(pieces, t.line - 1)) {
            Some(m) => if m.0 == t.col {
                Some(
                    join_spec(
                        with_line_replaced(pieces, t.line - 1, regexes, replacement),
                        "\n"@,
                    ),
                )
            } else {
                None
            },
            None => None,
        }
    } else {
        None
    }
}

/// The text with what a pattern finds at the target replaced; what a `# noqa` suppresses stays.
pub open spec fn pattern_fixed(f: FileInput, p: PatternView, t: TargetView) -> Option<Seq<char>> {
    match p.replacement {
        Some(replacement) => if p.id != t.rule || !p.applies(f) || f.quiet(t.line - 1, p.id) {
            None
        } else if p.multiline {
            text_replaced(f, p.regexes, replacement, t)
        } else {
            line_fixed(f, p.regexes, replacement, t)
        },
        None => None,
    }
}

/// The text with what the first pattern finds at the target replaced; the text as it is where no
/// pattern finds anything there.
pub open spec fn target_fixed(f: FileInput, patterns: Seq<PatternView>, t: TargetView) -> Seq<char>
    decreases patterns.len(),
{
    if patterns.len() == 0 {
        f.source
    } else {
        match pattern_fixed(f, patterns[0], t) {
            Some(text) => text,
            None => target_fixed(f, patterns.skip(1), t),
        }
    }
}

/// What fixing the target makes of a file: nothing where its lines cannot be counted.
pub open spec fn target_result(
    f: FileInput,
    patterns: Seq<PatternView>,
    t: TargetView,
) -> Seq<char> {
    if countable(f.source) {
        target_fixed(f, patterns, t)
    } else {
        f.source
    }
}

/// The place of the match at the target.
fn find_match(
    q: &KptQuery<'_>,
    text: &Vec<char>,
    found: &Vec<(usize, usize)>,
    target: &FixTarget,
) -> (r: Option<usize>)
    requires
        text@ == q.source@,
        countable(text@),
        forall|j: int| 0 <= j < found@.len() ==> is_span(q.source@, #[trigger] spans_of(found@)[j]),
    ensures
        match r {
            Some(i) => i < found@.len() && match_at(
                q.input(),
                spans_of(found@),
                target@,
                found@.len() as int,
            ) == Some(i as int),
            None => match_at(
                q.input(),
                spans_of(found@),
                target@,
                found@.len() as int,
            ) is None,
        },
{
    let ghost f = q.input();
    let ghost all = spans_of(found@);
    let mut i: usize = 0;
    while i < found.len()
        invariant
            i <= found@.len(),
            text@ == q.source@,
            countable(text@),
            f == q.input(),
            all == spans_of(found@),
            forall|j: int|
                0 <= j < found@.len() ==> is_span(q.source@, #[trigger] spans_of(found@)[j]),
            match_at(f, all, target@, i as int) is None,
        decreases found@.len() - i,
    {
        let m = found[i];
        assert(all[i as int] == (m.0 as int, m.1 as int));
        assert(is_span(q.source@, spans_of(found@)[i as int]));
        let (line, col) = find_position(text.as_slice(), m.0);
        if line == target.line && col == target.col {
            proof {
                lemma_match_at(f, all, target@, i + 1, found@.len() as int);
            }
            return Some(i);
        }
        i += 1;
    }
    None
}

proof fn lemma_match_at(f: FileInput, matches: Seq<(int, int)>, t: TargetView, i: int, n: int)
    requires
        0 <= i <= n,
        match_at(f, matches, t, i) is Some,
    ensures
        match_at(f, matches, t, n) == match_at(f, matches, t, i),
    decreases n,
{
    if i < n {
        lemma_match_at(f, matches, t, i, n - 1);
    }
}

/// The text with a match of a regular expression at the target replaced.
fn replace_match(
    q: &KptQuery<'_>,
    text: &Vec<char>,
    regex: &Regex,
    replacement: &str,
    target: &FixTarget,
) -> (r: Option<String>)
    requires
        text@ == q.source@,
        countable(text@),
    ensures
        crate::types::opt(r) == match_replaced(
            q.input(),
            regex_source(*regex),
            replacement@,
            target@,
        ),
{
    let found = regex_all(regex, q.source);
    let ghost matches = spans_of(found@);
    assert(matches.len() == found@.len());
    let i: usize = match find_match(q, text, &found, target) {
        Some(i) => i,
        None => return None,
    };
    let m = found[i];
    assert(matches[i as int] == (m.0 as int, m.1 as int));
    assert(is_span(q.source@, spans_of(found@)[i as int]));
    let new = match regex_expand(regex, q.source, m.0, replacement) {
        Some(new) => new,
        None => return None,
    };
    let (a, b) = match (find_index(text.as_slice(), m.0), find_index(text.as_slice(), m.1)) {
        (Some(a), Some(b)) => (a, b),
        _ => return None,
    };
    let new_chars = chars(new.as_str());
    let mut out: Vec<char> = Vec::new();
    push_all(&mut out, part(text.as_slice(), 0, a));
    push_all(&mut out, new_chars.as_slice());
    push_all(&mut out, part(text.as_slice(), b, text.len()));
    assert(text@.subrange(0, a as int) =~= text@.take(a as int));
    assert(text@.subrange(b as int, text@.len() as int) =~= text@.skip(b as int));
    assert(out@ =~= q.source@.take(a as int) + new@ + q.source@.skip(b as int));
    Some(string(out.as_slice()))
}

/// The text with the match at the target replaced, for the first regular expression with one.
fn replace_in_text(
    q: &KptQuery<'_>,
    text: &Vec<char>,
    regexes: &Vec<Regex>,
    replacement: &str,
    target: &FixTarget,
) -> (r: Option<String>)
    requires
        text@ == q.source@,
        countable(text@),
    ensures
        crate::types::opt(r) == text_replaced(
            q.input(),
            sources(regexes@),
            replacement@,
            target@,
        ),
{
    let ghost all = sources(regexes@);
    let mut i: usize = 0;
    assert(all.take(0) =~= Seq::empty());
    while i < regexes.len()
        invariant
            i <= regexes@.len(),
            text@ == q.source@,
            countable(text@),
            all == sources(regexes@),
            text_replaced(q.input(), all.take(i as int), replacement@, target@) is None,
        decreases regexes@.len() - i,
    {
        assert(all.take(i + 1).drop_last() =~= all.take(i as int));
        assert(all.take(i + 1).last() == regex_source(regexes@[i as int]));
        match replace_match(q, text, &regexes[i], replacement, target) {
            Some(new) => {
                proof {
                    lemma_text_replaced(q.input(), all, replacement@, target@, i + 1);
                }
                return Some(new);
            },
            None => {},
        }
        i += 1;
    }
    assert(all.take(all.len() as int) =~= all);
    None
}

proof fn lemma_text_replaced(
    f: FileInput,
    regexes: Seq<Seq<char>>,
    replacement: Seq<char>,
    t: TargetView,
    n: int,
)
    requires
        0 <= n <= regexes.len(),
        text_replaced(f, regexes.take(n), replacement, t) is Some,
    ensures
        text_replaced(f, regexes, replacement, t) == text_replaced(
            f,
            regexes.take(n),
            replacement,
            t,
        ),
    decreases regexes.len() - n,
{
    if n == regexes.len() {
        assert(regexes.take(n) =~= regexes);
    } else {
        assert(regexes.take(n + 1).drop_last() =~= regexes.take(n));
        lemma_text_replaced(f, regexes, replacement, t, n + 1);
    }
}

/// The text with the line of the target replaced.
fn replace_line(
    q: &KptQuery<'_>,
    text: &Vec<char>,
    regexes: &Vec<Regex>,
    replacement: &str,
    target: &FixTarget,
) -> (r: Option<String>)
    requires
        text@ == q.source@,
    ensures
        crate::types::opt(r) == line_fixed(q.input(), sources(regexes@), replacement@, target@),
{
    let mut pieces = split(text.as_slice(), '\n');
    let ghost all = split_spec(q.source@, '\n');
    assert(strs(pieces@).len() == pieces@.len());
    proof {
        lemma_lines_are_pieces(q.source@);
    }
    if target.line < 1 || target.line > pieces.len() {
        return None;
    }
    assert(strs(pieces@)[pieces@.len() - 1] == pieces@[pieces@.len() - 1]@);
    if target.line == pieces.len() && eq(pieces[pieces.len() - 1].as_str(), "") {
        proof {
            reveal_strlit("");
        }
        return None;
    }
    proof {
        reveal_strlit("");
        if all.last().len() == 0 {
            assert(all.last() =~= ""@);
        }
    }
    let at: usize = target.line - 1;
    assert(strs(pieces@)[at as int] == pieces@[at as int]@);
    let line = chars(pieces[at].as_str());
    let end: usize = if target.line < pieces.len() && line.len() > 0 && line[line.len() - 1]
        == '\r' {
        line.len() - 1
    } else {
        line.len()
    };
    let ghost body = line_body(all, at as int);
    assert(line@.subrange(0, end as int) =~= body);
    assert(line@.subrange(end as int, line@.len() as int) =~= line@.skip(body.len() as int));
    let content = string(part(line.as_slice(), 0, end));
    match find_widest(regexes, content.as_str()) {
        Some(m) => {
            if m.0 != target.col {
                return None;
            }
        },
        None => return None,
    }
    let mut new = replace_each(regexes, content.as_str(), replacement);
    new.append(string(part(line.as_slice(), end, line.len())).as_str());
    let ghost prior = pieces@;
    pieces.set(at, new);
    assert(strs(pieces@) =~= all.update(at as int, new@));
    Some(join(&pieces, "\n"))
}

/// Fixes one violation of a pattern; `None` where that changes nothing.
pub fn fix_target(
    q: &KptQuery<'_>,
    patterns: &Vec<CompiledPattern>,
    target: &FixTarget,
) -> (r: Option<String>)
    ensures
        match r {
            Some(text) => text@ == target_result(q.input(), pattern_views(patterns@), target@)
                && text@ != q.source@,
            None => target_result(q.input(), pattern_views(patterns@), target@) == q.source@,
        },
{
    let ghost all = pattern_views(patterns@);
    let ghost f = q.input();
    let text = chars(q.source);
    if text.len() == usize::MAX {
        return None;
    }
    let source_lines = str_lines(q.source);
    let mut i: usize = 0;
    assert(all.skip(0) =~= all);
    while i < patterns.len()
        invariant
            i <= patterns@.len(),
            all == pattern_views(patterns@),
            f == q.input(),
            text@ == q.source@,
            countable(text@),
            strs(source_lines@) == lines_spec(q.source@),
            target_fixed(f, all, target@) == target_fixed(f, all.skip(i as int), target@),
        decreases patterns@.len() - i,
    {
        let p = &patterns[i];
        assert(all.skip(i as int)[0] == p@);
        assert(all.skip(i as int).skip(1) =~= all.skip(i + 1));
        let quiet = target.line > 0 && is_quiet(q, &source_lines, target.line - 1, p.id.as_str());
        let fixed = match &p.replacement {
            Some(replacement) => {
                if quiet || !eq(p.id.as_str(), target.rule.as_str()) || !p.matches_file(
                    q.path,
                    q.config_dir,
                    q.cwd,
                ) {
                    None
                } else if p.multiline {
                    replace_in_text(q, &text, &p.regexes, replacement.as_str(), target)
                } else {
                    replace_line(q, &text, &p.regexes, replacement.as_str(), target)
                }
            },
            None => None,
        };
        match fixed {
            Some(new) => {
                return if eq(new.as_str(), q.source) {
                    None
                } else {
                    Some(new)
                };
            },
            None => {},
        }
        i += 1;
    }
    assert(all.skip(all.len() as int) =~= Seq::empty());
    None
}

/// Where a line is replaced, all other lines stay as they are.
pub proof fn law_other_lines_stay(
    pieces: Seq<Seq<char>>,
    i: int,
    regexes: Seq<Seq<char>>,
    replacement: Seq<char>,
    j: int,
)
    requires
        0 <= i < pieces.len(),
        0 <= j < pieces.len(),
        i != j,
    ensures
        with_line_replaced(pieces, i, regexes, replacement).len() == pieces.len(),
        with_line_replaced(pieces, i, regexes, replacement)[j] == pieces[j],
{
}

/// The lines of a text are what stands between its newlines, each without the carriage return
/// before its newline; nothing behind the last newline is no line.
pub proof fn lemma_lines_are_pieces(s: Seq<char>)
    ensures
        ({
            let pieces = split_spec(s, '\n');
            let lines = lines_spec(s);
            &&& pieces.len() >= 1
            &&& lines.len() == if pieces.last().len() == 0 {
                pieces.len() - 1
            } else {
                pieces.len() as int
            }
            &&& forall|i: int| 0 <= i < lines.len() ==> #[trigger] lines[i] == line_body(pieces, i)
        }),
    decreases s.len(),
{
    let k = index_of(s, '\n');
    lemma_index_of(s, '\n');
    let pieces = split_spec(s, '\n');
    let lines = lines_spec(s);
    if k < s.len() {
        let rest = s.skip(k + 1);
        lemma_lines_are_pieces(rest);
        let others = split_spec(rest, '\n');
        assert(pieces.last() == others.last());
        assert forall|i: int| 0 <= i < lines.len() implies #[trigger] lines[i] == line_body(
            pieces,
            i,
        ) by {
            if i > 0 {
                assert(lines[i] == lines_spec(rest)[i - 1]);
                assert(pieces[i] == others[i - 1]);
            }
        }
    }
}

proof fn lemma_no_match_at(
    f: FileInput,
    p: PatternView,
    matches: Seq<(int, int)>,
    t: TargetView,
    n: int,
)
    requires
        f.in_matches(p, matches, n).len() == 0,
        !f.quiet(t.line - 1, p.id),
    ensures
        match_at(f, matches, t, n) is None,
    decreases n,
{
    if n > 0 {
        lemma_no_match_at(f, p, matches, t, n - 1);
    }
}

proof fn lemma_no_text_replaced(
    f: FileInput,
    p: PatternView,
    replacement: Seq<char>,
    t: TargetView,
    n: int,
)
    requires
        0 <= n <= p.regexes.len(),
        f.in_text(p, n).len() == 0,
        !f.quiet(t.line - 1, p.id),
    ensures
        text_replaced(f, p.regexes.take(n), replacement, t) is None,
    decreases n,
{
    if n > 0 {
        let matches = regex_find_all(p.regexes[n - 1], f.source);
        assert(f.in_text(p, n).len() == f.in_text(p, n - 1).len() + f.in_matches(
            p,
            matches,
            matches.len() as int,
        ).len());
        lemma_no_text_replaced(f, p, replacement, t, n - 1);
        lemma_no_match_at(f, p, matches, t, matches.len() as int);
        assert(p.regexes.take(n).drop_last() =~= p.regexes.take(n - 1));
    }
}

/// Where nothing is found, nothing is fixed, wherever a fix is aimed.
pub proof fn law_without_findings_no_target_is_fixed(
    f: FileInput,
    patterns: Seq<PatternView>,
    t: TargetView,
)
    requires
        f.all_findings(patterns).len() == 0,
    ensures
        target_result(f, patterns, t) == f.source,
    decreases patterns.len(),
{
    if patterns.len() > 0 {
        let p = patterns[0];
        lemma_first_findings(f, patterns);
        if pattern_fixed(f, p, t) is Some {
            let replacement = p.replacement->0;
            if p.multiline {
                assert(p.regexes.take(p.regexes.len() as int) =~= p.regexes);
                lemma_no_text_replaced(f, p, replacement, t, p.regexes.len() as int);
            } else {
                lemma_lines_are_pieces(f.source);
                lemma_no_line_found(f, p, lines_spec(f.source).len() as int, t.line - 1);
            }
        }
        law_without_findings_no_target_is_fixed(f, patterns.skip(1), t);
    }
}

/// The findings of several patterns begin with those of the first.
proof fn lemma_first_findings(f: FileInput, patterns: Seq<PatternView>)
    requires
        patterns.len() > 0,
    ensures
        f.all_findings(patterns).len() == f.findings(patterns[0]).len() + f.all_findings(
            patterns.skip(1),
        ).len(),
    decreases patterns.len(),
{
    let rest = patterns.drop_last();
    if rest.len() > 0 {
        lemma_first_findings(f, rest);
        assert(patterns.skip(1).drop_last() =~= rest.skip(1));
        assert(patterns.skip(1).last() == patterns.last());
    } else {
        assert(f.all_findings(rest) =~= Seq::empty());
        assert(f.all_findings(patterns.skip(1)) =~= Seq::empty());
    }
}

/// Patterns without a replacement fix no target.
pub proof fn law_without_replacement_no_target_is_fixed(
    f: FileInput,
    patterns: Seq<PatternView>,
    t: TargetView,
)
    requires
        !any_replacement(patterns),
    ensures
        target_result(f, patterns, t) == f.source,
{
    lemma_nothing_to_replace(f, patterns, t);
}

proof fn lemma_nothing_to_replace(f: FileInput, patterns: Seq<PatternView>, t: TargetView)
    requires
        !any_replacement(patterns),
    ensures
        target_fixed(f, patterns, t) == f.source,
    decreases patterns.len(),
{
    if patterns.len() > 0 {
        let rest = patterns.skip(1);
        assert(patterns[0].replacement is None);
        assert forall|i: int| 0 <= i < rest.len() implies (#[trigger] rest[i]).replacement is None by {
            assert(patterns[i + 1].replacement is None);
        }
        lemma_nothing_to_replace(f, rest, t);
    }
}

} // verus!
