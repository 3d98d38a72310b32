//! What user-defined patterns look at, find and replace.
use crate::edit::char_index;
use crate::kis001::level_or;
use crate::kpt::{
    all_compiled, any_match, compiled, compiling, dotted, first_sub, path_matches,
    seen_from_matches, widest, FileInput, PatternView, RawPattern, SubRuleView,
};
use crate::kpt_fix::replaced_by;
use crate::matching::{
    any_glob, glob_error, glob_match, glob_set_error, regex_error, regex_expanded, regex_find,
    regex_find_all, regex_replaced, valid_globs,
};
use crate::noqa::suppressed;
use crate::paths::{file_name_of, relative_to};
use crate::split::{drop_cr, lines_spec};
use crate::text::{lemma_index_of_is, strs};
use crate::types::{opt, Level, ViolationView};
use vstd::prelude::*;

verus! {

// ---------------------------------------------------------------------------
// Files
// ---------------------------------------------------------------------------

/// Whether a path can be seen as `seen`: as it is given, from the configuration's directory, from
/// the working directory, or by its file name.
pub open spec fn seen_as(
    path: Seq<char>,
    config_dir: Option<Seq<char>>,
    cwd: Option<Seq<char>>,
    seen: Seq<char>,
) -> bool {
    ||| seen == path
    ||| config_dir is Some && relative_to(path, config_dir->0) == Some(seen)
    ||| cwd is Some && relative_to(path, cwd->0) == Some(seen)
    ||| file_name_of(path) == Some(seen)
}

/// Whether a glob matches a path in one of the ways to see it.
pub open spec fn lets_in(
    glob: Seq<char>,
    path: Seq<char>,
    config_dir: Option<Seq<char>>,
    cwd: Option<Seq<char>>,
) -> bool {
    exists|seen: Seq<char>|
        seen_as(path, config_dir, cwd, seen) && #[trigger] glob_match(glob, seen) == Some(true)
}

/// Each glob lets files in on its own: a path matches several globs exactly where one of them
/// matches it in one of the ways to see it.
pub proof fn law_each_glob_lets_files_in(
    globs: Seq<Seq<char>>,
    path: Seq<char>,
    config_dir: Option<Seq<char>>,
    cwd: Option<Seq<char>>,
)
    ensures
        path_matches(globs, path, config_dir, cwd) <==> exists|i: int|
            0 <= i < globs.len() && lets_in(#[trigger] globs[i], path, config_dir, cwd),
{
    if path_matches(globs, path, config_dir, cwd) {
        let seen = if any_glob(globs, path) {
            path
        } else if seen_from_matches(globs, path, config_dir) {
            relative_to(path, config_dir->0)->0
        } else if seen_from_matches(globs, path, cwd) {
            relative_to(path, cwd->0)->0
        } else {
            file_name_of(path)->0
        };
        assert(any_glob(globs, seen));
        let i = choose|i: int|
            0 <= i < globs.len() && glob_match(#[trigger] globs[i], seen) == Some(true);
        assert(seen_as(path, config_dir, cwd, seen));
        assert(lets_in(globs[i], path, config_dir, cwd));
    }
    if exists|i: int| 0 <= i < globs.len() && lets_in(#[trigger] globs[i], path, config_dir, cwd) {
        let i = choose|i: int|
            0 <= i < globs.len() && lets_in(#[trigger] globs[i], path, config_dir, cwd);
        let seen = choose|seen: Seq<char>|
            seen_as(path, config_dir, cwd, seen) && #[trigger] glob_match(globs[i], seen) == Some(
                true,
            );
        assert(any_glob(globs, seen));
    }
}

/// More globs let in more files: what two lists of globs let in together is what one of them does.
pub proof fn law_globs_add_up(
    a: Seq<Seq<char>>,
    b: Seq<Seq<char>>,
    path: Seq<char>,
    config_dir: Option<Seq<char>>,
    cwd: Option<Seq<char>>,
)
    ensures
        path_matches(a + b, path, config_dir, cwd) <==> path_matches(a, path, config_dir, cwd)
            || path_matches(b, path, config_dir, cwd),
{
    let all = a + b;
    law_each_glob_lets_files_in(a, path, config_dir, cwd);
    law_each_glob_lets_files_in(b, path, config_dir, cwd);
    law_each_glob_lets_files_in(all, path, config_dir, cwd);
    if path_matches(all, path, config_dir, cwd) {
        let i = choose|i: int|
            0 <= i < all.len() && lets_in(#[trigger] all[i], path, config_dir, cwd);
        if i < a.len() {
            assert(a[i] == all[i]);
        } else {
            assert(b[i - a.len()] == all[i]);
        }
    }
    if path_matches(a, path, config_dir, cwd) {
        let i = choose|i: int| 0 <= i < a.len() && lets_in(#[trigger] a[i], path, config_dir, cwd);
        assert(all[i] == a[i]);
    }
    if path_matches(b, path, config_dir, cwd) {
        let i = choose|i: int| 0 <= i < b.len() && lets_in(#[trigger] b[i], path, config_dir, cwd);
        assert(all[i + a.len()] == b[i]);
    }
}

proof fn lemma_valid(globs: Seq<Seq<char>>, g: Seq<char>)
    ensures
        valid_globs(globs).contains(g) <==> globs.contains(g) && glob_error(g) is None,
    decreases globs.len(),
{
    if globs.len() > 0 {
        let rest = globs.drop_last();
        lemma_valid(rest, g);
        lemma_pushed(rest, globs.last(), g);
        assert(globs =~= rest.push(globs.last()));
        lemma_pushed(valid_globs(rest), globs.last(), g);
    }
}

proof fn lemma_pushed<A>(s: Seq<A>, x: A, y: A)
    ensures
        s.push(x).contains(y) <==> s.contains(y) || x == y,
{
    crate::edit::lemma_push_holds(s, x, y);
}

/// A pattern that names no files is looked for in all files. One that names some is looked for
/// exactly where one of its valid globs lets the file in, whatever its other globs say; globs that
/// cannot be made into one set limit nothing.
pub proof fn law_pattern_is_looked_for_where_its_globs_say(
    raw: RawPattern,
    level: Level,
    f: FileInput,
)
    requires
        compiled(raw, level) is Some,
    ensures
        ({
            let globs = strs(raw.files@);
            let applies = compiled(raw, level)->0.applies(f);
            if globs.len() == 0 || glob_set_error(valid_globs(globs)) is Some {
                applies
            } else {
                applies <==> exists|i: int|
                    0 <= i < globs.len() && glob_error(#[trigger] globs[i]) is None && lets_in(
                        globs[i],
                        f.path,
                        f.config_dir,
                        f.cwd,
                    )
            }
        }),
{
    let globs = strs(raw.files@);
    let p = compiled(raw, level)->0;
    let kept = valid_globs(globs);
    law_each_glob_lets_files_in(kept, f.path, f.config_dir, f.cwd);
    if !(globs.len() == 0 || glob_set_error(kept) is Some) {
        if p.applies(f) {
            let i = choose|i: int|
                0 <= i < kept.len() && lets_in(#[trigger] kept[i], f.path, f.config_dir, f.cwd);
            lemma_valid(globs, kept[i]);
            assert(kept.contains(kept[i]));
            let j = globs.index_of(kept[i]);
            assert(globs[j] == kept[i]);
        }
        if exists|i: int|
            0 <= i < globs.len() && glob_error(#[trigger] globs[i]) is None && lets_in(
                globs[i],
                f.path,
                f.config_dir,
                f.cwd,
            ) {
            let i = choose|i: int|
                0 <= i < globs.len() && glob_error(#[trigger] globs[i]) is None && lets_in(
                    globs[i],
                    f.path,
                    f.config_dir,
                    f.cwd,
                );
            lemma_valid(globs, globs[i]);
            assert(globs.contains(globs[i]));
            let j = kept.index_of(globs[i]);
            assert(kept[j] == globs[i]);
        }
    }
}

// ---------------------------------------------------------------------------
// Compiling
// ---------------------------------------------------------------------------

proof fn lemma_compiling(patterns: Seq<Seq<char>>, multiline: bool, x: Seq<char>)
    ensures
        compiling(patterns, multiline).contains(x) <==> regex_error(x) is None && exists|i: int|
            0 <= i < patterns.len() && x == if multiline {
                "(?s)"@ + #[trigger] patterns[i]
            } else {
                patterns[i]
            },
        compiling(patterns, multiline).len() <= patterns.len(),
    decreases patterns.len(),
{
    let all = compiling(patterns, multiline);
    if patterns.len() > 0 {
        let rest = patterns.drop_last();
        let last = dotted(patterns.last(), multiline);
        lemma_compiling(rest, multiline, x);
        lemma_pushed(compiling(rest, multiline), last, x);
        if compiling(rest, multiline).contains(x) {
            let i = choose|i: int|
                0 <= i < rest.len() && x == if multiline {
                    "(?s)"@ + #[trigger] rest[i]
                } else {
                    rest[i]
                };
            assert(patterns[i] == rest[i]);
        }
        if exists|i: int|
            0 <= i < patterns.len() && x == if multiline {
                "(?s)"@ + #[trigger] patterns[i]
            } else {
                patterns[i]
            } {
            let i = choose|i: int|
                0 <= i < patterns.len() && x == if multiline {
                    "(?s)"@ + #[trigger] patterns[i]
                } else {
                    patterns[i]
                };
            if i < rest.len() {
                assert(rest[i] == patterns[i]);
            } else {
                assert(x == last);
            }
        }
        if x == last {
            assert(patterns[patterns.len() - 1] == patterns.last());
        }
    }
}

/// A pattern is used exactly where one of its regular expressions is valid. It then says what it
/// was written to say, and looks for each of its valid regular expressions, over line ends where
/// it was asked to.
pub proof fn law_valid_patterns_are_used(raw: RawPattern, level: Level, x: Seq<char>)
    ensures
        ({
            let over = raw.multiline == Some(true);
            let written = strs(raw.pattern@);
            &&& compiled(raw, level) is Some <==> exists|i: int|
                0 <= i < written.len() && regex_error(
                    if over {
                        "(?s)"@ + #[trigger] written[i]
                    } else {
                        written[i]
                    },
                ) is None
            &&& compiled(raw, level) is Some ==> {
                let p = compiled(raw, level)->0;
                &&& p.id == raw.id@ && p.message == raw.message@ && p.help == opt(raw.help)
                &&& p.replacement == opt(raw.replacement) && p.multiline == over
                &&& p.level == level_or(opt(raw.level), level)
                &&& p.regexes.contains(x) <==> regex_error(x) is None && exists|i: int|
                    0 <= i < written.len() && x == if over {
                        "(?s)"@ + #[trigger] written[i]
                    } else {
                        written[i]
                    }
            }
        }),
{
    let over = raw.multiline == Some(true);
    let written = strs(raw.pattern@);
    let regexes = compiling(written, over);
    lemma_compiling(written, over, x);
    if regexes.len() > 0 {
        lemma_compiling(written, over, regexes[0]);
        assert(regexes.contains(regexes[0]));
        let i = choose|i: int|
            0 <= i < written.len() && regexes[0] == if over {
                "(?s)"@ + #[trigger] written[i]
            } else {
                written[i]
            };
        assert(regex_error(
            if over {
                "(?s)"@ + written[i]
            } else {
                written[i]
            },
        ) is None);
    }
    if exists|i: int|
        0 <= i < written.len() && regex_error(
            if over {
                "(?s)"@ + #[trigger] written[i]
            } else {
                written[i]
            },
        ) is None {
        let i = choose|i: int|
            0 <= i < written.len() && regex_error(
                if over {
                    "(?s)"@ + #[trigger] written[i]
                } else {
                    written[i]
                },
            ) is None;
        let y = if over {
            "(?s)"@ + written[i]
        } else {
            written[i]
        };
        lemma_compiling(written, over, y);
        assert(regexes.contains(y));
    }
}

/// Patterns are used in the order in which they are written, and none for another: what two lists
/// give together is what the one gives and then the other.
pub proof fn law_patterns_are_used_one_by_one(
    a: Seq<RawPattern>,
    b: Seq<RawPattern>,
    level: Level,
)
    ensures
        all_compiled(a + b, level) == all_compiled(a, level) + all_compiled(b, level),
        all_compiled(Seq::empty(), level).len() == 0,
    decreases b.len(),
{
    let all = a + b;
    if b.len() == 0 {
        assert(all =~= a);
        assert(all_compiled(a, level) + Seq::<PatternView>::empty() =~= all_compiled(a, level));
    } else {
        law_patterns_are_used_one_by_one(a, b.drop_last(), level);
        assert(all.drop_last() =~= a + b.drop_last());
        assert(all.last() == b.last());
        assert(all_compiled(all, level) =~= all_compiled(a, level) + all_compiled(b, level));
    }
}

/// One pattern that can be used gives that pattern; one that cannot gives nothing.
pub proof fn law_one_pattern_is_used(raw: RawPattern, level: Level)
    ensures
        all_compiled(seq![raw], level) == match compiled(raw, level) {
            Some(p) => seq![p],
            None => Seq::empty(),
        },
{
    assert(seq![raw].drop_last() =~= Seq::empty());
    assert(all_compiled(seq![raw].drop_last(), level) =~= Seq::empty());
    assert(seq![raw].last() == raw);
    match compiled(raw, level) {
        Some(p) => {
            assert(Seq::<PatternView>::empty().push(p) =~= seq![p]);
        },
        None => {},
    }
}

// ---------------------------------------------------------------------------
// Findings in lines
// ---------------------------------------------------------------------------

/// Whether one of several regular expressions matches in a text.
pub open spec fn some_regex_matches(regexes: Seq<Seq<char>>, text: Seq<char>) -> bool {
    exists|r: int| 0 <= r < regexes.len() && regex_find(#[trigger] regexes[r], text) is Some
}

/// How wide the first match of a regular expression is.
pub open spec fn match_width(regex: Seq<char>, text: Seq<char>) -> int {
    let m = regex_find(regex, text)->0;
    m.1 - m.0
}

proof fn lemma_widest(regexes: Seq<Seq<char>>, text: Seq<char>)
    ensures
        widest(regexes, text) is Some <==> some_regex_matches(regexes, text),
        widest(regexes, text) is Some ==> {
            let m = widest(regexes, text)->0;
            &&& exists|r: int|
                0 <= r < regexes.len() && #[trigger] regex_find(regexes[r], text) == Some(m)
            &&& forall|r: int|
                0 <= r < regexes.len() && #[trigger] regex_find(regexes[r], text) is Some
                    ==> match_width(regexes[r], text) <= m.1
                    - m.0
        },
    decreases regexes.len(),
{
    if regexes.len() > 0 {
        let rest = regexes.drop_last();
        let n = rest.len() as int;
        lemma_widest(rest, text);
        assert(regexes[n] == regexes.last());
        if some_regex_matches(rest, text) {
            let r = choose|r: int| 0 <= r < rest.len() && regex_find(#[trigger] rest[r], text) is Some;
            assert(regexes[r] == rest[r]);
        }
        if some_regex_matches(regexes, text) && regex_find(regexes[n], text) is None {
            let r = choose|r: int|
                0 <= r < regexes.len() && regex_find(#[trigger] regexes[r], text) is Some;
            assert(rest[r] == regexes[r]);
        }
        if widest(regexes, text) is Some {
            let m = widest(regexes, text)->0;
            if regex_find(regexes[n], text) != Some(m) {
                let r = choose|r: int|
                    0 <= r < rest.len() && #[trigger] regex_find(rest[r], text) == Some(m);
                assert(regex_find(regexes[r], text) == Some(m));
            }
            assert forall|r: int|
                0 <= r < regexes.len() && #[trigger] regex_find(regexes[r], text) is Some implies
                match_width(regexes[r], text) <= m.1
                - m.0 by {
                if r < n {
                    assert(regex_find(rest[r], text) is Some);
                }
            }
        }
    }
}

/// Whether a line is to be reported: one of the pattern's regular expressions matches in it, and
/// no `# noqa` on it suppresses the pattern.
pub open spec fn is_due(f: FileInput, p: PatternView, line: Seq<char>) -> bool {
    some_regex_matches(p.regexes, line) && (f.ignore_noqa || !suppressed(line, p.id, f.aliases))
}

/// Whether a violation says where a pattern matches in the line `n`: from the start to the end of
/// the first match of one of its regular expressions, of which no other's is wider.
pub open spec fn marks_line(p: PatternView, line: Seq<char>, n: int, v: ViolationView) -> bool {
    &&& v.line == n && v.end_line == n
    &&& exists|r: int|
        0 <= r < p.regexes.len() && #[trigger] regex_find(p.regexes[r], line) == Some(
            (v.col, v.end_col),
        )
    &&& forall|r: int|
        0 <= r < p.regexes.len() && #[trigger] regex_find(p.regexes[r], line) is Some
            ==> match_width(p.regexes[r], line)
            <= v.end_col - v.col
}

proof fn lemma_in_lines(f: FileInput, p: PatternView, n: int)
    requires
        0 <= n <= lines_spec(f.source).len(),
    ensures
        ({
            let lines = lines_spec(f.source);
            let all = f.in_lines(p, n);
            &&& forall|k: int|
                0 <= k < all.len() ==> 1 <= (#[trigger] all[k]).line <= n && is_due(
                    f,
                    p,
                    lines[all[k].line - 1],
                ) && marks_line(p, lines[all[k].line - 1], all[k].line, all[k])
            &&& forall|k: int, l: int| 0 <= k < l < all.len() ==> all[k].line < all[l].line
            &&& forall|i: int|
                0 <= i < n && is_due(f, p, #[trigger] lines[i]) ==> exists|k: int|
                    0 <= k < all.len() && (#[trigger] all[k]).line == i + 1
        }),
    decreases n,
{
    if n > 0 {
        lemma_in_lines(f, p, n - 1);
        let lines = lines_spec(f.source);
        let before = f.in_lines(p, n - 1);
        let all = f.in_lines(p, n);
        let line = lines[n - 1];
        lemma_widest(p.regexes, line);
        assert forall|k: int| 0 <= k < all.len() implies 1 <= (#[trigger] all[k]).line <= n && is_due(
            f,
            p,
            lines[all[k].line - 1],
        ) && marks_line(p, lines[all[k].line - 1], all[k].line, all[k]) by {
            if k < before.len() {
                assert(all[k] == before[k]);
            }
        }
        assert forall|k: int, l: int| 0 <= k < l < all.len() implies all[k].line < all[l].line by {
            if l < before.len() {
                assert(before[k].line < before[l].line);
            } else {
                assert(all[k] == before[k]);
                assert(before[k].line <= n - 1);
            }
        }
        assert forall|i: int| 0 <= i < n && is_due(f, p, #[trigger] lines[i]) implies exists|k: int|
            0 <= k < all.len() && (#[trigger] all[k]).line == i + 1 by {
            if i < n - 1 {
                let k = choose|k: int| 0 <= k < before.len() && (#[trigger] before[k]).line == i + 1;
                assert(all[k] == before[k]);
            } else {
                assert(all[before.len() as int].line == n);
            }
        }
    }
}

/// A pattern for lines reports exactly the lines in which it matches and that no `# noqa`
/// suppresses, each once and in order, with the place of the widest match.
pub proof fn law_matching_lines_are_reported(f: FileInput, p: PatternView)
    requires
        p.applies(f),
        !p.multiline,
    ensures
        ({
            let lines = lines_spec(f.source);
            let all = f.findings(p);
            &&& forall|k: int|
                0 <= k < all.len() ==> 1 <= (#[trigger] all[k]).line <= lines.len() && is_due(
                    f,
                    p,
                    lines[all[k].line - 1],
                ) && marks_line(p, lines[all[k].line - 1], all[k].line, all[k])
            &&& forall|k: int, l: int| 0 <= k < l < all.len() ==> all[k].line < all[l].line
            &&& forall|i: int|
                0 <= i < lines.len() && is_due(f, p, #[trigger] lines[i]) ==> exists|k: int|
                    0 <= k < all.len() && (#[trigger] all[k]).line == i + 1
        }),
{
    lemma_in_lines(f, p, lines_spec(f.source).len() as int);
}

// ---------------------------------------------------------------------------
// Findings in the whole text
// ---------------------------------------------------------------------------

/// Whether a match is to be reported: no `# noqa` on the line where it starts suppresses the
/// pattern.
pub open spec fn is_match_due(f: FileInput, p: PatternView, m: (int, int)) -> bool {
    let lines = lines_spec(f.source);
    let line = f.line_at(m.0);
    f.ignore_noqa || !(1 <= line <= lines.len()) || !suppressed(lines[line - 1], p.id, f.aliases)
}

/// Whether a violation says where a match starts and ends.
pub open spec fn marks_match(f: FileInput, m: (int, int), v: ViolationView) -> bool {
    v.line == f.line_at(m.0) && v.col == f.col_at(m.0) && v.end_line == f.line_at(m.1) && v.end_col
        == f.col_at(m.1)
}

/// Whether a violation is that of a match of one of the first `n` regular expressions of a
/// pattern.
pub open spec fn is_of_match(
    f: FileInput,
    p: PatternView,
    v: ViolationView,
    r: int,
    i: int,
) -> bool {
    0 <= r < p.regexes.len() && 0 <= i < regex_find_all(p.regexes[r], f.source).len()
        && is_match_due(f, p, regex_find_all(p.regexes[r], f.source)[i]) && marks_match(
        f,
        regex_find_all(p.regexes[r], f.source)[i],
        v,
    )
}

proof fn lemma_match_found(f: FileInput, p: PatternView, matches: Seq<(int, int)>, n: int, k: int) -> (i:
    int)
    requires
        0 <= k < f.in_matches(p, matches, n).len(),
        n <= matches.len(),
    ensures
        0 <= i < n,
        is_match_due(f, p, matches[i]),
        marks_match(f, matches[i], f.in_matches(p, matches, n)[k]),
    decreases n,
{
    if k < f.in_matches(p, matches, n - 1).len() {
        lemma_match_found(f, p, matches, n - 1, k)
    } else {
        n - 1
    }
}

proof fn lemma_match_reported(
    f: FileInput,
    p: PatternView,
    matches: Seq<(int, int)>,
    n: int,
    i: int,
) -> (k: int)
    requires
        0 <= i < n <= matches.len(),
        is_match_due(f, p, matches[i]),
    ensures
        0 <= k < f.in_matches(p, matches, n).len(),
        marks_match(f, matches[i], f.in_matches(p, matches, n)[k]),
    decreases n,
{
    if i < n - 1 {
        lemma_match_reported(f, p, matches, n - 1, i)
    } else {
        f.in_matches(p, matches, n - 1).len() as int
    }
}

proof fn lemma_text_found(f: FileInput, p: PatternView, n: int, k: int) -> (at: (int, int))
    requires
        0 <= k < f.in_text(p, n).len(),
        n <= p.regexes.len(),
    ensures
        is_of_match(f, p, f.in_text(p, n)[k], at.0, at.1),
    decreases n,
{
    let before = f.in_text(p, n - 1);
    let matches = regex_find_all(p.regexes[n - 1], f.source);
    if k < before.len() {
        lemma_text_found(f, p, n - 1, k)
    } else {
        let i = lemma_match_found(f, p, matches, matches.len() as int, k - before.len());
        (n - 1, i)
    }
}

proof fn lemma_text_reported(f: FileInput, p: PatternView, n: int, r: int, i: int) -> (k: int)
    requires
        0 <= r < n <= p.regexes.len(),
        0 <= i < regex_find_all(p.regexes[r], f.source).len(),
        is_match_due(f, p, regex_find_all(p.regexes[r], f.source)[i]),
    ensures
        0 <= k < f.in_text(p, n).len(),
        is_of_match(f, p, f.in_text(p, n)[k], r, i),
    decreases n,
{
    let before = f.in_text(p, n - 1);
    let matches = regex_find_all(p.regexes[n - 1], f.source);
    if r < n - 1 {
        lemma_text_reported(f, p, n - 1, r, i)
    } else {
        let k = lemma_match_reported(f, p, matches, matches.len() as int, i);
        before.len() + k
    }
}

/// What a pattern for the whole text reports are matches of its regular expressions, on whose first
/// line no `# noqa` suppresses it, with the place of each.
pub proof fn law_only_matches_in_the_text_are_reported(f: FileInput, p: PatternView, k: int) -> (at: (
    int,
    int,
))
    requires
        p.applies(f),
        p.multiline,
        0 <= k < f.findings(p).len(),
    ensures
        is_of_match(f, p, f.findings(p)[k], at.0, at.1),
{
    lemma_text_found(f, p, p.regexes.len() as int, k)
}

/// A pattern for the whole text reports every match of each of its regular expressions on whose
/// first line no `# noqa` suppresses it.
pub proof fn law_every_match_in_the_text_is_reported(
    f: FileInput,
    p: PatternView,
    r: int,
    i: int,
) -> (k: int)
    requires
        p.applies(f),
        p.multiline,
        0 <= r < p.regexes.len(),
        0 <= i < regex_find_all(p.regexes[r], f.source).len(),
        is_match_due(f, p, regex_find_all(p.regexes[r], f.source)[i]),
    ensures
        0 <= k < f.findings(p).len(),
        is_of_match(f, p, f.findings(p)[k], r, i),
{
    lemma_text_reported(f, p, p.regexes.len() as int, r, i)
}

// ---------------------------------------------------------------------------
// Wording
// ---------------------------------------------------------------------------

proof fn lemma_first_sub(subs: Seq<SubRuleView>, text: Seq<char>)
    ensures
        match first_sub(subs, text) {
            Some(s) => exists|i: int|
                0 <= i < subs.len() && #[trigger] subs[i] == s && some_regex_matches(
                    subs[i].patterns,
                    text,
                ) && forall|j: int|
                    0 <= j < i ==> !some_regex_matches((#[trigger] subs[j]).patterns, text),
            None => forall|j: int|
                0 <= j < subs.len() ==> !some_regex_matches((#[trigger] subs[j]).patterns, text),
        },
    decreases subs.len(),
{
    if subs.len() > 0 {
        assert(any_match(subs[0].patterns, text) == some_regex_matches(subs[0].patterns, text)) by {
            if any_match(subs[0].patterns, text) {
                let i = choose|i: int|
                    0 <= i < subs[0].patterns.len() && regex_find(
                        #[trigger] subs[0].patterns[i],
                        text,
                    ) is Some;
                assert(regex_find(subs[0].patterns[i], text) is Some);
            }
        }
        if !any_match(subs[0].patterns, text) {
            let rest = subs.skip(1);
            lemma_first_sub(rest, text);
            match first_sub(rest, text) {
                Some(s) => {
                    let i = choose|i: int|
                        0 <= i < rest.len() && #[trigger] rest[i] == s && some_regex_matches(
                            rest[i].patterns,
                            text,
                        ) && forall|j: int|
                            0 <= j < i ==> !some_regex_matches((#[trigger] rest[j]).patterns, text);
                    assert(subs[i + 1] == s);
                    assert forall|j: int| 0 <= j < i + 1 implies !some_regex_matches(
                        (#[trigger] subs[j]).patterns,
                        text,
                    ) by {
                        if j > 0 {
                            assert(!some_regex_matches(rest[j - 1].patterns, text));
                        }
                    }
                },
                None => {
                    assert forall|j: int| 0 <= j < subs.len() implies !some_regex_matches(
                        (#[trigger] subs[j]).patterns,
                        text,
                    ) by {
                        if j > 0 {
                            assert(!some_regex_matches(rest[j - 1].patterns, text));
                        }
                    }
                },
            }
        } else {
            assert(subs[0] == first_sub(subs, text)->0);
        }
    }
}

/// A finding is worded by the first refinement one of whose regular expressions matches the text
/// found, and by the pattern itself where none does; the code stands in front.
pub proof fn law_first_refinement_words_the_finding(
    p: PatternView,
    text: Seq<char>,
    line: int,
    col: int,
    end_line: int,
    end_col: int,
)
    ensures
        ({
            let v = p.violation(text, line, col, end_line, end_col);
            let subs = p.sub_rules;
            &&& (exists|i: int|
                0 <= i < subs.len() && v.message == p.id + ": "@ + (#[trigger] subs[i]).message
                    && v.help == subs[i].help && some_regex_matches(subs[i].patterns, text)
                    && forall|j: int|
                    0 <= j < i ==> !some_regex_matches((#[trigger] subs[j]).patterns, text)) || (
            v.message == p.id + ": "@ + p.message && v.help == p.help && forall|j: int|
                0 <= j < subs.len() ==> !some_regex_matches((#[trigger] subs[j]).patterns, text))
        }),
{
    lemma_first_sub(p.sub_rules, text);
    match first_sub(p.sub_rules, text) {
        Some(s) => {
            let subs = p.sub_rules;
            let i = choose|i: int|
                0 <= i < subs.len() && #[trigger] subs[i] == s && some_regex_matches(
                    subs[i].patterns,
                    text,
                ) && forall|j: int|
                    0 <= j < i ==> !some_regex_matches((#[trigger] subs[j]).patterns, text);
            let v = p.violation(text, line, col, end_line, end_col);
            assert(v.message == p.id + ": "@ + subs[i].message);
        },
        None => {},
    }
}

/// What several patterns find is what each of them finds, in their order.
pub proof fn law_patterns_find_one_by_one(f: FileInput, a: Seq<PatternView>, b: Seq<PatternView>)
    ensures
        f.all_findings(a + b) == f.all_findings(a) + f.all_findings(b),
        f.all_findings(Seq::empty()).len() == 0,
        b.len() == 1 ==> f.all_findings(b) == f.findings(b[0]),
    decreases b.len(),
{
    let all = a + b;
    if b.len() == 0 {
        assert(all =~= a);
        assert(f.all_findings(a) + Seq::<ViolationView>::empty() =~= f.all_findings(a));
    } else {
        let rest = b.drop_last();
        law_patterns_find_one_by_one(f, a, rest);
        assert(all.drop_last() =~= a + rest);
        assert(all.last() == b.last());
        assert(f.all_findings(a) + f.all_findings(rest) + f.findings(b.last())
            =~= f.all_findings(a) + (f.all_findings(rest) + f.findings(b.last())));
        if b.len() == 1 {
            assert(f.all_findings(rest) =~= Seq::empty());
            assert(f.all_findings(b) =~= f.findings(b[0]));
        }
    }
}

// ---------------------------------------------------------------------------
// Replacing
// ---------------------------------------------------------------------------

/// Several regular expressions replace in turn, each in what the ones before it made.
pub proof fn law_regexes_replace_in_turn(
    a: Seq<Seq<char>>,
    b: Seq<Seq<char>>,
    text: Seq<char>,
    replacement: Seq<char>,
)
    ensures
        replaced_by(a + b, text, replacement) == replaced_by(
            b,
            replaced_by(a, text, replacement),
            replacement,
        ),
        replaced_by(Seq::empty(), text, replacement) == text,
        b.len() == 1 ==> replaced_by(b, text, replacement) == regex_replaced(
            b[0],
            text,
            replacement,
        ),
    decreases b.len(),
{
    let all = a + b;
    if b.len() == 0 {
        assert(all =~= a);
    } else {
        law_regexes_replace_in_turn(a, b.drop_last(), text, replacement);
        assert(all.drop_last() =~= a + b.drop_last());
        assert(all.last() == b.last());
        if b.len() == 1 {
            assert(b.drop_last() =~= Seq::empty());
            assert(replaced_by(b.drop_last(), text, replacement) == text);
        }
    }
}

/// A line in which a pattern is reported is replaced; every other line stays. Its end stays with
/// it, and the lines behind it are replaced on their own.
pub proof fn law_reported_lines_are_replaced(
    f: FileInput,
    p: PatternView,
    replacement: Seq<char>,
    line: Seq<char>,
    end: Seq<char>,
    rest: Seq<char>,
)
    requires
        forall|i: int| 0 <= i < line.len() ==> #[trigger] line[i] != '\n',
        end == seq!['\n'] || end == seq!['\r', '\n'],
        end == seq!['\n'] && line.len() > 0 ==> line.last() != '\r',
    ensures
        f.lines_after(p, replacement, line + end + rest) == (if is_due(f, p, line) {
            replaced_by(p.regexes, line, replacement)
        } else {
            line
        }) + end + f.lines_after(p, replacement, rest),
        f.lines_after(p, replacement, line) == if is_due(f, p, line) && line.len() > 0 {
            replaced_by(p.regexes, line, replacement)
        } else {
            line
        },
{
    lemma_widest(p.regexes, line);
    let text = line + end + rest;
    let k = line.len() + end.len() - 1;
    assert(text[k] == '\n');
    assert forall|j: int| 0 <= j < k implies text[j] != '\n' by {
        if j < line.len() {
            assert(text[j] == line[j]);
        }
    }
    lemma_index_of_is(text, '\n', k);
    let head = text.take(k);
    if end == seq!['\n'] {
        assert(head =~= line);
    } else {
        assert(head =~= line.push('\r'));
        assert(head.drop_last() =~= line);
    }
    assert(drop_cr(head) =~= line);
    assert(text.subrange(line.len() as int, k + 1) =~= end);
    assert(text.skip(k + 1) =~= rest);
    lemma_index_of_is(line, '\n', line.len() as int);
}

/// The text from the match `i` on once each match that is reported is replaced and all that stands
/// between and behind them is kept.
pub open spec fn replaced_from(
    f: FileInput,
    p: PatternView,
    regex: Seq<char>,
    replacement: Seq<char>,
    n: int,
    i: int,
) -> Seq<char>
    decreases n - i,
{
    let matches = regex_find_all(regex, f.source);
    if i >= n {
        Seq::empty()
    } else {
        let m = matches[i];
        let a = char_index(f.source, m.0)->0;
        let b = char_index(f.source, m.1)->0;
        let next = if i + 1 < n {
            char_index(f.source, matches[i + 1].0)->0
        } else {
            f.source.len() as int
        };
        let new = regex_expanded(regex, f.source, m.0, replacement);
        (if is_match_due(f, p, m) && new is Some {
            new->0
        } else {
            f.source.subrange(a, b)
        }) + f.source.subrange(b, next) + replaced_from(f, p, regex, replacement, n, i + 1)
    }
}

/// Whether matches stand in the text one behind the other.
pub open spec fn in_order(f: FileInput, matches: Seq<(int, int)>) -> bool {
    &&& forall|i: int|
        0 <= i < matches.len() ==> {
            let m = #[trigger] matches[i];
            &&& char_index(f.source, m.0) is Some && char_index(f.source, m.1) is Some
            &&& 0 <= char_index(f.source, m.0)->0 <= char_index(f.source, m.1)->0 <= f.source.len()
        }
    &&& forall|i: int, j: int|
        0 <= i < j < matches.len() ==> char_index(f.source, (#[trigger] matches[i]).1)->0
            <= char_index(f.source, (#[trigger] matches[j]).0)->0
}

/// Where the match `i` starts; behind the last match, the end of the text.
pub open spec fn match_start(f: FileInput, matches: Seq<(int, int)>, i: int) -> int {
    if i < matches.len() {
        char_index(f.source, matches[i].0)->0
    } else {
        f.source.len() as int
    }
}

proof fn lemma_matches_replaced(
    f: FileInput,
    p: PatternView,
    regex: Seq<char>,
    replacement: Seq<char>,
    n: int,
)
    requires
        in_order(f, regex_find_all(regex, f.source)),
        0 <= n <= regex_find_all(regex, f.source).len(),
    ensures
        ({
            let matches = regex_find_all(regex, f.source);
            let all = matches.len() as int;
            f.matches_after(
                p,
                regex,
                replacement,
                f.source.take(match_start(f, matches, n)) + replaced_from(
                    f,
                    p,
                    regex,
                    replacement,
                    all,
                    n,
                ),
                n,
            ) == f.source.take(match_start(f, matches, 0)) + replaced_from(
                f,
                p,
                regex,
                replacement,
                all,
                0,
            )
        }),
    decreases n,
{
    let matches = regex_find_all(regex, f.source);
    let all = matches.len() as int;
    if n > 0 {
        let m = matches[n - 1];
        let a = char_index(f.source, m.0)->0;
        let b = char_index(f.source, m.1)->0;
        let c = match_start(f, matches, n);
        if n < all {
            assert(char_index(f.source, matches[n - 1].1)->0 <= char_index(
                f.source,
                matches[n].0,
            )->0);
        }
        assert(matches[n - 1] == m);
        let tail = replaced_from(f, p, regex, replacement, all, n);
        let text = f.source.take(c) + tail;
        let new = regex_expanded(regex, f.source, m.0, replacement);
        let before = f.source.take(a) + replaced_from(f, p, regex, replacement, all, n - 1);
        let next = if f.quiet(f.line_at(m.0) - 1, p.id) || new is None {
            text
        } else {
            text.take(a) + new->0 + text.skip(b)
        };
        assert(is_match_due(f, p, m) == !f.quiet(f.line_at(m.0) - 1, p.id));
        if is_match_due(f, p, m) && new is Some {
            assert(text.take(a) =~= f.source.take(a));
            assert(text.skip(b) =~= f.source.subrange(b, c) + tail);
            assert(next =~= before);
        } else {
            assert(f.source.take(c) =~= f.source.take(a) + f.source.subrange(a, b)
                + f.source.subrange(b, c));
            assert(next =~= before);
        }
        lemma_matches_replaced(f, p, regex, replacement, n - 1);
    }
}

/// In the whole text each match that is reported is replaced by what the replacement expands to,
/// and all that stands before, between and behind the matches stays.
pub proof fn law_reported_matches_are_replaced(
    f: FileInput,
    p: PatternView,
    regex: Seq<char>,
    replacement: Seq<char>,
)
    requires
        in_order(f, regex_find_all(regex, f.source)),
    ensures
        ({
            let matches = regex_find_all(regex, f.source);
            let n = matches.len() as int;
            f.matches_after(p, regex, replacement, f.source, n) == f.source.take(
                match_start(f, matches, 0),
            ) + replaced_from(f, p, regex, replacement, n, 0)
        }),
{
    let matches = regex_find_all(regex, f.source);
    let n = matches.len() as int;
    lemma_matches_replaced(f, p, regex, replacement, n);
    assert(f.source.take(f.source.len() as int) + Seq::<char>::empty() =~= f.source);
}

/// A pattern for lines that has a replacement and is looked for in the file replaces in its lines;
/// one for the whole text replaces by each of its regular expressions in turn; any other leaves the
/// text.
pub proof fn law_patterns_replace_where_they_are_looked_for(
    f: FileInput,
    p: PatternView,
    text: Seq<char>,
)
    requires
        text.len() < usize::MAX,
    ensures
        p.replacement is Some && p.applies(f) && !p.multiline ==> f.after(p, text) == f.lines_after(
            p,
            p.replacement->0,
            text,
        ),
        p.replacement is Some && p.applies(f) && p.multiline && p.regexes.len() == 1 ==> f.after(
            p,
            text,
        ) == f.with_source(text).matches_after(
            p,
            p.regexes[0],
            p.replacement->0,
            text,
            regex_find_all(p.regexes[0], text).len() as int,
        ),
        p.replacement is None || !p.applies(f) ==> f.after(p, text) == text,
{
    if p.replacement is Some && p.applies(f) && p.multiline && p.regexes.len() == 1 {
        assert(f.text_after(p, p.replacement->0, text, 0) == text);
    }
}

/// Several patterns replace in turn, each in what the ones before it made.
pub proof fn law_patterns_replace_in_turn(f: FileInput, patterns: Seq<PatternView>, p: PatternView)
    ensures
        f.after_all(patterns.push(p)) == f.after(p, f.after_all(patterns)),
        f.after_all(Seq::empty()) == f.source,
{
    assert(patterns.push(p).drop_last() =~= patterns);
}

/// Of matches that are equally wide the one of the last regular expression counts.
pub proof fn law_the_last_of_equally_wide_matches_counts(
    a: Seq<Seq<char>>,
    b: Seq<Seq<char>>,
    text: Seq<char>,
)
    requires
        widest(a, text) is Some,
        widest(b, text) is Some,
    ensures
        ({
            let m = widest(a, text)->0;
            let n = widest(b, text)->0;
            widest(a + b, text) == if n.1 - n.0 >= m.1 - m.0 {
                Some(n)
            } else {
                Some(m)
            }
        }),
    decreases b.len(),
{
    let all = a + b;
    let rest = b.drop_last();
    assert(all.drop_last() =~= a + rest);
    assert(all.last() == b.last());
    if widest(rest, text) is Some {
        law_the_last_of_equally_wide_matches_counts(a, rest, text);
    } else {
        lemma_nothing_wide(a, rest, text);
    }
}

proof fn lemma_nothing_wide(a: Seq<Seq<char>>, b: Seq<Seq<char>>, text: Seq<char>)
    requires
        widest(b, text) is None,
    ensures
        widest(a + b, text) == widest(a, text),
    decreases b.len(),
{
    let all = a + b;
    if b.len() == 0 {
        assert(all =~= a);
    } else {
        lemma_nothing_wide(a, b.drop_last(), text);
        assert(all.drop_last() =~= a + b.drop_last());
        assert(all.last() == b.last());
    }
}

} // verus!
