//! Fixing what user-defined patterns find. What a `# noqa` suppresses stays as it is.
use crate::edit::{char_index, find_index};
use crate::kpt::{
    any_replacement, countable, find_position, find_widest, is_quiet, pattern_views, sources,
    widest, CompiledPattern, FileInput, KptQuery, PatternView,
};
use crate::matching::{
    is_span, regex_all, regex_expand, regex_expanded, regex_find_all, regex_replace,
    regex_replaced, regex_source, spans_of,
};
use crate::noqa::has_noqa;
use crate::split::{drop_cr, lines_spec, str_lines};
use crate::text::{
    byte_len, chars, eq, find_char, index_of, lemma_byte_len_monotone, lemma_index_of, part,
    push_all, string,
};
use regex::Regex;
use vstd::prelude::*;
use vstd::string::*;

verus! {

// ---------------------------------------------------------------------------
// Lines
// ---------------------------------------------------------------------------

/// A text with the matches of each of several regular expressions replaced in turn.
pub open spec fn replaced_by(
    patterns: Seq<Seq<char>>,
    text: Seq<char>,
    replacement: Seq<char>,
) -> Seq<char>
    decreases patterns.len(),
{
    if patterns.len() == 0 {
        text
    } else {
        regex_replaced(
            patterns.last(),
            replaced_by(patterns.drop_last(), text, replacement),
            replacement,
        )
    }
}

impl FileInput {
    /// A line after a pattern has replaced what it finds there.
    pub open spec fn line_after(
        self,
        p: PatternView,
        replacement: Seq<char>,
        line: Seq<char>,
    ) -> Seq<char> {
        if widest(p.regexes, line) is Some && !self.silences(line, p.id) {
            replaced_by(p.regexes, line, replacement)
        } else {
            line
        }
    }

    /// A text after a pattern has replaced what it finds in its lines; every line keeps its end.
    pub open spec fn lines_after(
        self,
        p: PatternView,
        replacement: Seq<char>,
        text: Seq<char>,
    ) -> Seq<char>
        decreases text.len(),
    {
        proof {
            lemma_index_of(text, '\n');
        }
        let k = index_of(text, '\n');
        if text.len() == 0 {
            text
        } else if k >= text.len() {
            self.line_after(p, replacement, text)
        } else {
            let line = drop_cr(text.take(k));
            self.line_after(p, replacement, line) + text.subrange(line.len() as int, k + 1)
                + self.lines_after(p, replacement, text.skip(k + 1))
        }
    }
}

/// A text with the matches of each of several regular expressions replaced in turn.
pub(crate) fn replace_each(regexes: &Vec<Regex>, text: &str, replacement: &str) -> (r: String)
    ensures
        r@ == replaced_by(sources(regexes@), text@, replacement@),
{
    let ghost all = sources(regexes@);
    let mut out = text.to_owned();
    let mut i: usize = 0;
    assert(all.take(0) =~= Seq::empty());
    while i < regexes.len()
        invariant
            i <= regexes@.len(),
            all == sources(regexes@),
            out@ == replaced_by(all.take(i as int), text@, replacement@),
        decreases regexes@.len() - i,
    {
        assert(all.take(i + 1).drop_last() =~= all.take(i as int));
        assert(all.take(i + 1).last() == regex_source(regexes@[i as int]));
        out = regex_replace(&regexes[i], out.as_str(), replacement);
        i += 1;
    }
    assert(all.take(all.len() as int) =~= all);
    out
}

/// Replaces what a pattern finds in a line.
fn replace_in_line(
    q: &KptQuery<'_>,
    p: &CompiledPattern,
    replacement: &str,
    line: &[char],
) -> (r: String)
    ensures
        r@ == q.input().line_after(p@, replacement@, line@),
{
    let text = string(line);
    if find_widest(&p.regexes, text.as_str()).is_none() {
        return text;
    }
    if !q.ignore_noqa && has_noqa(text.as_str(), p.id.as_str(), q.noqa_aliases) {
        return text;
    }
    replace_each(&p.regexes, text.as_str(), replacement)
}

/// Replaces what a pattern finds in the lines of a text.
fn replace_in_lines(
    q: &KptQuery<'_>,
    p: &CompiledPattern,
    replacement: &str,
    s: &Vec<char>,
) -> (r: Vec<char>)
    ensures
        r@ == q.input().lines_after(p@, replacement@, s@),
{
    let ghost f = q.input();
    let mut out: Vec<char> = Vec::new();
    let mut from: usize = 0;
    assert(s@.skip(0) =~= s@);
    assert(out@ + f.lines_after(p@, replacement@, s@) =~= f.lines_after(p@, replacement@, s@));
    while from < s.len()
        invariant
            from <= s@.len(),
            f == q.input(),
            out@ + f.lines_after(p@, replacement@, s@.skip(from as int)) == f.lines_after(
                p@,
                replacement@,
                s@,
            ),
        decreases s@.len() - from,
    {
        let rest = part(s.as_slice(), from, s.len());
        assert(rest@ =~= s@.skip(from as int));
        let k: usize = find_char(rest, '\n');
        let ghost before = out@;
        if k == rest.len() {
            let new = replace_in_line(q, p, replacement, rest);
            let new_chars = chars(new.as_str());
            push_all(&mut out, new_chars.as_slice());
            return out;
        }
        let whole = part(rest, 0, k);
        assert(whole@ =~= rest@.take(k as int));
        let line = if whole.len() > 0 && whole[whole.len() - 1] == '\r' {
            part(whole, 0, whole.len() - 1)
        } else {
            whole
        };
        assert(line@ =~= drop_cr(whole@));
        let new = replace_in_line(q, p, replacement, line);
        let new_chars = chars(new.as_str());
        push_all(&mut out, new_chars.as_slice());
        push_all(&mut out, part(rest, line.len(), k + 1));
        assert(rest@.skip(k + 1) =~= s@.skip(from + k + 1));
        proof {
            let tail = f.lines_after(p@, replacement@, s@.skip(from + k + 1));
            let end = rest@.subrange(line@.len() as int, k + 1);
            assert(out@ =~= before + new@ + end);
            assert(out@ + tail =~= before + (new@ + end + tail));
        }
        from = from + k + 1;
    }
    assert(s@.skip(from as int) =~= Seq::<char>::empty());
    assert(out@ + Seq::<char>::empty() =~= out@);
    out
}

// ---------------------------------------------------------------------------
// Whole texts
// ---------------------------------------------------------------------------

impl FileInput {
    /// The file with another text.
    pub open spec fn with_source(self, text: Seq<char>) -> FileInput {
        FileInput { source: text, ..self }
    }

    /// What becomes of a text, the file's own with the matches behind the first `n` replaced, when
    /// the first `n` are replaced too, the last first. A match on whose first line a `# noqa`
    /// suppresses the pattern stays.
    pub open spec fn matches_after(
        self,
        p: PatternView,
        regex: Seq<char>,
        replacement: Seq<char>,
        text: Seq<char>,
        n: int,
    ) -> Seq<char>
        decreases n,
    {
        if n <= 0 {
            text
        } else {
            let m = regex_find_all(regex, self.source)[n - 1];
            let new = regex_expanded(regex, self.source, m.0, replacement);
            let next = if self.quiet(self.line_at(m.0) - 1, p.id) || new is None {
                text
            } else {
                text.take(char_index(self.source, m.0)->0) + new->0 + text.skip(
                    char_index(self.source, m.1)->0,
                )
            };
            self.matches_after(p, regex, replacement, next, n - 1)
        }
    }

    /// A text after the first `n` regular expressions of a pattern have replaced what they find in
    /// it, in turn. A text whose lines cannot be counted stays as it is.
    pub open spec fn text_after(
        self,
        p: PatternView,
        replacement: Seq<char>,
        text: Seq<char>,
        n: int,
    ) -> Seq<char>
        decreases n,
    {
        if n <= 0 {
            text
        } else {
            let before = self.text_after(p, replacement, text, n - 1);
            if countable(before) {
                self.with_source(before).matches_after(
                    p,
                    p.regexes[n - 1],
                    replacement,
                    before,
                    regex_find_all(p.regexes[n - 1], before).len() as int,
                )
            } else {
                before
            }
        }
    }

    /// The text after a pattern has replaced what it finds.
    pub open spec fn after(self, p: PatternView, text: Seq<char>) -> Seq<char> {
        match p.replacement {
            Some(replacement) => if !p.applies(self) || !countable(text) {
                text
            } else if p.multiline {
                self.text_after(p, replacement, text, p.regexes.len() as int)
            } else {
                self.lines_after(p, replacement, text)
            },
            None => text,
        }
    }

    /// The text after several patterns have replaced what they find, in turn.
    pub open spec fn after_all(self, patterns: Seq<PatternView>) -> Seq<char>
        decreases patterns.len(),
    {
        if patterns.len() == 0 {
            self.source
        } else {
            self.after(patterns.last(), self.after_all(patterns.drop_last()))
        }
    }
}

/// Replaces the matches of one regular expression of a pattern in a file.
fn replace_matches(
    q: &KptQuery<'_>,
    p: &CompiledPattern,
    k: usize,
    replacement: &str,
    text: &Vec<char>,
) -> (r: Vec<char>)
    requires
        text@ == q.source@,
        countable(text@),
        k < p.regexes@.len(),
    ensures
        r@ == q.input().matches_after(
            p@,
            p@.regexes[k as int],
            replacement@,
            q.source@,
            regex_find_all(p@.regexes[k as int], q.source@).len() as int,
        ),
{
    let ghost f = q.input();
    let ghost regex = p@.regexes[k as int];
    assert(regex == regex_source(p.regexes@[k as int]));
    let source_lines = str_lines(q.source);
    let found = regex_all(&p.regexes[k], q.source);
    let ghost matches = regex_find_all(regex, q.source@);
    assert(spans_of(found@).len() == found@.len());
    let mut current: Vec<char> = Vec::new();
    push_all(&mut current, text.as_slice());
    assert(current@ =~= q.source@);
    let mut n: usize = found.len();
    let ghost mut limit: int = text@.len() as int;
    assert forall|j: int| 0 <= j < found@.len() implies (#[trigger] spans_of(found@)[j]).1
        <= byte_len(text@.take(limit)) by {
        assert(is_span(q.source@, spans_of(found@)[j]));
        crate::edit::lemma_char_index_is_prefix(text@, spans_of(found@)[j].1);
        lemma_byte_len_monotone(
            text@,
            char_index(text@, spans_of(found@)[j].1)->0,
            text@.len() as int,
        );
    }
    while n > 0
        invariant
            n <= found@.len(),
            f == q.input(),
            regex == p@.regexes[k as int],
            regex == regex_source(p.regexes@[k as int]),
            k < p.regexes@.len(),
            text@ == q.source@,
            countable(text@),
            crate::text::strs(source_lines@) == lines_spec(q.source@),
            matches == regex_find_all(regex, q.source@),
            spans_of(found@) == matches,
            spans_of(found@).len() == found@.len(),
            forall|j: int|
                0 <= j < found@.len() ==> is_span(q.source@, #[trigger] spans_of(found@)[j]),
            forall|i: int, j: int|
                0 <= i < j < found@.len() ==> (#[trigger] spans_of(found@)[i]).1
                    <= (#[trigger] spans_of(found@)[j]).0,
            0 <= limit <= current@.len(),
            limit <= text@.len(),
            forall|j: int|
                0 <= j < n ==> (#[trigger] spans_of(found@)[j]).1 <= byte_len(text@.take(limit)),
            f.matches_after(p@, regex, replacement@, current@, n as int) == f.matches_after(
                p@,
                regex,
                replacement@,
                q.source@,
                found@.len() as int,
            ),
        decreases n,
    {
        let m = found[n - 1];
        assert(matches[n - 1] == (m.0 as int, m.1 as int));
        assert(is_span(q.source@, spans_of(found@)[n - 1]));
        let (line, _) = find_position(text.as_slice(), m.0);
        let quiet = is_quiet(q, &source_lines, line - 1, p.id.as_str());
        let expanded = regex_expand(&p.regexes[k], q.source, m.0, replacement);
        if let Some(new) = expanded {
            if !quiet {
                let (a, b) = match (
                    find_index(text.as_slice(), m.0),
                    find_index(text.as_slice(), m.1),
                ) {
                    (Some(a), Some(b)) => (a, b),
                    _ => (0, 0),
                };
                proof {
                    crate::edit::lemma_char_index_is_prefix(text@, m.0 as int);
                    crate::edit::lemma_char_index_is_prefix(text@, m.1 as int);
                    if b > limit {
                        lemma_strictly_longer(text@, limit, b as int);
                    }
                    if a > b {
                        lemma_strictly_longer(text@, b as int, a as int);
                    }
                }
                let new_chars = chars(new.as_str());
                let mut next: Vec<char> = Vec::new();
                push_all(&mut next, part(current.as_slice(), 0, a));
                push_all(&mut next, new_chars.as_slice());
                push_all(&mut next, part(current.as_slice(), b, current.len()));
                assert(next@ =~= current@.take(a as int) + new@ + current@.skip(b as int));
                current = next;
                proof {
                    limit = a as int;
                    assert forall|j: int| 0 <= j < n - 1 implies (#[trigger] spans_of(found@)[j]).1
                        <= byte_len(text@.take(limit)) by {
                        assert(spans_of(found@)[j].1 <= spans_of(found@)[n - 1].0);
                    }
                }
            }
        }
        n -= 1;
    }
    current
}

/// A longer prefix has more bytes.
proof fn lemma_strictly_longer(text: Seq<char>, i: int, j: int)
    requires
        0 <= i < j <= text.len(),
    ensures
        byte_len(text.take(i)) < byte_len(text.take(j)),
{
    lemma_byte_len_monotone(text, i + 1, j);
    assert(text.take(i + 1).drop_last() =~= text.take(i));
}

/// Replaces what a pattern finds in a whole text.
fn replace_in_text(
    q: &KptQuery<'_>,
    p: &CompiledPattern,
    replacement: &str,
    text: String,
) -> (r: String)
    ensures
        r@ == q.input().text_after(p@, replacement@, text@, p@.regexes.len() as int),
{
    let ghost f = q.input();
    let ghost first = text@;
    let mut current = text;
    let mut k: usize = 0;
    assert(p@.regexes.len() == p.regexes@.len());
    while k < p.regexes.len()
        invariant
            k <= p.regexes@.len(),
            f == q.input(),
            current@ == f.text_after(p@, replacement@, first, k as int),
        decreases p.regexes@.len() - k,
    {
        let letters = chars(current.as_str());
        if letters.len() < usize::MAX {
            let here = KptQuery {
                path: q.path,
                source: current.as_str(),
                ignore_noqa: q.ignore_noqa,
                noqa_aliases: q.noqa_aliases,
                config_dir: q.config_dir,
                cwd: q.cwd,
            };
            assert(here.input() == f.with_source(current@));
            let new = replace_matches(&here, p, k, replacement, &letters);
            current = string(new.as_slice());
        }
        k += 1;
    }
    current
}

/// Replaces what patterns with a replacement find in a file; `None` where that changes nothing.
pub fn fix_patterns(q: &KptQuery<'_>, patterns: &Vec<CompiledPattern>) -> (r: Option<String>)
    ensures
        match r {
            Some(text) => text@ == q.input().after_all(pattern_views(patterns@)) && text@
                != q.source@,
            None => q.input().after_all(pattern_views(patterns@)) == q.source@,
        },
{
    let ghost all = pattern_views(patterns@);
    let ghost f = q.input();
    let mut current = q.source.to_owned();
    let mut i: usize = 0;
    assert(all.take(0) =~= Seq::empty());
    while i < patterns.len()
        invariant
            i <= patterns@.len(),
            all == pattern_views(patterns@),
            f == q.input(),
            current@ == f.after_all(all.take(i as int)),
        decreases patterns@.len() - i,
    {
        let p = &patterns[i];
        assert(all.take(i + 1).drop_last() =~= all.take(i as int));
        assert(all.take(i + 1).last() == p@);
        match &p.replacement {
            Some(replacement) => {
                let letters = chars(current.as_str());
                if p.matches_file(q.path, q.config_dir, q.cwd) && letters.len() < usize::MAX {
                    if p.multiline {
                        current = replace_in_text(q, p, replacement.as_str(), current);
                    } else {
                        let new = replace_in_lines(q, p, replacement.as_str(), &letters);
                        current = string(new.as_slice());
                    }
                }
            },
            None => {},
        }
        i += 1;
    }
    assert(all.take(all.len() as int) =~= all);
    if eq(current.as_str(), q.source) {
        None
    } else {
        Some(current)
    }
}

// ---------------------------------------------------------------------------
// Laws
// ---------------------------------------------------------------------------

/// Where no pattern has a replacement the fixer changes nothing.
pub proof fn law_without_replacement_nothing_changes(f: FileInput, patterns: Seq<PatternView>)
    requires
        !any_replacement(patterns),
    ensures
        f.after_all(patterns) == f.source,
    decreases patterns.len(),
{
    if patterns.len() > 0 {
        let rest = patterns.drop_last();
        assert forall|i: int| 0 <= i < rest.len() implies (#[trigger] rest[i]).replacement is None by {
            assert(patterns[i].replacement is None);
        }
        law_without_replacement_nothing_changes(f, rest);
        assert(patterns[patterns.len() - 1].replacement is None);
    }
}

/// A pattern that finds nothing in a line leaves it, and so do its findings in the lines of a text.
proof fn lemma_lines_stay(f: FileInput, p: PatternView, replacement: Seq<char>, text: Seq<char>)
    requires
        forall|i: int|
            0 <= i < lines_spec(text).len() ==> widest(p.regexes, #[trigger] lines_spec(text)[i])
                is None || f.silences(lines_spec(text)[i], p.id),
    ensures
        f.lines_after(p, replacement, text) == text,
    decreases text.len(),
{
    let k = index_of(text, '\n');
    lemma_index_of(text, '\n');
    if text.len() > 0 {
        if k >= text.len() {
            assert(lines_spec(text)[0] == text);
        } else {
            let line = drop_cr(text.take(k));
            let rest = text.skip(k + 1);
            assert(lines_spec(text)[0] == line);
            assert forall|i: int| 0 <= i < lines_spec(rest).len() implies widest(
                p.regexes,
                #[trigger] lines_spec(rest)[i],
            ) is None || f.silences(lines_spec(rest)[i], p.id) by {
                assert(lines_spec(text)[i + 1] == lines_spec(rest)[i]);
            }
            lemma_lines_stay(f, p, replacement, rest);
            assert(line =~= text.take(line.len() as int));
            assert(line + text.subrange(line.len() as int, k + 1) + rest =~= text);
        }
    }
}

/// What finds nothing in the first `n` lines finds nothing in any of them.
pub proof fn lemma_no_line_found(f: FileInput, p: PatternView, n: int, i: int)
    requires
        0 <= i < n,
        f.in_lines(p, n).len() == 0,
    ensures
        widest(p.regexes, lines_spec(f.source)[i]) is None || f.quiet(i, p.id),
    decreases n,
{
    if i < n - 1 {
        lemma_no_line_found(f, p, n - 1, i);
    }
}

/// What finds nothing in the first `n` matches has each of them suppressed.
proof fn lemma_no_match_found(
    f: FileInput,
    p: PatternView,
    matches: Seq<(int, int)>,
    n: int,
    i: int,
)
    requires
        0 <= i < n,
        f.in_matches(p, matches, n).len() == 0,
    ensures
        f.quiet(f.line_at(matches[i].0) - 1, p.id),
    decreases n,
{
    if i < n - 1 {
        lemma_no_match_found(f, p, matches, n - 1, i);
    }
}

proof fn lemma_matches_stay(
    f: FileInput,
    p: PatternView,
    regex: Seq<char>,
    replacement: Seq<char>,
    n: int,
)
    requires
        0 <= n,
        f.in_matches(p, regex_find_all(regex, f.source), n).len() == 0,
    ensures
        f.matches_after(p, regex, replacement, f.source, n) == f.source,
    decreases n,
{
    if n > 0 {
        lemma_no_match_found(f, p, regex_find_all(regex, f.source), n, n - 1);
        lemma_matches_stay(f, p, regex, replacement, n - 1);
    }
}

proof fn lemma_text_stays(f: FileInput, p: PatternView, replacement: Seq<char>, n: int)
    requires
        0 <= n <= p.regexes.len(),
        f.in_text(p, n).len() == 0,
    ensures
        f.text_after(p, replacement, f.source, n) == f.source,
    decreases n,
{
    if n > 0 {
        let regex = p.regexes[n - 1];
        let matches = regex_find_all(regex, f.source);
        assert(f.in_text(p, n).len() == f.in_text(p, n - 1).len() + f.in_matches(
            p,
            matches,
            matches.len() as int,
        ).len());
        lemma_text_stays(f, p, replacement, n - 1);
        assert(f.with_source(f.source) == f);
        lemma_matches_stay(f, p, regex, replacement, matches.len() as int);
    }
}

/// A pattern that finds nothing in a file changes nothing in it.
pub proof fn law_pattern_without_findings_changes_nothing(f: FileInput, p: PatternView)
    requires
        f.findings(p).len() == 0,
    ensures
        f.after(p, f.source) == f.source,
{
    if p.replacement is Some && p.applies(f) {
        if p.multiline {
            lemma_text_stays(f, p, p.replacement->0, p.regexes.len() as int);
        } else {
            let lines = lines_spec(f.source);
            assert forall|i: int| 0 <= i < lines.len() implies widest(
                p.regexes,
                #[trigger] lines_spec(f.source)[i],
            ) is None || f.silences(lines_spec(f.source)[i], p.id) by {
                lemma_no_line_found(f, p, lines.len() as int, i);
            }
            lemma_lines_stay(f, p, p.replacement->0, f.source);
        }
    }
}

/// Where nothing is found, nothing is fixed.
pub proof fn law_without_findings_nothing_changes(f: FileInput, patterns: Seq<PatternView>)
    requires
        f.all_findings(patterns).len() == 0,
    ensures
        f.after_all(patterns) == f.source,
    decreases patterns.len(),
{
    if patterns.len() > 0 {
        let rest = patterns.drop_last();
        assert(f.all_findings(patterns).len() == f.all_findings(rest).len() + f.findings(
            patterns.last(),
        ).len());
        law_without_findings_nothing_changes(f, rest);
        law_pattern_without_findings_changes_nothing(f, patterns.last());
    }
}

/// A text whose lines cannot be counted stays as it is.
pub proof fn law_uncountable_text_stays(f: FileInput, patterns: Seq<PatternView>)
    requires
        !countable(f.source),
    ensures
        f.after_all(patterns) == f.source,
    decreases patterns.len(),
{
    if patterns.len() > 0 {
        law_uncountable_text_stays(f, patterns.drop_last());
    }
}

} // verus!
