//! The edits that turn one text into another, line by line.
use crate::diff::{diff_parts, line_parts, DiffPart};
use crate::lsp_position::{index_at, patched, Position, Range, TextEdit};
use crate::text::{chars, eq, find_char, index_of, lemma_index_of, lemma_index_of_is, part, string, strs};
use vstd::prelude::*;
use vstd::string::*;

verus! {

/// What a [`TextEdit`] says.
#[verifier::ext_equal]
pub struct TextEditView {
    pub range: Range,
    pub new_text: Seq<char>,
}

impl View for TextEdit {
    type V = TextEditView;

    open spec fn view(&self) -> TextEditView {
        TextEditView { range: self.range, new_text: self.new_text@ }
    }
}

/// What several edits say.
pub open spec fn text_edit_views(v: Seq<TextEdit>) -> Seq<TextEditView> {
    v.map_values(|e: TextEdit| e@)
}

// ---------------------------------------------------------------------------
// Lines
// ---------------------------------------------------------------------------

/// The lines of a text with their line ends.
pub open spec fn full_lines(s: Seq<char>) -> Seq<Seq<char>>
    decreases s.len(),
    via full_lines_decreases
{
    let k = index_of(s, '\n');
    if s.len() == 0 {
        Seq::empty()
    } else if k >= s.len() {
        seq![s]
    } else {
        seq![s.take(k + 1)] + full_lines(s.skip(k + 1))
    }
}

#[via_fn]
proof fn full_lines_decreases(s: Seq<char>) {
    lemma_index_of(s, '\n');
}

/// The lines of a text with their line ends.
pub fn split_full_lines(source: &str) -> (r: Vec<String>)
    ensures
        strs(r@) == full_lines(source@),
{
    let text = chars(source);
    let mut out: Vec<String> = Vec::new();
    let mut from: usize = 0;
    assert(source@.skip(0) =~= source@);
    assert(strs(out@) + full_lines(source@) =~= full_lines(source@));
    while from < text.len()
        invariant
            from <= text@.len(),
            text@ == source@,
            full_lines(source@) == strs(out@) + full_lines(source@.skip(from as int)),
        decreases text@.len() - from,
    {
        let ghost rest = source@.skip(from as int);
        let tail = part(text.as_slice(), from, text.len());
        assert(tail@ =~= rest);
        let k: usize = find_char(tail, '\n');
        let ghost before = out@;
        if k >= tail.len() {
            out.push(string(tail));
            assert(strs(out@) =~= strs(before).push(rest));
            assert(strs(before) + seq![rest] =~= strs(out@) + full_lines(
                source@.skip(source@.len() as int),
            ));
            from = text.len();
        } else {
            let line = part(tail, 0, k + 1);
            assert(line@ =~= rest.take(k + 1));
            out.push(string(line));
            assert(strs(out@) =~= strs(before).push(rest.take(k + 1)));
            assert(rest.skip(k + 1) =~= source@.skip(from + k + 1));
            assert(strs(before) + (seq![rest.take(k + 1)] + full_lines(rest.skip(k + 1))) =~= strs(
                out@,
            ) + full_lines(source@.skip(from + k + 1)));
            from = from + k + 1;
        }
    }
    assert(source@.skip(from as int) =~= Seq::empty());
    assert(strs(out@) + full_lines(Seq::empty()) =~= strs(out@));
    out
}

/// The text of the lines from `from` to `to`.
pub open spec fn joined_lines(lines: Seq<Seq<char>>, from: int, to: int) -> Seq<char>
    decreases to - from,
{
    if to <= from {
        Seq::empty()
    } else if 0 <= to - 1 < lines.len() {
        joined_lines(lines, from, to - 1) + lines[to - 1]
    } else {
        joined_lines(lines, from, to - 1)
    }
}

fn join_lines(lines: &Vec<String>, from: usize, to: usize) -> (r: String)
    ensures
        r@ == joined_lines(strs(lines@), from as int, to as int),
{
    let mut out = String::new();
    let mut i: usize = from;
    assert(out@ =~= Seq::empty());
    while i < to
        invariant
            from <= i,
            i <= to || i == from,
            out@ == joined_lines(strs(lines@), from as int, i as int),
        decreases to - i,
    {
        if i < lines.len() {
            assert(strs(lines@)[i as int] == lines@[i as int]@);
            out.append(lines[i].as_str());
        }
        i += 1;
    }
    out
}

// ---------------------------------------------------------------------------
// Hunks
// ---------------------------------------------------------------------------

/// A range of old lines, and the range of new lines that takes its place.
#[derive(Clone, Copy, Debug, PartialEq, Eq, Structural)]
pub struct Hunk {
    pub old_start: usize,
    pub old_end: usize,
    pub new_start: usize,
    pub new_end: usize,
}

/// The hunk that a part is.
pub open spec fn hunk_of(p: DiffPart) -> Hunk {
    Hunk {
        old_start: p.old_start,
        old_end: p.old_end,
        new_start: p.new_start,
        new_end: p.new_end,
    }
}

/// The hunks among the first `n` parts: parts that follow each other and are not equal make one.
pub open spec fn hunks_to(parts: Seq<DiffPart>, n: int) -> Seq<Hunk>
    decreases n,
{
    if n <= 0 {
        Seq::empty()
    } else {
        let before = hunks_to(parts, n - 1);
        let p = parts[n - 1];
        if p.equal {
            before
        } else if n == 1 || parts[n - 2].equal {
            before.push(hunk_of(p))
        } else {
            before.drop_last().push(
                Hunk { old_end: p.old_end, new_end: p.new_end, ..before.last() },
            )
        }
    }
}

/// The edit for a hunk.
pub open spec fn edit_of(h: Hunk, new_lines: Seq<Seq<char>>) -> TextEditView {
    TextEditView {
        range: Range {
            start: Position { line: h.old_start as u32, character: 0 },
            end: Position { line: h.old_end as u32, character: 0 },
        },
        new_text: joined_lines(new_lines, h.new_start as int, h.new_end as int),
    }
}

/// Where the last of several hunks ends in the old lines.
pub open spec fn hunks_end(hunks: Seq<Hunk>) -> int {
    if hunks.len() == 0 {
        0
    } else {
        hunks.last().old_end as int
    }
}

/// The old text with the hunks replaced, up to the end of the last hunk.
pub open spec fn replaced_head(
    hunks: Seq<Hunk>,
    old_lines: Seq<Seq<char>>,
    new_lines: Seq<Seq<char>>,
) -> Seq<char>
    decreases hunks.len(),
{
    if hunks.len() == 0 {
        Seq::empty()
    } else {
        let h = hunks.last();
        replaced_head(hunks.drop_last(), old_lines, new_lines) + joined_lines(
            old_lines,
            hunks_end(hunks.drop_last()),
            h.old_start as int,
        ) + joined_lines(new_lines, h.new_start as int, h.new_end as int)
    }
}

/// The old text with all hunks replaced.
pub open spec fn all_replaced(
    hunks: Seq<Hunk>,
    old_lines: Seq<Seq<char>>,
    new_lines: Seq<Seq<char>>,
) -> Seq<char> {
    replaced_head(hunks, old_lines, new_lines) + joined_lines(
        old_lines,
        hunks_end(hunks),
        old_lines.len() as int,
    )
}

/// Whether hunks lie in the old lines, one behind the other with at least a line between them.
pub open spec fn lie_apart(hunks: Seq<Hunk>, old_lines: Seq<Seq<char>>) -> bool {
    &&& forall|i: int|
        0 <= i < hunks.len() ==> (#[trigger] hunks[i]).old_start <= hunks[i].old_end
            <= old_lines.len()
    &&& forall|i: int|
        0 < i < hunks.len() ==> hunks_end(hunks.take(i)) < (#[trigger] hunks[i]).old_start
}

/// Whether replacing hunks turns one text into another.
pub open spec fn fits(hunks: Seq<Hunk>, source: Seq<char>, fixed: Seq<char>) -> bool {
    lie_apart(hunks, full_lines(source)) && all_replaced(
        hunks,
        full_lines(source),
        full_lines(fixed),
    ) == fixed
}

/// The hunk that replaces all lines.
pub open spec fn whole(source: Seq<char>, fixed: Seq<char>) -> Hunk {
    Hunk {
        old_start: 0,
        old_end: full_lines(source).len() as usize,
        new_start: 0,
        new_end: full_lines(fixed).len() as usize,
    }
}

/// The hunks by which one text is turned into another: none where they are the same, and else those
/// of the difference, or one that replaces all lines where they do not give the other text.
pub open spec fn chosen_hunks(source: Seq<char>, fixed: Seq<char>) -> Seq<Hunk> {
    let parts = line_parts(source, fixed);
    let hunks = hunks_to(parts, parts.len() as int);
    if source == fixed {
        Seq::empty()
    } else if fits(hunks, source, fixed) {
        hunks
    } else {
        seq![whole(source, fixed)]
    }
}

/// The edits that turn one text into another.
pub open spec fn line_edits(source: Seq<char>, fixed: Seq<char>) -> Seq<TextEditView> {
    chosen_hunks(source, fixed).map_values(|h: Hunk| edit_of(h, full_lines(fixed)))
}

proof fn lemma_hunk_open(parts: Seq<DiffPart>, n: int)
    requires
        0 < n <= parts.len(),
        !parts[n - 1].equal,
    ensures
        hunks_to(parts, n).len() > 0,
    decreases n,
{
    if n > 1 && !parts[n - 2].equal {
        lemma_hunk_open(parts, n - 1);
    }
}

fn find_hunks(parts: &Vec<DiffPart>) -> (r: Vec<Hunk>)
    ensures
        r@ == hunks_to(parts@, parts@.len() as int),
{
    let mut out: Vec<Hunk> = Vec::new();
    let mut i: usize = 0;
    let mut prev_equal = true;
    while i < parts.len()
        invariant
            i <= parts@.len(),
            prev_equal == (i == 0 || parts@[i - 1].equal),
            out@ == hunks_to(parts@, i as int),
        decreases parts@.len() - i,
    {
        let p = parts[i];
        if !p.equal {
            let hunk = Hunk {
                old_start: p.old_start,
                old_end: p.old_end,
                new_start: p.new_start,
                new_end: p.new_end,
            };
            if prev_equal {
                out.push(hunk);
            } else {
                proof {
                    lemma_hunk_open(parts@, i as int);
                }
                let last: usize = out.len() - 1;
                let grown = Hunk {
                    old_start: out[last].old_start,
                    old_end: p.old_end,
                    new_start: out[last].new_start,
                    new_end: p.new_end,
                };
                let ghost before = out@;
                out.set(last, grown);
                assert(out@ =~= before.drop_last().push(grown));
            }
        }
        prev_equal = p.equal;
        i += 1;
    }
    out
}

/// Whether hunks lie in the old lines, one behind the other with at least a line between them.
fn are_apart(hunks: &Vec<Hunk>, old_lines: &Vec<String>) -> (r: bool)
    ensures
        r == lie_apart(hunks@, strs(old_lines@)),
{
    let mut i: usize = 0;
    let ghost lines = strs(old_lines@);
    while i < hunks.len()
        invariant
            i <= hunks@.len(),
            lines == strs(old_lines@),
            forall|j: int|
                0 <= j < i ==> (#[trigger] hunks@[j]).old_start <= hunks@[j].old_end <= lines.len(),
            forall|j: int|
                0 < j < i ==> hunks_end(hunks@.take(j)) < (#[trigger] hunks@[j]).old_start,
        decreases hunks@.len() - i,
    {
        let h = hunks[i];
        if h.old_start > h.old_end || h.old_end > old_lines.len() {
            assert(!(hunks@[i as int].old_start <= hunks@[i as int].old_end <= lines.len()));
            return false;
        }
        assert(i > 0 ==> hunks@.take(i as int).last() == hunks@[i - 1]);
        if i > 0 && hunks[i - 1].old_end >= h.old_start {
            assert(!(hunks_end(hunks@.take(i as int)) < hunks@[i as int].old_start));
            return false;
        }
        i += 1;
    }
    true
}

/// Replaces hunks of the old lines by the new lines that take their place.
fn replace_hunks(hunks: &Vec<Hunk>, old_lines: &Vec<String>, new_lines: &Vec<String>) -> (r: String)
    ensures
        r@ == all_replaced(hunks@, strs(old_lines@), strs(new_lines@)),
{
    let mut out = String::new();
    let mut end: usize = 0;
    let mut i: usize = 0;
    assert(hunks@.take(0) =~= Seq::empty());
    assert(out@ =~= Seq::empty());
    while i < hunks.len()
        invariant
            i <= hunks@.len(),
            end == hunks_end(hunks@.take(i as int)),
            out@ == replaced_head(hunks@.take(i as int), strs(old_lines@), strs(new_lines@)),
        decreases hunks@.len() - i,
    {
        assert(hunks@.take(i + 1).drop_last() =~= hunks@.take(i as int));
        assert(hunks@.take(i + 1).last() == hunks@[i as int]);
        let h = hunks[i];
        out.append(join_lines(old_lines, end, h.old_start).as_str());
        out.append(join_lines(new_lines, h.new_start, h.new_end).as_str());
        end = h.old_end;
        i += 1;
    }
    assert(hunks@.take(hunks@.len() as int) =~= hunks@);
    out.append(join_lines(old_lines, end, old_lines.len()).as_str());
    out
}

/// The hunks by which one text is turned into another.
fn choose_hunks(
    source: &str,
    fixed: &str,
    old_lines: &Vec<String>,
    new_lines: &Vec<String>,
) -> (r: Vec<Hunk>)
    requires
        strs(old_lines@) == full_lines(source@),
        strs(new_lines@) == full_lines(fixed@),
    ensures
        r@ == chosen_hunks(source@, fixed@),
{
    if eq(source, fixed) {
        return Vec::new();
    }
    let parts = diff_parts(source, fixed);
    let hunks = find_hunks(&parts);
    if are_apart(&hunks, old_lines) && eq(
        replace_hunks(&hunks, old_lines, new_lines).as_str(),
        fixed,
    ) {
        return hunks;
    }
    let all = Hunk {
        old_start: 0,
        old_end: old_lines.len(),
        new_start: 0,
        new_end: new_lines.len(),
    };
    assert(strs(old_lines@).len() == old_lines@.len());
    assert(strs(new_lines@).len() == new_lines@.len());
    let mut out: Vec<Hunk> = Vec::new();
    out.push(all);
    assert(out@ =~= seq![whole(source@, fixed@)]);
    out
}

/// The edits that turn one text into another, one for each run of lines that differ.
pub fn line_diff_edits(source: &str, fixed: &str) -> (r: Vec<TextEdit>)
    ensures
        text_edit_views(r@) == line_edits(source@, fixed@),
        source@ == fixed@ ==> r@.len() == 0,
{
    let old_lines = split_full_lines(source);
    let new_lines = split_full_lines(fixed);
    let hunks = choose_hunks(source, fixed, &old_lines, &new_lines);
    let ghost all = line_edits(source@, fixed@);
    let mut out: Vec<TextEdit> = Vec::new();
    let mut i: usize = 0;
    assert(text_edit_views(out@) =~= all.take(0));
    while i < hunks.len()
        invariant
            i <= hunks@.len(),
            hunks@ == chosen_hunks(source@, fixed@),
            strs(new_lines@) == full_lines(fixed@),
            all == line_edits(source@, fixed@),
            text_edit_views(out@) == all.take(i as int),
        decreases hunks@.len() - i,
    {
        let h = hunks[i];
        let edit = TextEdit {
            range: Range {
                start: Position { line: h.old_start as u32, character: 0 },
                end: Position { line: h.old_end as u32, character: 0 },
            },
            new_text: join_lines(&new_lines, h.new_start, h.new_end),
        };
        let ghost before = out@;
        out.push(edit);
        assert(text_edit_views(out@) =~= text_edit_views(before).push(edit@));
        assert(edit@ == all[i as int]);
        assert(all.take(i + 1) =~= all.take(i as int).push(edit@));
        i += 1;
    }
    assert(all.take(all.len() as int) =~= all);
    assert(text_edit_views(out@).len() == out@.len());
    out
}

// ---------------------------------------------------------------------------
// Laws
// ---------------------------------------------------------------------------

/// A text with edits made, from the last one backwards so that the positions before each stay
/// valid.
pub open spec fn edited(s: Seq<char>, edits: Seq<TextEditView>) -> Seq<char>
    decreases edits.len(),
{
    if edits.len() == 0 {
        s
    } else {
        let e = edits.last();
        edited(patched(s, e.range, e.new_text), edits.drop_last())
    }
}

/// Whether a line ends in a line break, and has no other.
pub open spec fn is_complete(line: Seq<char>) -> bool {
    line.len() > 0 && index_of(line, '\n') == line.len() - 1
}

proof fn lemma_joined(lines: Seq<Seq<char>>, a: int, b: int, c: int)
    requires
        a <= b <= c,
    ensures
        joined_lines(lines, a, b) + joined_lines(lines, b, c) == joined_lines(lines, a, c),
    decreases c - b,
{
    if b < c {
        lemma_joined(lines, a, b, c - 1);
        if 0 <= c - 1 < lines.len() {
            assert(joined_lines(lines, a, b) + (joined_lines(lines, b, c - 1) + lines[c - 1])
                =~= joined_lines(lines, a, b) + joined_lines(lines, b, c - 1) + lines[c - 1]);
        }
    } else {
        assert(joined_lines(lines, a, b) + Seq::<char>::empty() =~= joined_lines(lines, a, b));
    }
}

/// The lines of a text make it up, and all but the last are complete.
proof fn lemma_full_lines(s: Seq<char>)
    ensures
        joined_lines(full_lines(s), 0, full_lines(s).len() as int) == s,
        forall|i: int| 0 <= i < full_lines(s).len() - 1 ==> is_complete(#[trigger] full_lines(s)[i]),
        full_lines(s).len() > 0 && !is_complete(full_lines(s).last()) ==> index_of(
            full_lines(s).last(),
            '\n',
        ) >= full_lines(s).last().len(),
    decreases s.len(),
{
    lemma_index_of(s, '\n');
    let k = index_of(s, '\n');
    let all = full_lines(s);
    if s.len() == 0 {
        assert(joined_lines(all, 0, 0) =~= s);
    } else if k >= s.len() {
        assert(all =~= seq![s]);
        assert(joined_lines(all, 0, 0) + all[0] =~= s);
    } else {
        let first = s.take(k + 1);
        let rest = full_lines(s.skip(k + 1));
        lemma_full_lines(s.skip(k + 1));
        assert(all =~= seq![first] + rest);
        assert(first[k] == '\n');
        assert(forall|j: int| 0 <= j < k ==> first[j] == s[j]);
        lemma_index_of_is(first, '\n', k);
        assert(is_complete(first));
        lemma_joined_behind(first, rest, rest.len() as int);
        assert(first + s.skip(k + 1) =~= s);
        assert forall|i: int| 0 <= i < all.len() - 1 implies is_complete(#[trigger] all[i]) by {
            if i > 0 {
                assert(all[i] == rest[i - 1]);
            }
        }
        if rest.len() > 0 {
            assert(all.last() == rest.last());
        }
    }
}

proof fn lemma_joined_behind(first: Seq<char>, rest: Seq<Seq<char>>, n: int)
    requires
        0 <= n <= rest.len(),
    ensures
        joined_lines(seq![first] + rest, 0, n + 1) == first + joined_lines(rest, 0, n),
    decreases n,
{
    let all = seq![first] + rest;
    if n == 0 {
        assert(joined_lines(all, 0, 0) + all[0] =~= first + joined_lines(rest, 0, 0));
    } else {
        lemma_joined_behind(first, rest, n - 1);
        assert(all[n] == rest[n - 1]);
        assert(first + joined_lines(rest, 0, n - 1) + rest[n - 1] =~= first + joined_lines(
            rest,
            0,
            n,
        ));
    }
}

proof fn lemma_behind_line(line: Seq<char>, rest: Seq<char>, n: int)
    requires
        is_complete(line),
        n > 0,
    ensures
        index_at(line + rest, n, 0) == line.len() + index_at(rest, n - 1, 0),
    decreases line.len(),
{
    let all = line + rest;
    lemma_index_of(line, '\n');
    assert(all[0] == line[0]);
    if line.len() == 1 {
        assert(all.skip(1) =~= rest);
    } else {
        assert(line[0] != '\n');
        assert(all.skip(1) =~= line.skip(1) + rest);
        lemma_behind_line(line.skip(1), rest, n);
    }
}

proof fn lemma_behind_text(s: Seq<char>, n: int)
    requires
        index_of(s, '\n') >= s.len(),
        n > 0,
    ensures
        index_at(s, n, 0) == s.len(),
    decreases s.len(),
{
    if s.len() > 0 {
        lemma_index_of(s, '\n');
        assert(s[0] != '\n');
        lemma_behind_text(s.skip(1), n);
    }
}

/// Behind complete lines begins the line whose number is how many they are.
proof fn lemma_line_start(lines: Seq<Seq<char>>, i: int, k: int, rest: Seq<char>, more: int)
    requires
        0 <= i <= k <= lines.len(),
        more >= 0,
        forall|j: int| i <= j < k ==> is_complete(#[trigger] lines[j]),
    ensures
        index_at(joined_lines(lines, i, k) + rest, k - i + more, 0) == joined_lines(
            lines,
            i,
            k,
        ).len() + index_at(rest, more, 0),
    decreases k - i,
{
    if i == k {
        assert(joined_lines(lines, i, k) + rest =~= rest);
    } else {
        lemma_line_start(lines, i + 1, k, rest, more);
        lemma_joined(lines, i, i + 1, k);
        assert(joined_lines(lines, i, i) + lines[i] =~= lines[i]);
        let tail = joined_lines(lines, i + 1, k) + rest;
        assert(joined_lines(lines, i, k) + rest =~= lines[i] + tail);
        lemma_behind_line(lines[i], tail, k - i + more);
    }
}

/// A line starts behind the lines before it; what stands beyond the last line is the end.
proof fn lemma_start_of(source: Seq<char>, k: int, e: int, behind: Seq<char>)
    requires
        0 <= k <= e <= full_lines(source).len(),
        k < e || (e == full_lines(source).len() && behind.len() == 0),
    ensures
        index_at(joined_lines(full_lines(source), 0, e) + behind, k, 0) == joined_lines(
            full_lines(source),
            0,
            k,
        ).len(),
{
    let lines = full_lines(source);
    lemma_full_lines(source);
    lemma_joined(lines, 0, k, e);
    let rest = joined_lines(lines, k, e) + behind;
    assert(joined_lines(lines, 0, e) + behind =~= joined_lines(lines, 0, k) + rest);
    if k < lines.len() || k == 0 || is_complete(lines.last()) {
        lemma_line_start(lines, 0, k, rest, 0);
        assert(index_at(rest, 0, 0) == 0);
    } else {
        let last = lines.last();
        lemma_joined(lines, 0, k - 1, k);
        assert(joined_lines(lines, k - 1, k) =~= last);
        assert(rest =~= Seq::empty());
        assert(joined_lines(lines, 0, k) + rest =~= joined_lines(lines, 0, k - 1) + last);
        lemma_line_start(lines, 0, k - 1, last, 1);
        lemma_behind_text(last, 1);
    }
}

proof fn lemma_edited(
    source: Seq<char>,
    new_lines: Seq<Seq<char>>,
    hunks: Seq<Hunk>,
    n: int,
    e: int,
    behind: Seq<char>,
)
    requires
        lie_apart(hunks, full_lines(source)),
        full_lines(source).len() <= u32::MAX,
        0 <= n <= hunks.len(),
        0 <= e <= full_lines(source).len(),
        n > 0 ==> hunks[n - 1].old_end < e || (e == full_lines(source).len() && behind.len() == 0),
    ensures
        edited(
            joined_lines(full_lines(source), 0, e) + behind,
            hunks.take(n).map_values(|h: Hunk| edit_of(h, new_lines)),
        ) == replaced_head(hunks.take(n), full_lines(source), new_lines) + joined_lines(
            full_lines(source),
            hunks_end(hunks.take(n)),
            e,
        ) + behind,
    decreases n,
{
    let lines = full_lines(source);
    let text = joined_lines(lines, 0, e) + behind;
    let edits = hunks.take(n).map_values(|h: Hunk| edit_of(h, new_lines));
    if n == 0 {
        assert(hunks.take(0) =~= Seq::empty());
        assert(Seq::<char>::empty() + joined_lines(lines, 0, e) =~= joined_lines(lines, 0, e));
    } else {
        let h = hunks[n - 1];
        let a = h.old_start as int;
        let b = h.old_end as int;
        assert(hunks.take(n).last() == h);
        assert(hunks.take(n).drop_last() =~= hunks.take(n - 1));
        assert(edits.last() == edit_of(h, new_lines));
        assert(edits.drop_last() =~= hunks.take(n - 1).map_values(
            |h: Hunk| edit_of(h, new_lines),
        ));
        lemma_start_of(source, a, e, behind);
        lemma_start_of(source, b, e, behind);
        lemma_joined(lines, 0, a, e);
        lemma_joined(lines, 0, b, e);
        let new = joined_lines(new_lines, h.new_start as int, h.new_end as int);
        let tail = new + joined_lines(lines, b, e) + behind;
        assert(patched(text, edits.last().range, new) =~= joined_lines(lines, 0, a) + tail);
        if n > 1 {
            assert(hunks.take(n - 1).last() == hunks[n - 2]);
        }
        lemma_edited(source, new_lines, hunks, n - 1, a, tail);
        let head = replaced_head(hunks.take(n - 1), lines, new_lines);
        let kept = joined_lines(lines, hunks_end(hunks.take(n - 1)), a);
        assert(head + kept + tail =~= head + kept + new + joined_lines(lines, b, e) + behind);
    }
}

proof fn lemma_chosen(source: Seq<char>, fixed: Seq<char>)
    requires
        full_lines(source).len() <= usize::MAX,
        full_lines(fixed).len() <= usize::MAX,
    ensures
        fits(chosen_hunks(source, fixed), source, fixed),
{
    let h = seq![whole(source, fixed)];
    let old_lines = full_lines(source);
    let new_lines = full_lines(fixed);
    lemma_full_lines(fixed);
    assert(h.drop_last() =~= Seq::empty());
    assert(replaced_head(h.drop_last(), old_lines, new_lines) =~= Seq::empty());
    assert(joined_lines(old_lines, 0, 0) =~= Seq::empty());
    assert(joined_lines(old_lines, old_lines.len() as int, old_lines.len() as int) =~= Seq::empty());
    assert(all_replaced(h, old_lines, new_lines) =~= fixed);
    let none = Seq::<Hunk>::empty();
    assert(replaced_head(none, old_lines, new_lines) =~= Seq::empty());
    if source == fixed {
        assert(all_replaced(none, old_lines, new_lines) =~= fixed);
    }
}

/// Making the edits turns the one text into the other, and no two of them touch.
pub proof fn law_edits_give_the_new_text(source: Seq<char>, fixed: Seq<char>)
    requires
        full_lines(source).len() <= u32::MAX,
        full_lines(fixed).len() <= usize::MAX,
    ensures
        edited(source, line_edits(source, fixed)) == fixed,
        forall|i: int, j: int|
            0 <= i < j < line_edits(source, fixed).len() ==> (#[trigger] line_edits(
                source,
                fixed,
            )[i]).range.end.line < (#[trigger] line_edits(source, fixed)[j]).range.start.line,
{
    let hunks = chosen_hunks(source, fixed);
    let lines = full_lines(source);
    let n = hunks.len() as int;
    lemma_chosen(source, fixed);
    lemma_full_lines(source);
    assert(hunks.take(n) =~= hunks);
    lemma_edited(source, full_lines(fixed), hunks, n, lines.len() as int, Seq::empty());
    assert(joined_lines(lines, 0, lines.len() as int) + Seq::<char>::empty() =~= source);
    assert(all_replaced(hunks, lines, full_lines(fixed)) + Seq::<char>::empty() =~= fixed);
    let edits = line_edits(source, fixed);
    assert forall|i: int, j: int| 0 <= i < j < edits.len() implies (
    #[trigger] edits[i]).range.end.line < (#[trigger] edits[j]).range.start.line by {
        lemma_far_apart(hunks, lines, i, j);
    }
}

proof fn lemma_far_apart(hunks: Seq<Hunk>, lines: Seq<Seq<char>>, i: int, j: int)
    requires
        lie_apart(hunks, lines),
        0 <= i < j < hunks.len(),
    ensures
        hunks[i].old_end < hunks[j].old_start <= hunks[j].old_end <= lines.len(),
    decreases j - i,
{
    assert(hunks.take(j).last() == hunks[j - 1]);
    assert(hunks[j].old_start <= hunks[j].old_end);
    if i < j - 1 {
        lemma_far_apart(hunks, lines, i, j - 1);
    }
}

/// Whether parts follow each other without a gap, make up both lists of lines, and say truly
/// which lines are the same.
pub open spec fn tiles(
    parts: Seq<DiffPart>,
    old_lines: Seq<Seq<char>>,
    new_lines: Seq<Seq<char>>,
) -> bool {
    &&& forall|i: int|
        0 <= i < parts.len() ==> {
            let p = #[trigger] parts[i];
            &&& p.old_start == old_end_of(parts, i) && p.old_start <= p.old_end <= old_lines.len()
            &&& p.new_start == new_end_of(parts, i) && p.new_start <= p.new_end <= new_lines.len()
            &&& p.equal ==> p.old_start < p.old_end && old_lines.subrange(
                p.old_start as int,
                p.old_end as int,
            ) == new_lines.subrange(p.new_start as int, p.new_end as int)
        }
    &&& old_end_of(parts, parts.len() as int) == old_lines.len()
    &&& new_end_of(parts, parts.len() as int) == new_lines.len()
}

/// Where the first `n` parts end in the old lines.
pub open spec fn old_end_of(parts: Seq<DiffPart>, n: int) -> int {
    if n <= 0 {
        0
    } else {
        parts[n - 1].old_end as int
    }
}

/// Where the first `n` parts end in the new lines.
pub open spec fn new_end_of(parts: Seq<DiffPart>, n: int) -> int {
    if n <= 0 {
        0
    } else {
        parts[n - 1].new_end as int
    }
}

proof fn lemma_same_lines(
    old_lines: Seq<Seq<char>>,
    new_lines: Seq<Seq<char>>,
    a: int,
    b: int,
    c: int,
    d: int,
)
    requires
        0 <= a <= b <= old_lines.len(),
        0 <= c <= d <= new_lines.len(),
        old_lines.subrange(a, b) == new_lines.subrange(c, d),
    ensures
        joined_lines(old_lines, a, b) == joined_lines(new_lines, c, d),
    decreases b - a,
{
    let x = old_lines.subrange(a, b);
    let y = new_lines.subrange(c, d);
    assert(x.len() == b - a && y.len() == d - c);
    if a < b {
        assert(x.drop_last() =~= old_lines.subrange(a, b - 1));
        assert(y.drop_last() =~= new_lines.subrange(c, d - 1));
        assert(x.last() == old_lines[b - 1]);
        assert(y.last() == new_lines[d - 1]);
        lemma_same_lines(old_lines, new_lines, a, b - 1, c, d - 1);
    }
}

proof fn lemma_followed(
    parts: Seq<DiffPart>,
    old_lines: Seq<Seq<char>>,
    new_lines: Seq<Seq<char>>,
    n: int,
)
    requires
        tiles(parts, old_lines, new_lines),
        0 <= n <= parts.len(),
    ensures
        ({
            let h = hunks_to(parts, n);
            &&& lie_apart(h, old_lines)
            &&& 0 <= hunks_end(h) <= old_end_of(parts, n) <= old_lines.len()
            &&& 0 <= new_end_of(parts, n) <= new_lines.len()
            &&& n > 0 && parts[n - 1].equal ==> h.len() == 0 || hunks_end(h) < old_end_of(parts, n)
            &&& n > 0 && !parts[n - 1].equal ==> h.len() > 0 && hunks_end(h) == old_end_of(parts, n)
                && h.last().new_end == new_end_of(parts, n) && h.last().new_start
                <= h.last().new_end
            &&& replaced_head(h, old_lines, new_lines) + joined_lines(
                old_lines,
                hunks_end(h),
                old_end_of(parts, n),
            ) == joined_lines(new_lines, 0, new_end_of(parts, n))
        }),
    decreases n,
{
    let h = hunks_to(parts, n);
    if n == 0 {
        assert(replaced_head(h, old_lines, new_lines) + joined_lines(old_lines, 0, 0)
            =~= joined_lines(new_lines, 0, 0));
    } else {
        lemma_followed(parts, old_lines, new_lines, n - 1);
        let before = hunks_to(parts, n - 1);
        let p = parts[n - 1];
        let o = old_end_of(parts, n - 1);
        let w = new_end_of(parts, n - 1);
        assert(p.old_start == o && p.new_start == w);
        let head = replaced_head(before, old_lines, new_lines);
        lemma_joined(new_lines, 0, w, p.new_end as int);
        if p.equal {
            lemma_joined(old_lines, hunks_end(before), o, p.old_end as int);
            lemma_same_lines(
                old_lines,
                new_lines,
                o,
                p.old_end as int,
                w,
                p.new_end as int,
            );
            assert(head + joined_lines(old_lines, hunks_end(before), p.old_end as int) =~= (head
                + joined_lines(old_lines, hunks_end(before), o)) + joined_lines(
                old_lines,
                o,
                p.old_end as int,
            ));
        } else if n == 1 || parts[n - 2].equal {
            assert(h.drop_last() =~= before);
            assert(joined_lines(old_lines, p.old_end as int, p.old_end as int) =~= Seq::empty());
            assert(replaced_head(h, old_lines, new_lines) + Seq::<char>::empty()
                =~= replaced_head(h, old_lines, new_lines));
            assert forall|i: int| 0 < i < h.len() implies hunks_end(h.take(i)) < (
            #[trigger] h[i]).old_start by {
                assert(h.take(i) =~= before.take(i));
                if i < before.len() {
                    assert(h[i] == before[i]);
                } else {
                    assert(before.take(i) =~= before);
                }
            }
        } else {
            let last = before.last();
            let first = before.drop_last();
            assert(h.drop_last() =~= first);
            let front = replaced_head(first, old_lines, new_lines) + joined_lines(
                old_lines,
                hunks_end(first),
                last.old_start as int,
            );
            assert(joined_lines(old_lines, hunks_end(before), o) =~= Seq::empty());
            assert(head + Seq::<char>::empty() =~= head);
            lemma_joined(new_lines, last.new_start as int, w, p.new_end as int);
            assert(front + (joined_lines(new_lines, last.new_start as int, w) + joined_lines(
                new_lines,
                w,
                p.new_end as int,
            )) =~= head + joined_lines(new_lines, w, p.new_end as int));
            assert(joined_lines(old_lines, p.old_end as int, p.old_end as int) =~= Seq::empty());
            assert(replaced_head(h, old_lines, new_lines) + Seq::<char>::empty()
                =~= replaced_head(h, old_lines, new_lines));
            let m = before.len() - 1;
            assert(before[m] == last);
            assert forall|i: int| 0 <= i < h.len() implies (#[trigger] h[i]).old_start
                <= h[i].old_end <= old_lines.len() by {
                if i < m {
                    assert(h[i] == before[i]);
                }
            }
            assert forall|i: int| 0 < i < h.len() implies hunks_end(h.take(i)) < (
            #[trigger] h[i]).old_start by {
                assert(h.take(i) =~= before.take(i));
                assert(h[i].old_start == before[i].old_start);
            }
        }
    }
}

/// Where the parts of the difference between two texts make up both, its hunks are the ones that
/// are used: one for each run of lines that differ.
pub proof fn law_difference_is_followed(source: Seq<char>, fixed: Seq<char>)
    requires
        source != fixed,
        tiles(line_parts(source, fixed), full_lines(source), full_lines(fixed)),
    ensures
        chosen_hunks(source, fixed) == hunks_to(
            line_parts(source, fixed),
            line_parts(source, fixed).len() as int,
        ),
{
    let parts = line_parts(source, fixed);
    lemma_followed(parts, full_lines(source), full_lines(fixed), parts.len() as int);
    lemma_full_lines(fixed);
}

} // verus!
