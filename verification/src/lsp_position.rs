//! Positions as language clients count them: by lines, and within a line by UTF-16 code units.
use crate::edit::{char_index, find_index};
use crate::split::split_spec;
use crate::text::{
    byte_len, char_width, chars, lemma_byte_len_monotone, part, push_all, strs, width,
};
use vstd::prelude::*;
use vstd::string::*;

verus! {

/// A position; both numbers count from 0.
#[derive(Clone, Copy, Debug, PartialEq, Eq, Structural)]
pub struct Position {
    pub line: u32,
    pub character: u32,
}

/// What lies between two positions.
#[derive(Clone, Copy, Debug, PartialEq, Eq, Structural)]
pub struct Range {
    pub start: Position,
    pub end: Position,
}

impl Range {
    /// Whether the range starts no later than it ends.
    pub open spec fn ordered(self) -> bool {
        self.start.line < self.end.line || (self.start.line == self.end.line
            && self.start.character <= self.end.character)
    }

    /// Whether the range starts no later than it ends.
    pub fn is_ordered(&self) -> (r: bool)
        ensures
            r == self.ordered(),
    {
        self.start.line < self.end.line || (self.start.line == self.end.line
            && self.start.character <= self.end.character)
    }
}

/// How many UTF-16 code units a character takes.
pub open spec fn units(c: char) -> int {
    if (c as u32) < 0x10000 {
        1
    } else {
        2
    }
}

fn count_units(c: char) -> (r: usize)
    ensures
        r == units(c),
{
    let n: u32 = c as u32;
    if n < 0x10000 {
        1
    } else {
        2
    }
}

/// How many line breaks a text has.
pub open spec fn breaks(s: Seq<char>) -> int
    decreases s.len(),
{
    if s.len() == 0 {
        0
    } else {
        breaks(s.drop_last()) + if s.last() == '\n' {
            1int
        } else {
            0
        }
    }
}

/// How many code units the last line of a text takes.
pub open spec fn last_line_units(s: Seq<char>) -> int
    decreases s.len(),
{
    if s.len() == 0 || s.last() == '\n' {
        0
    } else {
        last_line_units(s.drop_last()) + units(s.last())
    }
}

/// How many characters stand before a position: those of the lines before, and of its line as
/// many as take that many code units. A position beyond a line is its end, and one beyond the
/// text the end of the text.
pub open spec fn index_at(s: Seq<char>, line: int, character: int) -> int
    decreases s.len(),
{
    if s.len() == 0 {
        0
    } else if line <= 0 {
        if character <= 0 || s[0] == '\n' {
            0
        } else {
            1 + index_at(s.skip(1), 0, character - units(s[0]))
        }
    } else {
        1 + index_at(
            s.skip(1),
            if s[0] == '\n' {
                line - 1
            } else {
                line
            },
            character,
        )
    }
}

/// How many characters stand before a position.
pub fn find_position(s: &[char], pos: Position) -> (k: usize)
    ensures
        k == index_at(s@, pos.line as int, pos.character as int),
        k <= s@.len(),
{
    let mut i: usize = 0;
    let mut line: u32 = pos.line;
    let ghost all = s@;
    assert(all.skip(0) =~= all);
    while i < s.len() && line > 0
        invariant
            i <= s@.len(),
            all == s@,
            index_at(all, pos.line as int, pos.character as int) == i + index_at(
                all.skip(i as int),
                line as int,
                pos.character as int,
            ),
        decreases s@.len() - i,
    {
        assert(all.skip(i as int)[0] == all[i as int]);
        assert(all.skip(i as int).skip(1) =~= all.skip(i + 1));
        if s[i] == '\n' {
            line -= 1;
        }
        i += 1;
    }
    if i >= s.len() {
        return i;
    }
    let mut left: u32 = pos.character;
    let ghost mut due: int = pos.character as int;
    while i < s.len() && left > 0 && s[i] != '\n'
        invariant
            i <= s@.len(),
            all == s@,
            due == left || (due < 0 && left == 0),
            index_at(all, pos.line as int, pos.character as int) == i + index_at(
                all.skip(i as int),
                0,
                due,
            ),
        decreases s@.len() - i,
    {
        assert(all.skip(i as int)[0] == all[i as int]);
        assert(all.skip(i as int).skip(1) =~= all.skip(i + 1));
        let u: usize = count_units(s[i]);
        proof {
            due = due - units(s@[i as int]);
        }
        if left as usize >= u {
            left -= u as u32;
        } else {
            left = 0;
        }
        i += 1;
    }
    if i < s.len() {
        assert(all.skip(i as int)[0] == all[i as int]);
    }
    i
}

/// The byte offset of a position.
pub open spec fn offset_at(s: Seq<char>, pos: Position) -> int {
    byte_len(s.take(index_at(s, pos.line as int, pos.character as int))) as int
}

/// The byte offset of a position.
pub fn lsp_pos_to_byte_offset(source: &str, pos: Position) -> (r: usize)
    requires
        byte_len(source@) <= usize::MAX,
    ensures
        r == offset_at(source@, pos),
{
    let text = chars(source);
    let k: usize = find_position(text.as_slice(), pos);
    let mut total: usize = 0;
    let mut i: usize = 0;
    assert(source@.take(source@.len() as int) =~= source@);
    while i < k
        invariant
            i <= k <= text@.len(),
            text@ == source@,
            byte_len(source@) <= usize::MAX,
            source@.take(source@.len() as int) == source@,
            total == byte_len(source@.take(i as int)),
        decreases k - i,
    {
        assert(source@.take(i + 1).drop_last() =~= source@.take(i as int));
        proof {
            lemma_byte_len_monotone(source@, i + 1, source@.len() as int);
        }
        total = total + width(text[i]);
        i += 1;
    }
    total
}

/// The position behind a text.
pub open spec fn end_position(s: Seq<char>) -> Position {
    Position { line: breaks(s) as u32, character: last_line_units(s) as u32 }
}

/// The text before a byte offset; the whole text where the offset lies beyond it.
pub open spec fn text_before(s: Seq<char>, offset: int) -> Seq<char> {
    match char_index(s, offset) {
        Some(k) => s.take(k),
        None => s,
    }
}

/// The position behind the first `k` characters.
fn position_behind(s: &[char], k: usize) -> (r: Position)
    requires
        k <= s@.len(),
        byte_len(s@) <= usize::MAX,
    ensures
        r == end_position(s@.take(k as int)),
{
    let mut line: usize = 0;
    let mut character: usize = 0;
    let mut i: usize = 0;
    assert(s@.take(s@.len() as int) =~= s@);
    while i < k
        invariant
            i <= k <= s@.len(),
            byte_len(s@) <= usize::MAX,
            s@.take(s@.len() as int) == s@,
            line <= i,
            line == breaks(s@.take(i as int)),
            character == last_line_units(s@.take(i as int)),
            character <= byte_len(s@.take(i as int)),
        decreases k - i,
    {
        assert(s@.take(i + 1).drop_last() =~= s@.take(i as int));
        proof {
            lemma_byte_len_monotone(s@, i + 1, s@.len() as int);
        }
        if s[i] == '\n' {
            line += 1;
            character = 0;
        } else {
            assert(units(s@[i as int]) <= char_width(s@[i as int]));
            character = character + count_units(s[i]);
        }
        i += 1;
    }
    Position { line: line as u32, character: character as u32 }
}

/// The position of a byte offset that does not lie inside a character; an offset beyond the text
/// is its end.
pub fn byte_offset_to_lsp_pos(source: &str, offset: usize) -> (r: Position)
    requires
        byte_len(source@) <= usize::MAX,
        char_index(source@, offset as int) is Some || offset > byte_len(source@),
    ensures
        r == end_position(text_before(source@, offset as int)),
{
    let text = chars(source);
    match find_index(text.as_slice(), offset) {
        Some(k) => position_behind(text.as_slice(), k),
        None => {
            assert(source@.take(source@.len() as int) =~= source@);
            position_behind(text.as_slice(), text.len())
        },
    }
}

// ---------------------------------------------------------------------------
// Columns
// ---------------------------------------------------------------------------

/// How many code units the characters of a line take that start before a byte column.
pub open spec fn units_before(line: Seq<char>, col: int) -> int
    decreases line.len(),
{
    if line.len() == 0 || col <= 0 {
        0
    } else {
        units(line[0]) + units_before(line.skip(1), col - char_width(line[0]))
    }
}

/// How many code units the characters of a line take that start before a byte column.
fn count_units_before(line: &[char], col: usize) -> (r: u128)
    ensures
        r == units_before(line@, col as int),
{
    let ghost all = line@;
    let mut total: u128 = 0;
    let mut left: usize = col;
    let ghost mut due: int = col as int;
    let mut i: usize = 0;
    assert(all.skip(0) =~= all);
    while i < line.len() && left > 0
        invariant
            i <= line@.len(),
            all == line@,
            due == left || (due < 0 && left == 0),
            total <= 2 * i,
            units_before(all, col as int) == total + units_before(all.skip(i as int), due),
        decreases line@.len() - i,
    {
        assert(all.skip(i as int)[0] == all[i as int]);
        assert(all.skip(i as int).skip(1) =~= all.skip(i + 1));
        let w: usize = width(line[i]);
        proof {
            due = due - char_width(line@[i as int]);
        }
        if left >= w {
            left -= w;
        } else {
            left = 0;
        }
        total = total + count_units(line[i]) as u128;
        i += 1;
    }
    total
}

/// The column of a byte column in the 1-based line `line` of a text, as clients count it. Where the
/// text has no such line the byte column stands.
pub open spec fn client_column(source: Seq<char>, line: int, col: int) -> u32 {
    let lines = split_spec(source, '\n');
    if 1 <= line <= lines.len() {
        units_before(lines[line - 1], col) as u32
    } else {
        col as u32
    }
}

/// The column of a byte column in a line of a text that was split at its newlines.
pub(crate) fn find_client_column(lines: &Vec<String>, line: usize, col: usize) -> (r: u32)
    ensures
        forall|source: Seq<char>|
            strs(lines@) == #[trigger] split_spec(source, '\n') ==> r == client_column(
                source,
                line as int,
                col as int,
            ),
{
    assert(strs(lines@).len() == lines@.len());
    if 1 <= line && line <= lines.len() {
        assert(strs(lines@)[line - 1] == lines@[line - 1]@);
        let text = chars(lines[line - 1].as_str());
        count_units_before(text.as_slice(), col) as u32
    } else {
        col as u32
    }
}

// ---------------------------------------------------------------------------
// Edits
// ---------------------------------------------------------------------------

/// A range of a text, and what takes its place.
#[derive(Clone, Debug)]
pub struct TextEdit {
    pub range: Range,
    pub new_text: String,
}

/// A text with a range replaced.
pub open spec fn patched(s: Seq<char>, range: Range, new: Seq<char>) -> Seq<char> {
    s.take(index_at(s, range.start.line as int, range.start.character as int)) + new + s.skip(
        index_at(s, range.end.line as int, range.end.character as int),
    )
}

/// Replaces a range of a text.
pub fn patch(s: &[char], range: Range, new: &[char]) -> (r: Vec<char>)
    requires
        range.ordered(),
    ensures
        r@ == patched(s@, range, new@),
{
    let i: usize = find_position(s, range.start);
    let j: usize = find_position(s, range.end);
    proof {
        lemma_index_ordered(
            s@,
            range.start.line as int,
            range.start.character as int,
            range.end.line as int,
            range.end.character as int,
        );
    }
    let mut out: Vec<char> = Vec::new();
    push_all(&mut out, part(s, 0, i));
    push_all(&mut out, new);
    push_all(&mut out, part(s, j, s.len()));
    assert(s@.subrange(0, i as int) =~= s@.take(i as int));
    assert(s@.subrange(j as int, s@.len() as int) =~= s@.skip(j as int));
    assert(out@ =~= patched(s@, range, new@));
    out
}

/// The edit that replaces a whole document.
pub fn full_document_edit(old_source: &str, new_source: &str) -> (r: TextEdit)
    requires
        byte_len(old_source@) <= usize::MAX,
    ensures
        r.range.start == (Position { line: 0, character: 0 }),
        r.range.end == end_position(old_source@),
        r.new_text@ == new_source@,
{
    let text = chars(old_source);
    assert(old_source@.take(old_source@.len() as int) =~= old_source@);
    TextEdit {
        range: Range {
            start: Position { line: 0, character: 0 },
            end: position_behind(text.as_slice(), text.len()),
        },
        new_text: new_source.to_owned(),
    }
}

// ---------------------------------------------------------------------------
// Laws
// ---------------------------------------------------------------------------

/// A position that is no later than another has no more characters before it.
pub proof fn lemma_index_ordered(s: Seq<char>, l1: int, c1: int, l2: int, c2: int)
    requires
        0 <= l1 < l2 || (0 <= l1 == l2 && c1 <= c2),
    ensures
        0 <= index_at(s, l1, c1) <= index_at(s, l2, c2) <= s.len(),
    decreases s.len(),
{
    if s.len() > 0 {
        let rest = s.skip(1);
        let down = if s[0] == '\n' {
            1int
        } else {
            0int
        };
        if l1 == 0 && l2 == 0 {
            lemma_index_ordered(rest, 0, c1 - units(s[0]), 0, c2 - units(s[0]));
        } else if l1 == 0 {
            if s[0] == '\n' {
                lemma_index_ordered(rest, l2 - 1, c2, l2 - 1, c2);
            } else {
                lemma_index_ordered(rest, 0, c1 - units(s[0]), l2, c2);
            }
        } else {
            lemma_index_ordered(rest, l1 - down, c1, l2 - down, c2);
        }
    }
}

proof fn lemma_breaks_grow(s: Seq<char>, j: int, k: int)
    requires
        0 <= j <= k <= s.len(),
    ensures
        0 <= breaks(s.take(j)) <= breaks(s.take(k)),
        0 <= last_line_units(s.take(j)),
        breaks(s.take(j)) == breaks(s.take(k)) ==> last_line_units(s.take(j)) + (k - j)
            <= last_line_units(s.take(k)),
        j < k && breaks(s.take(j)) == breaks(s.take(k)) ==> s[j] != '\n',
    decreases k, k - j,
{
    if j < k {
        assert(s.take(k).drop_last() =~= s.take(k - 1));
        lemma_breaks_grow(s, j, k - 1);
    } else if j > 0 {
        assert(s.take(j).drop_last() =~= s.take(j - 1));
        lemma_breaks_grow(s, j - 1, j - 1);
    }
}

/// The position behind `k` characters, read from behind the first `j` of them.
proof fn lemma_round_trip_from(s: Seq<char>, j: int, k: int)
    requires
        0 <= j <= k <= s.len(),
    ensures
        ({
            let line = breaks(s.take(k)) - breaks(s.take(j));
            let character = if line == 0 {
                last_line_units(s.take(k)) - last_line_units(s.take(j))
            } else {
                last_line_units(s.take(k))
            };
            index_at(s.skip(j), line, character) == k - j
        }),
    decreases k - j,
{
    lemma_breaks_grow(s, j, k);
    if j < k {
        lemma_round_trip_from(s, j + 1, k);
        lemma_breaks_grow(s, j + 1, k);
        lemma_breaks_grow(s, j, j + 1);
        assert(s.take(j + 1).drop_last() =~= s.take(j));
        assert(s.skip(j)[0] == s[j]);
        assert(s.skip(j).skip(1) =~= s.skip(j + 1));
    }
}

/// The position behind a part of a text leads back to the end of that part, wherever the numbers of
/// the position are not too large for one.
pub proof fn law_position_round_trip(s: Seq<char>, k: int)
    requires
        0 <= k <= s.len(),
        breaks(s.take(k)) <= u32::MAX,
        last_line_units(s.take(k)) <= u32::MAX,
    ensures
        ({
            let pos = end_position(s.take(k));
            index_at(s, pos.line as int, pos.character as int) == k && offset_at(s, pos)
                == byte_len(s.take(k))
        }),
{
    lemma_round_trip_from(s, 0, k);
    lemma_breaks_grow(s, 0, k);
    assert(s.skip(0) =~= s);
    assert(s.take(0) =~= Seq::empty());
    lemma_breaks_grow(s, k, k);
}

proof fn lemma_breaks_from_front(s: Seq<char>)
    requires
        s.len() > 0,
    ensures
        breaks(s) == breaks(s.skip(1)) + if s[0] == '\n' {
            1int
        } else {
            0
        },
    decreases s.len(),
{
    if s.len() > 1 {
        lemma_breaks_from_front(s.drop_last());
        assert(s.drop_last().skip(1) =~= s.skip(1).drop_last());
        assert(s.skip(1).last() == s.last());
    } else {
        assert(s.skip(1) =~= Seq::empty());
        assert(s.drop_last() =~= Seq::empty());
    }
}

proof fn lemma_position_in_line(s: Seq<char>, line: int, character: int)
    requires
        0 <= line,
    ensures
        0 <= index_at(s, line, character) <= s.len(),
        breaks(s) >= 0,
        line > breaks(s) ==> index_at(s, line, character) == s.len(),
        line <= breaks(s) ==> breaks(s.take(index_at(s, line, character))) == line,
    decreases s.len(),
{
    if s.len() > 0 {
        let rest = s.skip(1);
        lemma_breaks_from_front(s);
        let k = index_at(s, line, character);
        if line == 0 {
            if character <= 0 || s[0] == '\n' {
                lemma_position_in_line(rest, 0, 0);
                assert(s.take(0) =~= Seq::empty());
            } else {
                lemma_position_in_line(rest, 0, character - units(s[0]));
                lemma_breaks_from_front(s.take(k));
                assert(s.take(k).skip(1) =~= rest.take(k - 1));
            }
        } else {
            let next = if s[0] == '\n' {
                line - 1
            } else {
                line
            };
            lemma_position_in_line(rest, next, character);
            lemma_breaks_from_front(s.take(k));
            assert(s.take(k).skip(1) =~= rest.take(k - 1));
        }
    } else {
        assert(s.take(0) =~= Seq::empty());
    }
}

/// Every position leads into the text, between two characters: to its end where the line is beyond
/// the last, and else to a place in that line.
pub proof fn law_positions_lead_into_the_text(s: Seq<char>, pos: Position)
    ensures
        ({
            let k = index_at(s, pos.line as int, pos.character as int);
            &&& 0 <= k <= s.len()
            &&& offset_at(s, pos) == byte_len(s.take(k)) <= byte_len(s)
            &&& pos.line > breaks(s) ==> k == s.len()
            &&& pos.line <= breaks(s) ==> breaks(s.take(k)) == pos.line
        }),
{
    lemma_position_in_line(s, pos.line as int, pos.character as int);
    let k = index_at(s, pos.line as int, pos.character as int);
    lemma_byte_len_monotone(s, k, s.len() as int);
    assert(s.take(s.len() as int) =~= s);
}

/// Replacing a whole document by the edit for that gives the new text.
pub proof fn law_full_edit_replaces_all(s: Seq<char>, new: Seq<char>)
    requires
        breaks(s) <= u32::MAX,
        last_line_units(s) <= u32::MAX,
    ensures
        patched(
            s,
            Range { start: Position { line: 0, character: 0 }, end: end_position(s) },
            new,
        ) == new,
{
    assert(s.take(s.len() as int) =~= s);
    law_position_round_trip(s, s.len() as int);
    assert(s.take(0) + new + s.skip(s.len() as int) =~= new);
}

} // verus!
