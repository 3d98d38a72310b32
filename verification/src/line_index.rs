//! Where the lines of a source text start, and the line and column of a byte offset.
use crate::text::{byte_len, chars, lemma_byte_len_monotone, width};
use vstd::prelude::*;

verus! {

/// The byte offset at which each line starts: 0, and just past every newline.
pub open spec fn line_starts_of(s: Seq<char>) -> Seq<int>
    decreases s.len(),
{
    if s.len() == 0 {
        seq![0int]
    } else {
        let before = line_starts_of(s.drop_last());
        if s.last() == '\n' {
            before.push(byte_len(s) as int)
        } else {
            before
        }
    }
}

/// The offsets in `starts` as integers.
pub open spec fn offsets(starts: Seq<u32>) -> Seq<int> {
    starts.map_values(|x: u32| x as int)
}

/// The first line starts at 0 and every line starts after the one before it.
pub open spec fn ascending(starts: Seq<int>) -> bool {
    &&& starts.len() > 0
    &&& starts[0] == 0
    &&& forall|i: int, j: int| 0 <= i < j < starts.len() ==> starts[i] < starts[j]
}

/// The lines of any text start one after the other, inside the text.
pub proof fn lemma_line_starts_ascending(s: Seq<char>)
    ensures
        ascending(line_starts_of(s)),
        line_starts_of(s).last() <= byte_len(s),
    decreases s.len(),
{
    if s.len() > 0 {
        lemma_line_starts_ascending(s.drop_last());
        assert(s.take(s.len() - 1) =~= s.drop_last());
        assert(s.take(s.len() as int) =~= s);
        lemma_byte_len_monotone(s, s.len() - 1, s.len() as int);
    }
}

/// The 1-based line that holds a byte offset.
pub open spec fn line_of(starts: Seq<int>, offset: int) -> int
    decreases starts.len(),
{
    if starts.len() <= 1 || starts.last() <= offset {
        starts.len() as int
    } else {
        line_of(starts.drop_last(), offset)
    }
}

/// The 0-based byte column of a byte offset in its line.
pub open spec fn col_of(starts: Seq<int>, offset: int) -> int {
    offset - starts[line_of(starts, offset) - 1]
}

/// The line of an offset is the only one that starts at or before it with the next line, if
/// there is one, after it.
pub proof fn lemma_line_of(starts: Seq<int>, offset: int, line: int)
    requires
        ascending(starts),
        0 < line <= starts.len(),
        starts[line - 1] <= offset,
        line < starts.len() ==> offset < starts[line],
    ensures
        line_of(starts, offset) == line,
    decreases starts.len(),
{
    if starts.len() > 1 && starts.last() > offset {
        assert(line < starts.len());
        lemma_line_of(starts.drop_last(), offset, line);
    } else if line < starts.len() {
        assert(starts[line] <= starts.last());
    }
}

/// Every offset lies in a line: it is the line's start and the column together.
pub proof fn law_line_and_column(starts: Seq<int>, offset: int)
    requires
        ascending(starts),
        0 <= offset,
    ensures
        1 <= line_of(starts, offset) <= starts.len(),
        starts[line_of(starts, offset) - 1] + col_of(starts, offset) == offset,
        col_of(starts, offset) >= 0,
        line_of(starts, offset) < starts.len() ==> offset < starts[line_of(starts, offset)],
    decreases starts.len(),
{
    if starts.len() > 1 && starts.last() > offset {
        law_line_and_column(starts.drop_last(), offset);
    }
}

/// The byte offset at which each line of `source` starts.
pub fn build_line_starts(source: &str) -> (r: Vec<u32>)
    requires
        byte_len(source@) <= u32::MAX,
    ensures
        offsets(r@) == line_starts_of(source@),
        ascending(offsets(r@)),
{
    let text = chars(source);
    let mut starts: Vec<u32> = Vec::new();
    starts.push(0);
    let mut offset: u32 = 0;
    let mut i: usize = 0;
    assert(offsets(starts@) =~= seq![0int]);
    assert(text@.take(text@.len() as int) =~= text@);
    while i < text.len()
        invariant
            i <= text@.len(),
            text@.take(text@.len() as int) == text@,
            offset == byte_len(text@.take(i as int)),
            byte_len(text@) <= u32::MAX,
            offsets(starts@) == line_starts_of(text@.take(i as int)),
        decreases text@.len() - i,
    {
        proof {
            lemma_byte_len_monotone(text@, i + 1, text@.len() as int);
            assert(text@.take(i + 1).drop_last() =~= text@.take(i as int));
            assert(text@.take(i + 1).last() == text@[i as int]);
        }
        let w: usize = width(text[i]);
        offset = offset + w as u32;
        if text[i] == '\n' {
            let ghost before = starts@;
            starts.push(offset);
            assert(offsets(starts@) =~= offsets(before).push(offset as int));
        }
        i += 1;
    }
    proof {
        lemma_line_starts_ascending(text@);
    }
    starts
}

/// The 1-based line and the 0-based byte column of a byte offset.
pub fn offset_to_line_col(line_starts: &Vec<u32>, offset: u32) -> (r: (usize, usize))
    requires
        ascending(offsets(line_starts@)),
    ensures
        r.0 == line_of(offsets(line_starts@), offset as int),
        r.1 == col_of(offsets(line_starts@), offset as int),
        1 <= r.0 <= line_starts@.len(),
        r.1 <= offset,
{
    let ghost starts = offsets(line_starts@);
    let mut low: usize = 0;
    let mut high: usize = line_starts.len();
    assert(starts[0] == line_starts@[0]);
    while high - low > 1
        invariant
            starts == offsets(line_starts@),
            ascending(starts),
            low < high <= line_starts@.len(),
            starts[low as int] <= offset,
            high < line_starts@.len() ==> offset < starts[high as int],
        decreases high - low,
    {
        let mid: usize = low + (high - low) / 2;
        assert(starts[mid as int] == line_starts@[mid as int]);
        if line_starts[mid] <= offset {
            low = mid;
        } else {
            high = mid;
        }
    }
    proof {
        lemma_line_of(starts, offset as int, low + 1);
        assert(starts[low as int] == line_starts@[low as int]);
        assert(starts.len() == line_starts@.len());
    }
    (low + 1, (offset - line_starts[low]) as usize)
}

/// A line starts at 0 and right behind every newline, and nowhere else.
pub proof fn law_lines_start_behind_newlines(s: Seq<char>, x: int)
    ensures
        line_starts_of(s).contains(x) <==> x == 0 || exists|k: int|
            0 <= k < s.len() && #[trigger] s[k] == '\n' && x == byte_len(s.take(k + 1)),
    decreases s.len(),
{
    let starts = line_starts_of(s);
    if s.len() == 0 {
        assert(starts[0] == 0);
    } else {
        let rest = s.drop_last();
        law_lines_start_behind_newlines(rest, x);
        let prior = line_starts_of(rest);
        let n = s.len() as int;
        assert(s.take(n) =~= s);
        if prior.contains(x) {
            let i = choose|i: int| 0 <= i < prior.len() && prior[i] == x;
            assert(starts[i] == x);
            if x != 0 {
                let k = choose|k: int|
                    0 <= k < rest.len() && #[trigger] rest[k] == '\n' && x == byte_len(
                        rest.take(k + 1),
                    );
                assert(s[k] == '\n');
                assert(rest.take(k + 1) =~= s.take(k + 1));
            }
        }
        if s.last() == '\n' {
            assert(starts[starts.len() - 1] == byte_len(s));
            assert(s[n - 1] == '\n');
        }
        if starts.contains(x) {
            let i = choose|i: int| 0 <= i < starts.len() && starts[i] == x;
            if i < prior.len() {
                assert(prior[i] == x);
            }
        }
        if exists|k: int| 0 <= k < s.len() && #[trigger] s[k] == '\n' && x == byte_len(s.take(k + 1)) {
            let k = choose|k: int|
                0 <= k < s.len() && #[trigger] s[k] == '\n' && x == byte_len(s.take(k + 1));
            if k < rest.len() {
                assert(rest[k] == '\n');
                assert(rest.take(k + 1) =~= s.take(k + 1));
            }
        }
    }
}

} // verus!
