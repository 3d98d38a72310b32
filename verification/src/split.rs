//! Splitting and joining texts, lines, and decimal numbers.
use crate::text::{chars, find_char, index_of, is_space, lemma_index_of, part, space, string, strs};
use vstd::prelude::*;
use vstd::string::*;

verus! {

// ---------------------------------------------------------------------------
// Splitting at a character
// ---------------------------------------------------------------------------

/// The pieces of `s` between the occurrences of `sep`.
pub open spec fn split_spec(s: Seq<char>, sep: char) -> Seq<Seq<char>>
    decreases s.len(),
    via split_decreases
{
    let k = index_of(s, sep);
    if k >= s.len() {
        seq![s]
    } else {
        seq![s.take(k)] + split_spec(s.skip(k + 1), sep)
    }
}

#[via_fn]
proof fn split_decreases(s: Seq<char>, sep: char) {
    lemma_index_of(s, sep);
}

/// There is always at least one piece.
pub proof fn lemma_split_nonempty(s: Seq<char>, sep: char)
    ensures
        split_spec(s, sep).len() > 0,
{
    reveal_with_fuel(split_spec, 1);
}

/// The pieces of `s` between the occurrences of `sep`.
pub fn split(s: &[char], sep: char) -> (r: Vec<String>)
    ensures
        strs(r@) == split_spec(s@, sep),
{
    let mut out: Vec<String> = Vec::new();
    let mut from: usize = 0;
    assert(s@.skip(0) =~= s@);
    assert(strs(out@) + split_spec(s@, sep) =~= split_spec(s@, sep));
    loop
        invariant
            from <= s@.len(),
            strs(out@) + split_spec(s@.skip(from as int), sep) == split_spec(s@, sep),
        decreases s@.len() - from,
    {
        let rest = part(s, from, s.len());
        assert(rest@ =~= s@.skip(from as int));
        let k: usize = find_char(rest, sep);
        let ghost before = strs(out@);
        if k == rest.len() {
            out.push(string(rest));
            assert(strs(out@) =~= before.push(rest@));
            assert(split_spec(rest@, sep) =~= seq![rest@]);
            assert(before + seq![rest@] =~= before.push(rest@));
            return out;
        }
        let piece = part(rest, 0, k);
        assert(piece@ =~= rest@.take(k as int));
        out.push(string(piece));
        assert(strs(out@) =~= before.push(piece@));
        assert(rest@.skip(k + 1) =~= s@.skip(from + k + 1));
        assert(before.push(piece@) + split_spec(s@.skip(from + k + 1), sep) =~= before + (
        seq![piece@] + split_spec(s@.skip(from + k + 1), sep)));
        from = from + k + 1;
    }
}

/// The part of `s` before the first `sep`, or all of it.
pub open spec fn head_spec(s: Seq<char>, sep: char) -> Seq<char> {
    s.take(index_of(s, sep))
}

/// The part of `s` before the first `sep`, or all of it.
pub fn head(s: &str, sep: char) -> (r: String)
    ensures
        r@ == head_spec(s@, sep),
{
    let c = chars(s);
    let k: usize = find_char(c.as_slice(), sep);
    assert(c@.subrange(0, k as int) =~= c@.take(k as int));
    string(part(c.as_slice(), 0, k))
}

// ---------------------------------------------------------------------------
// Joining
// ---------------------------------------------------------------------------

/// The pieces one after the other with `sep` between them.
pub open spec fn join_spec(parts: Seq<Seq<char>>, sep: Seq<char>) -> Seq<char>
    decreases parts.len(),
{
    if parts.len() == 0 {
        Seq::empty()
    } else if parts.len() == 1 {
        parts[0]
    } else {
        join_spec(parts.drop_last(), sep) + sep + parts.last()
    }
}

/// The first `n` pieces with `sep` between them.
pub fn join_first(parts: &Vec<String>, n: usize, sep: &str) -> (r: String)
    requires
        n <= parts@.len(),
    ensures
        r@ == join_spec(strs(parts@).take(n as int), sep@),
{
    let mut out = String::new();
    let mut i: usize = 0;
    assert(join_spec(strs(parts@).take(0), sep@) =~= Seq::empty());
    while i < n
        invariant
            i <= n <= parts@.len(),
            out@ == join_spec(strs(parts@).take(i as int), sep@),
        decreases n - i,
    {
        let ghost all = strs(parts@).take(i + 1);
        assert(all.drop_last() =~= strs(parts@).take(i as int));
        assert(all.last() == parts@[i as int]@);
        if i > 0 {
            out.append(sep);
        }
        out.append(parts[i].as_str());
        if i == 0 {
            assert(all[0] == parts@[0]@);
            assert(out@ =~= parts@[0]@);
        }
        i += 1;
    }
    out
}

/// The pieces one after the other with `sep` between them.
pub fn join(parts: &Vec<String>, sep: &str) -> (r: String)
    ensures
        r@ == join_spec(strs(parts@), sep@),
{
    assert(strs(parts@).take(parts@.len() as int) =~= strs(parts@));
    join_first(parts, parts.len(), sep)
}

/// The pieces one after the other.
pub open spec fn concat_spec(parts: Seq<Seq<char>>) -> Seq<char>
    decreases parts.len(),
{
    if parts.len() == 0 {
        Seq::empty()
    } else {
        concat_spec(parts.drop_last()) + parts.last()
    }
}

/// The pieces one after the other.
pub fn concat(parts: &Vec<String>) -> (r: String)
    ensures
        r@ == concat_spec(strs(parts@)),
{
    let mut out = String::new();
    let mut i: usize = 0;
    assert(strs(parts@).take(0) =~= Seq::empty());
    while i < parts.len()
        invariant
            i <= parts@.len(),
            out@ == concat_spec(strs(parts@).take(i as int)),
        decreases parts@.len() - i,
    {
        let ghost all = strs(parts@).take(i + 1);
        assert(all.drop_last() =~= strs(parts@).take(i as int));
        assert(all.last() == parts@[i as int]@);
        out.append(parts[i].as_str());
        i += 1;
    }
    assert(strs(parts@).take(parts@.len() as int) =~= strs(parts@));
    out
}

// ---------------------------------------------------------------------------
// Lines
// ---------------------------------------------------------------------------

/// A line's text without the carriage return before its newline.
pub open spec fn drop_cr(s: Seq<char>) -> Seq<char> {
    if s.len() > 0 && s.last() == '\r' {
        s.drop_last()
    } else {
        s
    }
}

/// The lines of a text without their line ends; a newline at the very end opens no line.
pub open spec fn lines_spec(s: Seq<char>) -> Seq<Seq<char>>
    decreases s.len(),
    via lines_decreases
{
    let k = index_of(s, '\n');
    if s.len() == 0 {
        Seq::empty()
    } else if k >= s.len() {
        seq![s]
    } else {
        seq![drop_cr(s.take(k))] + lines_spec(s.skip(k + 1))
    }
}

#[via_fn]
proof fn lines_decreases(s: Seq<char>) {
    lemma_index_of(s, '\n');
}

/// The lines of a text.
pub fn lines(s: &[char]) -> (r: Vec<String>)
    ensures
        strs(r@) == lines_spec(s@),
{
    let mut out: Vec<String> = Vec::new();
    let mut from: usize = 0;
    assert(s@.skip(0) =~= s@);
    assert(strs(out@) + lines_spec(s@) =~= lines_spec(s@));
    while from < s.len()
        invariant
            from <= s@.len(),
            strs(out@) + lines_spec(s@.skip(from as int)) == lines_spec(s@),
        decreases s@.len() - from,
    {
        let rest = part(s, from, s.len());
        assert(rest@ =~= s@.skip(from as int));
        let k: usize = find_char(rest, '\n');
        let ghost before = strs(out@);
        if k == rest.len() {
            out.push(string(rest));
            assert(strs(out@) =~= before.push(rest@));
            assert(before + seq![rest@] =~= before.push(rest@));
            return out;
        }
        let whole = part(rest, 0, k);
        assert(whole@ =~= rest@.take(k as int));
        let line = if whole.len() > 0 && whole[whole.len() - 1] == '\r' {
            part(whole, 0, whole.len() - 1)
        } else {
            whole
        };
        assert(line@ =~= drop_cr(whole@));
        out.push(string(line));
        assert(strs(out@) =~= before.push(line@));
        assert(rest@.skip(k + 1) =~= s@.skip(from + k + 1));
        assert(before.push(line@) + lines_spec(s@.skip(from + k + 1)) =~= before + (seq![line@]
            + lines_spec(s@.skip(from + k + 1))));
        from = from + k + 1;
    }
    assert(s@.skip(from as int) =~= Seq::<char>::empty());
    assert(strs(out@) + Seq::<Seq<char>>::empty() =~= strs(out@));
    out
}

/// The lines of a string.
pub fn str_lines(s: &str) -> (r: Vec<String>)
    ensures
        strs(r@) == lines_spec(s@),
{
    let c = chars(s);
    lines(c.as_slice())
}

// ---------------------------------------------------------------------------
// Words
// ---------------------------------------------------------------------------

/// The length of the longest prefix without white space.
pub open spec fn word_len(s: Seq<char>) -> int
    decreases s.len(),
{
    if s.len() == 0 || is_space(s[0]) {
        0
    } else {
        1 + word_len(s.skip(1))
    }
}

/// The length of the longest prefix without white space.
pub fn find_space(s: &[char]) -> (r: usize)
    ensures
        r == word_len(s@),
        r <= s@.len(),
        forall|j: int| 0 <= j < r ==> !is_space(s@[j]),
        r < s@.len() ==> is_space(s@[r as int]),
{
    let mut i: usize = 0;
    assert(s@.skip(0) =~= s@);
    while i < s.len() && !space(s[i])
        invariant
            i <= s@.len(),
            word_len(s@) == i + word_len(s@.skip(i as int)),
            forall|j: int| 0 <= j < i ==> !is_space(s@[j]),
        decreases s@.len() - i,
    {
        assert(s@.skip(i as int).skip(1) =~= s@.skip(i + 1));
        i += 1;
    }
    i
}

// ---------------------------------------------------------------------------
// Numbers
// ---------------------------------------------------------------------------

/// The decimal digit of a number below ten.
pub open spec fn digit(n: nat) -> char {
    ('0' as u32 + n) as u32 as char
}

/// A number in decimal.
pub open spec fn decimal(n: nat) -> Seq<char>
    decreases n,
{
    if n < 10 {
        seq![digit(n)]
    } else {
        decimal(n / 10).push(digit(n % 10))
    }
}

fn digit_char(n: u64) -> (c: char)
    requires
        n < 10,
    ensures
        c == digit(n as nat),
{
    match n {
        0 => '0',
        1 => '1',
        2 => '2',
        3 => '3',
        4 => '4',
        5 => '5',
        6 => '6',
        7 => '7',
        8 => '8',
        _ => '9',
    }
}

/// A number in decimal.
pub fn number(n: u64) -> (r: String)
    ensures
        r@ == decimal(n as nat),
    decreases n,
{
    if n < 10 {
        let mut s = String::new();
        s.push(digit_char(n));
        assert(s@ =~= seq![digit(n as nat)]);
        s
    } else {
        let mut s = number(n / 10);
        s.push(digit_char(n % 10));
        s
    }
}

} // verus!
