//! What splitting, joining, trimming and counting keep of a text.
use crate::split::{
    concat_spec, decimal, digit, drop_cr, head_spec, join_spec, lines_spec, split_spec, word_len,
};
use crate::text::{
    after_last, byte_len, char_width, find_spec, first_at, index_of, is_space, lemma_first_unique,
    lemma_index_of, lemma_index_of_is, occurs, occurs_at, trim_end_spec, trim_spec,
    trim_start_spec,
};
use vstd::prelude::*;

verus! {

// ---------------------------------------------------------------------------
// Splitting and joining
// ---------------------------------------------------------------------------

/// The pieces of a text with the separator put back between them are the text, and no piece holds
/// the separator.
pub proof fn law_pieces_make_up_the_text(s: Seq<char>, sep: char)
    ensures
        split_spec(s, sep).len() > 0,
        join_spec(split_spec(s, sep), seq![sep]) == s,
        forall|i: int, j: int|
            0 <= i < split_spec(s, sep).len() && 0 <= j < split_spec(s, sep)[i].len()
                ==> #[trigger] split_spec(s, sep)[i][j] != sep,
    decreases s.len(),
{
    let k = index_of(s, sep);
    lemma_index_of(s, sep);
    let parts = split_spec(s, sep);
    if k < s.len() {
        let rest = s.skip(k + 1);
        law_pieces_make_up_the_text(rest, sep);
        let others = split_spec(rest, sep);
        assert(parts =~= seq![s.take(k)] + others);
        law_joining_two_lists(seq![s.take(k)], others, seq![sep]);
        assert(s.take(k) + seq![sep] + rest =~= s);
        assert forall|i: int, j: int| 0 <= i < parts.len() && 0 <= j < parts[i].len() implies
            #[trigger] parts[i][j] != sep by {
            if i > 0 {
                assert(parts[i] == others[i - 1]);
                assert(others[i - 1][j] != sep);
            } else {
                assert(parts[0] == s.take(k));
            }
        }
    } else {
        assert(parts =~= seq![s]);
    }
}

/// Pieces that hold no separator are got back from the text that they make up.
pub proof fn law_joined_pieces_are_got_back(parts: Seq<Seq<char>>, sep: char)
    requires
        parts.len() > 0,
        forall|i: int, j: int|
            0 <= i < parts.len() && 0 <= j < parts[i].len() ==> #[trigger] parts[i][j] != sep,
    ensures
        split_spec(join_spec(parts, seq![sep]), sep) == parts,
    decreases parts.len(),
{
    let first = parts[0];
    assert forall|j: int| 0 <= j < first.len() implies first[j] != sep by {
        assert(parts[0][j] != sep);
    }
    if parts.len() == 1 {
        lemma_index_of_is(first, sep, first.len() as int);
        assert(parts =~= seq![first]);
        assert(split_spec(first, sep) =~= parts);
    } else {
        let rest = parts.skip(1);
        assert forall|i: int, j: int| 0 <= i < rest.len() && 0 <= j < rest[i].len() implies
            #[trigger] rest[i][j] != sep by {
            assert(parts[i + 1][j] != sep);
        }
        law_joined_pieces_are_got_back(rest, sep);
        assert(parts =~= seq![first] + rest);
        law_joining_two_lists(seq![first], rest, seq![sep]);
        let whole = join_spec(parts, seq![sep]);
        let tail = join_spec(rest, seq![sep]);
        assert(whole == first + seq![sep] + tail);
        assert(whole[first.len() as int] == sep);
        assert(forall|j: int| 0 <= j < first.len() ==> whole[j] == first[j]);
        lemma_index_of_is(whole, sep, first.len() as int);
        assert(whole.take(first.len() as int) =~= first);
        assert(whole.skip(first.len() as int + 1) =~= tail);
    }
}

/// Two lists joined are the one joined, the separator, and the other joined.
pub proof fn law_joining_two_lists(a: Seq<Seq<char>>, b: Seq<Seq<char>>, sep: Seq<char>)
    requires
        a.len() > 0,
        b.len() > 0,
    ensures
        join_spec(a + b, sep) == join_spec(a, sep) + sep + join_spec(b, sep),
    decreases b.len(),
{
    let all = a + b;
    assert(all.last() == b.last());
    if b.len() == 1 {
        assert(all.drop_last() =~= a);
    } else {
        law_joining_two_lists(a, b.drop_last(), sep);
        assert(all.drop_last() =~= a + b.drop_last());
        assert(join_spec(a, sep) + sep + join_spec(b.drop_last(), sep) + sep + b.last()
            =~= join_spec(a, sep) + sep + (join_spec(b.drop_last(), sep) + sep + b.last()));
    }
}

/// Joining nothing gives nothing, and joining one text that text.
pub proof fn law_joining_at_most_one(s: Seq<char>, sep: Seq<char>)
    ensures
        join_spec(Seq::empty(), sep).len() == 0,
        join_spec(seq![s], sep) == s,
        concat_spec(Seq::empty()).len() == 0,
        concat_spec(seq![s]) == s,
{
    assert(seq![s].drop_last() =~= Seq::empty());
    assert(concat_spec(seq![s].drop_last()) =~= Seq::empty());
    assert(Seq::<char>::empty() + s =~= s);
}

/// Two lists of texts one after the other are the texts of the one and then those of the other.
pub proof fn law_concatenating_two_lists(a: Seq<Seq<char>>, b: Seq<Seq<char>>)
    ensures
        concat_spec(a + b) == concat_spec(a) + concat_spec(b),
    decreases b.len(),
{
    let all = a + b;
    if b.len() == 0 {
        assert(all =~= a);
        assert(concat_spec(a) + Seq::<char>::empty() =~= concat_spec(a));
    } else {
        law_concatenating_two_lists(a, b.drop_last());
        assert(all.drop_last() =~= a + b.drop_last());
        assert(all.last() == b.last());
        assert(concat_spec(a) + concat_spec(b.drop_last()) + b.last() =~= concat_spec(a) + (
        concat_spec(b.drop_last()) + b.last()));
    }
}

/// What stands before the first separator holds none, and is all of the text or ends there.
pub proof fn law_head_ends_at_the_first_separator(s: Seq<char>, sep: char)
    ensures
        ({
            let h = head_spec(s, sep);
            &&& forall|i: int| 0 <= i < h.len() ==> #[trigger] h[i] != sep
            &&& h == s || (h.len() < s.len() && s[h.len() as int] == sep && s.take(h.len() as int)
                == h)
        }),
{
    lemma_index_of(s, sep);
    assert(s.take(s.len() as int) =~= s);
    let h = head_spec(s, sep);
    assert(s.take(h.len() as int) =~= h);
}

// ---------------------------------------------------------------------------
// Lines
// ---------------------------------------------------------------------------

/// A text with a newline has the line before it, without a carriage return at its end, and then
/// the lines of what follows.
pub proof fn law_lines_end_at_newlines(line: Seq<char>, rest: Seq<char>)
    requires
        forall|i: int| 0 <= i < line.len() ==> #[trigger] line[i] != '\n',
    ensures
        lines_spec(line + seq!['\n'] + rest) == seq![
            if line.len() > 0 && line.last() == '\r' {
                line.drop_last()
            } else {
                line
            },
        ] + lines_spec(rest),
        line.len() > 0 ==> lines_spec(line) == seq![line],
        lines_spec(Seq::empty()).len() == 0,
{
    let s = line + seq!['\n'] + rest;
    let k = line.len() as int;
    assert(s[k] == '\n');
    assert(forall|j: int| 0 <= j < k ==> s[j] == line[j]);
    lemma_index_of_is(s, '\n', k);
    assert(s.take(k) =~= line);
    assert(s.skip(k + 1) =~= rest);
    lemma_index_of_is(line, '\n', k);
}

/// How many newlines a text has.
pub open spec fn newlines(s: Seq<char>) -> nat
    decreases s.len(),
{
    if s.len() == 0 {
        0
    } else {
        newlines(s.drop_last()) + if s.last() == '\n' {
            1nat
        } else {
            0
        }
    }
}

proof fn lemma_newlines_add(a: Seq<char>, b: Seq<char>)
    ensures
        newlines(a + b) == newlines(a) + newlines(b),
    decreases b.len(),
{
    let all = a + b;
    if b.len() == 0 {
        assert(all =~= a);
    } else {
        lemma_newlines_add(a, b.drop_last());
        assert(all.drop_last() =~= a + b.drop_last());
        assert(all.last() == b.last());
    }
}

proof fn lemma_no_newlines(s: Seq<char>)
    requires
        forall|i: int| 0 <= i < s.len() ==> #[trigger] s[i] != '\n',
    ensures
        newlines(s) == 0,
    decreases s.len(),
{
    if s.len() > 0 {
        assert(s[s.len() - 1] != '\n');
        assert forall|i: int| 0 <= i < s.drop_last().len() implies #[trigger] s.drop_last()[i]
            != '\n' by {
            assert(s[i] != '\n');
        }
        lemma_no_newlines(s.drop_last());
    }
}

/// A text has as many lines as newlines, and one more where something follows the last newline. No
/// line holds a newline.
pub proof fn law_lines_are_counted_by_newlines(s: Seq<char>)
    ensures
        lines_spec(s).len() == newlines(s) + if s.len() > 0 && s.last() != '\n' {
            1nat
        } else {
            0
        },
        forall|i: int, j: int|
            0 <= i < lines_spec(s).len() && 0 <= j < lines_spec(s)[i].len()
                ==> #[trigger] lines_spec(s)[i][j] != '\n',
    decreases s.len(),
{
    let k = index_of(s, '\n');
    lemma_index_of(s, '\n');
    let lines = lines_spec(s);
    if s.len() > 0 {
        if k >= s.len() {
            lemma_no_newlines(s);
            assert(s[s.len() - 1] != '\n');
        } else {
            let rest = s.skip(k + 1);
            law_lines_are_counted_by_newlines(rest);
            lemma_no_newlines(s.take(k));
            assert(seq!['\n'].drop_last() =~= Seq::empty());
            assert(newlines(seq!['\n'].drop_last()) == 0);
            assert(newlines(seq!['\n']) == 1);
            assert(s =~= s.take(k) + (seq!['\n'] + rest));
            lemma_newlines_add(seq!['\n'], rest);
            lemma_newlines_add(s.take(k), seq!['\n'] + rest);
            if rest.len() > 0 {
                assert(rest.last() == s.last());
            }
            let others = lines_spec(rest);
            assert forall|i: int, j: int| 0 <= i < lines.len() && 0 <= j < lines[i].len() implies
                #[trigger] lines[i][j] != '\n' by {
                if i > 0 {
                    assert(lines[i] == others[i - 1]);
                    assert(others[i - 1][j] != '\n');
                } else {
                    assert(lines[0] == drop_cr(s.take(k)));
                    assert(lines[0][j] == s[j]);
                }
            }
        }
    }
}

// ---------------------------------------------------------------------------
// Trimming
// ---------------------------------------------------------------------------

/// Whether a text is white space all through.
pub open spec fn is_blank(s: Seq<char>) -> bool {
    forall|i: int| 0 <= i < s.len() ==> is_space(#[trigger] s[i])
}

proof fn lemma_trim_start(s: Seq<char>) -> (k: int)
    ensures
        0 <= k <= s.len(),
        is_blank(s.take(k)),
        trim_start_spec(s) == s.skip(k),
        k < s.len() ==> !is_space(s[k]),
    decreases s.len(),
{
    if s.len() > 0 && is_space(s[0]) {
        let k = lemma_trim_start(s.skip(1));
        assert(s.skip(1).skip(k) =~= s.skip(k + 1));
        assert forall|i: int| 0 <= i < k + 1 implies is_space(#[trigger] s.take(k + 1)[i]) by {
            if i > 0 {
                assert(s.skip(1).take(k)[i - 1] == s[i]);
            }
        }
        k + 1
    } else {
        assert(s.skip(0) =~= s);
        0
    }
}

proof fn lemma_trim_end(s: Seq<char>) -> (k: int)
    ensures
        0 <= k <= s.len(),
        is_blank(s.skip(k)),
        trim_end_spec(s) == s.take(k),
        k > 0 ==> !is_space(s[k - 1]),
    decreases s.len(),
{
    if s.len() > 0 && is_space(s.last()) {
        let k = lemma_trim_end(s.drop_last());
        assert(s.drop_last().take(k) =~= s.take(k));
        assert forall|i: int| 0 <= i < s.skip(k).len() implies is_space(#[trigger] s.skip(k)[i]) by {
            if i < s.skip(k).len() - 1 {
                assert(s.drop_last().skip(k)[i] == s[k + i]);
            }
        }
        k
    } else {
        assert(s.take(s.len() as int) =~= s);
        s.len() as int
    }
}

/// Trimming takes white space off both ends and nothing else, until none is left there.
pub proof fn law_trimming_takes_white_space_off_the_ends(s: Seq<char>) -> (ends: (
    Seq<char>,
    Seq<char>,
))
    ensures
        s == ends.0 + trim_spec(s) + ends.1,
        is_blank(ends.0),
        is_blank(ends.1),
        trim_spec(s).len() > 0 ==> !is_space(trim_spec(s)[0]) && !is_space(trim_spec(s).last()),
{
    let a = lemma_trim_start(s);
    let t = trim_start_spec(s);
    let b = lemma_trim_end(t);
    assert(s =~= s.take(a) + t.take(b) + t.skip(b));
    if b > 0 {
        assert(t.take(b)[0] == s[a]);
    }
    (s.take(a), t.skip(b))
}

/// Trimming at one end takes white space off there and nothing else, until none is left.
pub proof fn law_trimming_one_end(s: Seq<char>) -> (ends: (Seq<char>, Seq<char>))
    ensures
        s == ends.0 + trim_start_spec(s),
        s == trim_end_spec(s) + ends.1,
        is_blank(ends.0),
        is_blank(ends.1),
        trim_start_spec(s).len() > 0 ==> !is_space(trim_start_spec(s)[0]),
        trim_end_spec(s).len() > 0 ==> !is_space(trim_end_spec(s).last()),
{
    let a = lemma_trim_start(s);
    let b = lemma_trim_end(s);
    assert(s =~= s.take(a) + s.skip(a));
    assert(s =~= s.take(b) + s.skip(b));
    (s.take(a), s.skip(b))
}

/// The first word of a text ends at its first white space.
pub proof fn law_words_end_at_white_space(s: Seq<char>)
    ensures
        0 <= word_len(s) <= s.len(),
        forall|i: int| 0 <= i < word_len(s) ==> !is_space(#[trigger] s[i]),
        word_len(s) < s.len() ==> is_space(s[word_len(s)]),
    decreases s.len(),
{
    if s.len() > 0 && !is_space(s[0]) {
        law_words_end_at_white_space(s.skip(1));
        assert forall|i: int| 0 <= i < word_len(s) implies !is_space(#[trigger] s[i]) by {
            if i > 0 {
                assert(s.skip(1)[i - 1] == s[i]);
            }
        }
    }
}

// ---------------------------------------------------------------------------
// Searching
// ---------------------------------------------------------------------------

proof fn lemma_first(s: Seq<char>, p: Seq<char>, k: int) -> (i: int)
    requires
        occurs_at(s, p, k),
    ensures
        first_at(s, p, i),
        i <= k,
    decreases k,
{
    if exists|j: int| 0 <= j < k && occurs_at(s, p, j) {
        lemma_first(s, p, choose|j: int| 0 <= j < k && occurs_at(s, p, j))
    } else {
        k
    }
}

/// What is found in a text stands there, and nowhere before; nothing is found only where it stands
/// nowhere.
pub proof fn law_the_first_place_is_found(s: Seq<char>, p: Seq<char>)
    ensures
        match find_spec(s, p) {
            Some(i) => 0 <= i && i + p.len() <= s.len() && s.subrange(i, i + p.len()) == p
                && forall|j: int|
                0 <= j < i ==> #[trigger] s.subrange(j, j + p.len()) != p,
            None => forall|j: int|
                0 <= j && j + p.len() <= s.len() ==> #[trigger] s.subrange(j, j + p.len()) != p,
        },
{
    if occurs(s, p) {
        let k = choose|k: int| occurs_at(s, p, k);
        let i = lemma_first(s, p, k);
        lemma_first_unique(s, p, i);
        assert forall|j: int| 0 <= j < i implies #[trigger] s.subrange(j, j + p.len()) != p by {
            assert(!occurs_at(s, p, j));
        }
    } else {
        assert forall|j: int| 0 <= j && j + p.len() <= s.len() implies #[trigger] s.subrange(
            j,
            j + p.len(),
        ) != p by {
            assert(!occurs_at(s, p, j));
        }
    }
}

/// The place behind the last of a character: nothing behind it is that character.
pub proof fn law_the_last_place_is_found(s: Seq<char>, c: char)
    ensures
        0 <= after_last(s, c) <= s.len(),
        forall|i: int| after_last(s, c) <= i < s.len() ==> #[trigger] s[i] != c,
        after_last(s, c) > 0 ==> s[after_last(s, c) - 1] == c,
    decreases s.len(),
{
    if s.len() > 0 && s.last() != c {
        law_the_last_place_is_found(s.drop_last(), c);
        assert forall|i: int| after_last(s, c) <= i < s.len() implies #[trigger] s[i] != c by {
            if i < s.len() - 1 {
                assert(s.drop_last()[i] == s[i]);
            }
        }
    }
}

// ---------------------------------------------------------------------------
// Numbers and bytes
// ---------------------------------------------------------------------------

/// The number that decimal digits stand for.
pub open spec fn value_of(s: Seq<char>) -> int
    decreases s.len(),
{
    if s.len() == 0 {
        0
    } else {
        10 * value_of(s.drop_last()) + (s.last() as u32 - '0' as u32)
    }
}

/// A number in decimal is made of digits, stands for the number, and has no needless zero in front.
pub proof fn law_decimals_stand_for_their_number(n: nat)
    ensures
        decimal(n).len() > 0,
        value_of(decimal(n)) == n,
        forall|i: int| 0 <= i < decimal(n).len() ==> '0' <= #[trigger] decimal(n)[i] <= '9',
        n > 0 ==> decimal(n)[0] != '0',
    decreases n,
{
    let d = decimal(n);
    assert(digit((n % 10) as nat) as u32 == '0' as u32 + n % 10);
    if n < 10 {
        assert(d.drop_last() =~= Seq::empty());
        assert(value_of(d.drop_last()) == 0);
    } else {
        law_decimals_stand_for_their_number(n / 10);
        let front = decimal(n / 10);
        assert(d.drop_last() =~= front);
        assert forall|i: int| 0 <= i < d.len() implies '0' <= #[trigger] d[i] <= '9' by {
            if i < front.len() {
                assert(d[i] == front[i]);
            }
        }
        assert(d[0] == front[0]);
    }
}

/// The bytes of two texts one after the other are the bytes of both.
pub proof fn law_bytes_add_up(a: Seq<char>, b: Seq<char>)
    ensures
        byte_len(a + b) == byte_len(a) + byte_len(b),
        b.len() == 1 ==> byte_len(b) == char_width(b[0]),
        byte_len(Seq::empty()) == 0,
    decreases b.len(),
{
    let all = a + b;
    if b.len() == 0 {
        assert(all =~= a);
    } else {
        law_bytes_add_up(a, b.drop_last());
        assert(all.drop_last() =~= a + b.drop_last());
        assert(all.last() == b.last());
        if b.len() == 1 {
            assert(b.drop_last() =~= Seq::empty());
        }
    }
}

} // verus!
