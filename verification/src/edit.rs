//! Replacing spans of bytes in a text.
use crate::text::{byte_len, lemma_byte_len_monotone, part, push_all, width};
use vstd::prelude::*;

verus! {

/// How many characters of `s` make up its first `offset` bytes; `None` where the offset lies
/// beyond the text or inside a character.
pub open spec fn char_index(s: Seq<char>, offset: int) -> Option<int>
    decreases s.len(),
{
    if byte_len(s) == offset {
        Some(s.len() as int)
    } else if s.len() == 0 {
        None
    } else {
        char_index(s.drop_last(), offset)
    }
}

/// A character position stands at the byte offset that its prefix takes.
pub proof fn lemma_char_index_of_prefix(s: Seq<char>, k: int)
    requires
        0 <= k <= s.len(),
    ensures
        char_index(s, byte_len(s.take(k)) as int) == Some(k),
    decreases s.len(),
{
    if k == s.len() {
        assert(s.take(k) =~= s);
    } else {
        lemma_byte_len_monotone(s, k, s.len() as int);
        assert(s.take(s.len() as int) =~= s);
        assert(s.drop_last().take(k) =~= s.take(k));
        lemma_char_index_of_prefix(s.drop_last(), k);
    }
}

/// The prefix before a character position takes as many bytes as its offset says.
pub proof fn lemma_char_index_is_prefix(s: Seq<char>, offset: int)
    ensures
        match char_index(s, offset) {
            Some(k) => 0 <= k <= s.len() && byte_len(s.take(k)) == offset,
            None => true,
        },
    decreases s.len(),
{
    assert(s.take(s.len() as int) =~= s);
    if byte_len(s) != offset && s.len() > 0 {
        lemma_char_index_is_prefix(s.drop_last(), offset);
        match char_index(s, offset) {
            Some(k) => {
                assert(s.drop_last().take(k) =~= s.take(k));
            },
            None => {},
        }
    }
}

/// How many characters of `s` make up its first `offset` bytes.
pub fn find_index(s: &[char], offset: usize) -> (r: Option<usize>)
    ensures
        match r {
            Some(k) => char_index(s@, offset as int) == Some(k as int) && k <= s@.len(),
            None => char_index(s@, offset as int) is None,
        },
{
    let mut at: usize = 0;
    let mut k: usize = 0;
    while k < s.len() && at < offset
        invariant
            k <= s@.len(),
            at == byte_len(s@.take(k as int)),
            at <= offset,
        decreases s@.len() - k,
    {
        assert(s@.take(k + 1).drop_last() =~= s@.take(k as int));
        let w: usize = width(s[k]);
        if offset - at < w {
            proof {
                lemma_no_index(s@, k as int, offset as int);
            }
            return None;
        }
        at = at + w;
        k += 1;
    }
    if at == offset {
        proof {
            lemma_char_index_of_prefix(s@, k as int);
        }
        Some(k)
    } else {
        proof {
            assert(s@.take(k as int) =~= s@);
            lemma_too_far(s@, offset as int);
        }
        None
    }
}

proof fn lemma_no_index(s: Seq<char>, k: int, offset: int)
    requires
        0 <= k < s.len(),
        byte_len(s.take(k)) < offset < byte_len(s.take(k + 1)),
    ensures
        char_index(s, offset) is None,
{
    lemma_char_index_is_prefix(s, offset);
    match char_index(s, offset) {
        Some(j) => {
            if j <= k {
                lemma_byte_len_monotone(s, j, k);
            } else {
                lemma_byte_len_monotone(s, k + 1, j);
            }
        },
        None => {},
    }
}

proof fn lemma_too_far(s: Seq<char>, offset: int)
    requires
        byte_len(s) < offset,
    ensures
        char_index(s, offset) is None,
{
    lemma_char_index_is_prefix(s, offset);
    assert(s.take(s.len() as int) =~= s);
    match char_index(s, offset) {
        Some(j) => {
            lemma_byte_len_monotone(s, j, s.len() as int);
        },
        None => {},
    }
}

/// `s` with its bytes from `start` to `end` replaced by `new`. A span that is no run of whole
/// characters of `s` replaces nothing.
pub open spec fn replaced(s: Seq<char>, start: int, end: int, new: Seq<char>) -> Seq<char> {
    match (char_index(s, start), char_index(s, end)) {
        (Some(a), Some(b)) => if a <= b {
            s.take(a) + new + s.skip(b)
        } else {
            s
        },
        _ => s,
    }
}

/// Replaces the bytes from `start` to `end`.
pub fn replace_range(s: &mut Vec<char>, start: usize, end: usize, new: &[char])
    ensures
        final(s)@ == replaced(old(s)@, start as int, end as int, new@),
{
    match (find_index(s.as_slice(), start), find_index(s.as_slice(), end)) {
        (Some(a), Some(b)) => {
            if a <= b {
                let mut out: Vec<char> = Vec::new();
                push_all(&mut out, part(s.as_slice(), 0, a));
                push_all(&mut out, new);
                push_all(&mut out, part(s.as_slice(), b, s.len()));
                assert(s@.subrange(0, a as int) =~= s@.take(a as int));
                assert(s@.subrange(b as int, s@.len() as int) =~= s@.skip(b as int));
                assert(out@ =~= s@.take(a as int) + new@ + s@.skip(b as int));
                *s = out;
            }
        },
        _ => {},
    }
}

/// A span of bytes and the text to put in its place.
pub struct Splice {
    pub start: u32,
    pub end: u32,
    pub text: String,
}

/// What a [`Splice`] says.
#[verifier::ext_equal]
pub struct SpliceView {
    pub start: int,
    pub end: int,
    pub text: Seq<char>,
}

impl View for Splice {
    type V = SpliceView;

    open spec fn view(&self) -> SpliceView {
        SpliceView { start: self.start as int, end: self.end as int, text: self.text@ }
    }
}

/// What several splices say.
pub open spec fn splice_views(v: Seq<Splice>) -> Seq<SpliceView> {
    v.map_values(|s: Splice| s@)
}

/// `x` put in its place in a list that falls by start; behind those that start where it does.
pub open spec fn with_splice(s: Seq<SpliceView>, x: SpliceView) -> Seq<SpliceView>
    decreases s.len(),
{
    if s.len() == 0 || s.last().start >= x.start {
        s.push(x)
    } else {
        with_splice(s.drop_last(), x).push(s.last())
    }
}

/// Splices in falling order of their starts; those with one start keep their order.
pub open spec fn last_first(s: Seq<SpliceView>) -> Seq<SpliceView>
    decreases s.len(),
{
    if s.len() == 0 {
        s
    } else {
        with_splice(last_first(s.drop_last()), s.last())
    }
}

/// Each splice made in turn.
pub open spec fn splice_all(text: Seq<char>, s: Seq<SpliceView>) -> Seq<char>
    decreases s.len(),
{
    if s.len() == 0 {
        text
    } else {
        let x = s.last();
        replaced(splice_all(text, s.drop_last()), x.start, x.end, x.text)
    }
}

/// The text with all splices made, from its end backwards so that the offsets before each stay
/// valid.
pub open spec fn spliced(text: Seq<char>, s: Seq<SpliceView>) -> Seq<char> {
    splice_all(text, last_first(s))
}

/// Puts a splice in its place in a list that falls by start.
fn insert_splice(list: &mut Vec<Splice>, x: Splice)
    ensures
        splice_views(final(list)@) == with_splice(splice_views(old(list)@), x@),
{
    let ghost start = splice_views(old(list)@);
    let mut i: usize = list.len();
    assert(start.take(i as int) =~= start);
    assert(start.skip(i as int) =~= Seq::empty());
    assert(with_splice(start, x@) =~= with_splice(start.take(i as int), x@) + start.skip(i as int));
    while i > 0 && list[i - 1].start < x.start
        invariant
            i <= list@.len(),
            start == splice_views(old(list)@),
            splice_views(list@) == start,
            with_splice(start, x@) == with_splice(start.take(i as int), x@) + start.skip(i as int),
        decreases i,
    {
        let ghost head = start.take(i as int);
        assert(head.last() == list@[i - 1]@);
        assert(head.drop_last() =~= start.take(i - 1));
        assert(start.skip(i - 1) =~= seq![head.last()] + start.skip(i as int));
        assert(with_splice(head.drop_last(), x@).push(head.last()) + start.skip(i as int)
            =~= with_splice(head.drop_last(), x@) + start.skip(i - 1));
        i -= 1;
    }
    proof {
        let head = start.take(i as int);
        if i > 0 {
            assert(head.last() == list@[i - 1]@);
        }
        assert(with_splice(head, x@) == head.push(x@));
        assert(head.push(x@) + start.skip(i as int) =~= start.insert(i as int, x@));
    }
    let ghost prior = list@;
    list.insert(i, x);
    assert(splice_views(list@) =~= splice_views(prior).insert(i as int, x@));
}

/// Makes all splices, from the end of the text backwards.
pub fn apply_splices(source: &[char], splices: Vec<Splice>) -> (r: Vec<char>)
    ensures
        r@ == spliced(source@, splice_views(splices@)),
{
    let ghost all = splice_views(splices@);
    let mut ordered: Vec<Splice> = Vec::new();
    let mut i: usize = 0;
    assert(all.take(0) =~= Seq::empty());
    assert(splice_views(ordered@) =~= Seq::empty());
    while i < splices.len()
        invariant
            i <= splices@.len(),
            all == splice_views(splices@),
            splice_views(ordered@) == last_first(all.take(i as int)),
        decreases splices@.len() - i,
    {
        assert(all.take(i + 1).drop_last() =~= all.take(i as int));
        assert(all.take(i + 1).last() == splices@[i as int]@);
        let copy = Splice {
            start: splices[i].start,
            end: splices[i].end,
            text: splices[i].text.clone(),
        };
        insert_splice(&mut ordered, copy);
        i += 1;
    }
    assert(all.take(all.len() as int) =~= all);
    let ghost sorted = splice_views(ordered@);
    let mut out: Vec<char> = Vec::new();
    push_all(&mut out, source);
    assert(out@ =~= source@);
    let mut k: usize = 0;
    assert(sorted.take(0) =~= Seq::empty());
    while k < ordered.len()
        invariant
            k <= ordered@.len(),
            sorted == splice_views(ordered@),
            out@ == splice_all(source@, sorted.take(k as int)),
        decreases ordered@.len() - k,
    {
        assert(sorted.take(k + 1).drop_last() =~= sorted.take(k as int));
        assert(sorted.take(k + 1).last() == ordered@[k as int]@);
        let new = crate::text::chars(ordered[k].text.as_str());
        replace_range(
            &mut out,
            ordered[k].start as usize,
            ordered[k].end as usize,
            new.as_slice(),
        );
        k += 1;
    }
    assert(sorted.take(sorted.len() as int) =~= sorted);
    out
}

// ---------------------------------------------------------------------------
// Laws
// ---------------------------------------------------------------------------

/// The character position of a byte offset that does not lie inside a character.
pub open spec fn at(text: Seq<char>, offset: int) -> int {
    char_index(text, offset)->0
}

/// Whether a splice replaces a run of whole characters of a text.
pub open spec fn stands_in(text: Seq<char>, x: SpliceView) -> bool {
    char_index(text, x.start) is Some && char_index(text, x.end) is Some && at(text, x.start) <= at(
        text,
        x.end,
    )
}

/// What a splice replaces.
pub open spec fn replaced_part(text: Seq<char>, x: SpliceView) -> Seq<char> {
    text.subrange(at(text, x.start), at(text, x.end))
}

/// Whether splices in falling order replace runs of whole characters that do not overlap.
pub open spec fn apart(text: Seq<char>, s: Seq<SpliceView>) -> bool {
    &&& forall|i: int| 0 <= i < s.len() ==> stands_in(text, #[trigger] s[i])
    &&& forall|i: int, j: int|
        0 <= i < j < s.len() ==> at(text, (#[trigger] s[j]).end) <= at(text, (#[trigger] s[i]).start)
}

/// A text with the parts that splices in falling order replace exchanged for the new ones, and
/// all that stands before, between and behind them.
pub open spec fn patched(text: Seq<char>, s: Seq<SpliceView>) -> Seq<char>
    decreases s.len(),
{
    if s.len() == 0 {
        text
    } else {
        patched(text.take(at(text, s[0].start)), s.drop_first()) + s[0].text + text.skip(
            at(text, s[0].end),
        )
    }
}

/// Splices that do not overlap change the parts that they replace and nothing else.
pub proof fn law_only_replaced_parts_change(text: Seq<char>, s: Seq<SpliceView>)
    requires
        apart(text, last_first(s)),
    ensures
        spliced(text, s) == patched(text, last_first(s)),
{
    lemma_spliced_before(text, Seq::empty(), last_first(s));
    assert(text + Seq::<char>::empty() =~= text);
    assert(patched(text, last_first(s)) + Seq::<char>::empty() =~= patched(text, last_first(s)));
}

/// Putting splices in order adds none and loses none.
pub proof fn law_order_keeps_splices(s: Seq<SpliceView>, x: SpliceView)
    ensures
        last_first(s).contains(x) <==> s.contains(x),
    decreases s.len(),
{
    if s.len() > 0 {
        law_order_keeps_splices(s.drop_last(), x);
        lemma_with_splice_holds(last_first(s.drop_last()), s.last(), x);
        lemma_push_holds(s.drop_last(), s.last(), x);
        assert(s.drop_last().push(s.last()) =~= s);
    }
}

/// What a list holds once one more item was added.
pub proof fn lemma_push_holds<A>(s: Seq<A>, x: A, y: A)
    ensures
        s.push(x).contains(y) <==> s.contains(y) || x == y,
{
    let all = s.push(x);
    if s.contains(y) {
        let i = s.index_of(y);
        assert(all[i] == y);
    }
    if x == y {
        assert(all[s.len() as int] == y);
    }
    if all.contains(y) {
        let i = all.index_of(y);
        if i < s.len() {
            assert(s[i] == y);
        }
    }
}

proof fn lemma_with_splice_holds(s: Seq<SpliceView>, x: SpliceView, y: SpliceView)
    ensures
        with_splice(s, x).contains(y) <==> s.contains(y) || x == y,
    decreases s.len(),
{
    if s.len() == 0 || s.last().start >= x.start {
        lemma_push_holds(s, x, y);
    } else {
        lemma_with_splice_holds(s.drop_last(), x, y);
        lemma_push_holds(with_splice(s.drop_last(), x), s.last(), y);
        lemma_push_holds(s.drop_last(), s.last(), y);
        assert(s.drop_last().push(s.last()) =~= s);
    }
}

/// A position in the front of a text is the same in the whole.
pub proof fn lemma_index_in_front(s: Seq<char>, k: int, offset: int)
    requires
        0 <= k <= s.len(),
    ensures
        char_index(s.take(k), offset) is Some ==> char_index(s, offset) == char_index(
            s.take(k),
            offset,
        ),
        char_index(s, offset) is Some && at(s, offset) <= k ==> char_index(s.take(k), offset)
            == char_index(s, offset),
{
    lemma_char_index_is_prefix(s, offset);
    lemma_char_index_is_prefix(s.take(k), offset);
    match char_index(s.take(k), offset) {
        Some(j) => {
            assert(s.take(k).take(j) =~= s.take(j));
            lemma_char_index_of_prefix(s, j);
        },
        None => {},
    }
    match char_index(s, offset) {
        Some(j) => {
            if j <= k {
                assert(s.take(k).take(j) =~= s.take(j));
                lemma_char_index_of_prefix(s.take(k), j);
            }
        },
        None => {},
    }
}

/// What lies behind the first of several splices lies apart in the text before it.
pub proof fn lemma_apart_before(text: Seq<char>, s: Seq<SpliceView>)
    requires
        s.len() > 0,
        apart(text, s),
    ensures
        0 <= at(text, s[0].start) <= at(text, s[0].end) <= text.len(),
        apart(text.take(at(text, s[0].start)), s.drop_first()),
        forall|i: int|
            0 < i < s.len() ==> replaced_part(
                text.take(at(text, s[0].start)),
                #[trigger] s[i],
            ) == replaced_part(text, s[i]),
{
    lemma_char_index_is_prefix(text, s[0].start);
    lemma_char_index_is_prefix(text, s[0].end);
    let k = at(text, s[0].start);
    let front = text.take(k);
    let rest = s.drop_first();
    assert forall|i: int| 0 < i < s.len() implies stands_in(front, #[trigger] s[i]) && at(
        front,
        s[i].start,
    ) == at(text, s[i].start) && at(front, s[i].end) == at(text, s[i].end) && replaced_part(
        front,
        s[i],
    ) == replaced_part(text, s[i]) by {
        assert(stands_in(text, s[i]));
        assert(at(text, s[i].end) <= at(text, s[0].start));
        lemma_char_index_is_prefix(text, s[i].start);
        lemma_index_in_front(text, k, s[i].start);
        lemma_index_in_front(text, k, s[i].end);
        assert(replaced_part(front, s[i]) =~= replaced_part(text, s[i]));
    }
    assert forall|i: int| 0 <= i < rest.len() implies stands_in(front, #[trigger] rest[i]) by {
        assert(rest[i] == s[i + 1]);
    }
    assert forall|i: int, j: int| 0 <= i < j < rest.len() implies at(front, (#[trigger] rest[j]).end)
        <= at(front, (#[trigger] rest[i]).start) by {
        assert(rest[i] == s[i + 1]);
        assert(rest[j] == s[j + 1]);
    }
}

proof fn lemma_first_made_first(text: Seq<char>, s: Seq<SpliceView>)
    requires
        s.len() > 0,
    ensures
        splice_all(text, s) == splice_all(
            replaced(text, s[0].start, s[0].end, s[0].text),
            s.drop_first(),
        ),
    decreases s.len(),
{
    if s.len() == 1 {
        assert(splice_all(text, s.drop_last()) == text);
        assert(s.drop_first() =~= Seq::empty());
    } else {
        lemma_first_made_first(text, s.drop_last());
        assert(s.drop_last().drop_first() =~= s.drop_first().drop_last());
        assert(s.drop_first().last() == s.last());
    }
}

proof fn lemma_spliced_before(text: Seq<char>, behind: Seq<char>, s: Seq<SpliceView>)
    requires
        apart(text, s),
    ensures
        splice_all(text + behind, s) == patched(text, s) + behind,
    decreases s.len(),
{
    if s.len() > 0 {
        let x = s[0];
        let all = text + behind;
        lemma_first_made_first(all, s);
        lemma_apart_before(text, s);
        assert(all.take(text.len() as int) =~= text);
        lemma_index_in_front(all, text.len() as int, x.start);
        lemma_index_in_front(all, text.len() as int, x.end);
        let a = at(text, x.start);
        let b = at(text, x.end);
        assert(stands_in(text, x));
        let tail = x.text + text.skip(b) + behind;
        assert(all.take(a) + x.text + all.skip(b) =~= text.take(a) + tail);
        lemma_spliced_before(text.take(a), tail, s.drop_first());
        assert(patched(text.take(a), s.drop_first()) + tail =~= patched(text, s) + behind);
    }
}

} // verus!
