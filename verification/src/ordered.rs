//! Texts in order: comparing them and keeping sorted lists without repeats.
use crate::text::{chars, strs};
use vstd::prelude::*;
use vstd::utf8::char_u32_cast;

verus! {

/// Whether `a` comes before `b`, character by character.
pub open spec fn before(a: Seq<char>, b: Seq<char>) -> bool
    decreases a.len(),
{
    if b.len() == 0 {
        false
    } else if a.len() == 0 {
        true
    } else if a[0] == b[0] {
        before(a.skip(1), b.skip(1))
    } else {
        (a[0] as u32) < (b[0] as u32)
    }
}

/// Of two texts one comes first, unless they are the same; neither comes first twice.
pub proof fn lemma_before_total(a: Seq<char>, b: Seq<char>)
    ensures
        before(a, b) || before(b, a) || a == b,
        !(before(a, b) && before(b, a)),
        !before(a, a),
    decreases a.len(),
{
    if a.len() > 0 && b.len() > 0 && a[0] == b[0] {
        lemma_before_total(a.skip(1), b.skip(1));
        if a.skip(1) == b.skip(1) {
            assert(a =~= b) by {
                assert forall|i: int| 0 <= i < a.len() implies a[i] == b[i] by {
                    if i > 0 {
                        assert(a.skip(1)[i - 1] == b.skip(1)[i - 1]);
                    }
                }
                assert(a.skip(1).len() == b.skip(1).len());
            }
        }
    } else if a.len() == 0 && b.len() == 0 {
        assert(a =~= b);
    } else if a.len() > 0 && b.len() > 0 {
        char_u32_cast(a[0], a[0] as u32);
        char_u32_cast(b[0], b[0] as u32);
    }
    if a.len() > 0 {
        lemma_before_total(a.skip(1), a.skip(1));
    }
}

/// What comes before an earlier text comes before a later one.
pub proof fn lemma_before_transitive(a: Seq<char>, b: Seq<char>, c: Seq<char>)
    requires
        before(a, b),
        before(b, c),
    ensures
        before(a, c),
    decreases a.len(),
{
    if a.len() > 0 && a[0] == b[0] && b[0] == c[0] {
        lemma_before_transitive(a.skip(1), b.skip(1), c.skip(1));
    }
}

/// Whether `a` comes before `b`.
pub fn less(a: &str, b: &str) -> (r: bool)
    ensures
        r == before(a@, b@),
{
    let x = chars(a);
    let y = chars(b);
    let mut i: usize = 0;
    assert(x@.skip(0) =~= x@);
    assert(y@.skip(0) =~= y@);
    while i < x.len() && i < y.len() && x[i] == y[i]
        invariant
            i <= x@.len(),
            i <= y@.len(),
            before(x@, y@) == before(x@.skip(i as int), y@.skip(i as int)),
        decreases x@.len() - i,
    {
        assert(x@.skip(i as int).skip(1) =~= x@.skip(i + 1));
        assert(y@.skip(i as int).skip(1) =~= y@.skip(i + 1));
        i += 1;
    }
    if i >= y.len() {
        false
    } else if i >= x.len() {
        true
    } else {
        (x[i] as u32) < (y[i] as u32)
    }
}

/// Each text comes before the next.
pub open spec fn sorted(s: Seq<Seq<char>>) -> bool {
    forall|i: int, j: int| 0 <= i < j < s.len() ==> before(#[trigger] s[i], #[trigger] s[j])
}

/// A sorted list with `x` in its place; a list that holds `x` stays as it is.
pub open spec fn with_text(s: Seq<Seq<char>>, x: Seq<char>) -> Seq<Seq<char>>
    decreases s.len(),
{
    if s.len() == 0 {
        seq![x]
    } else if s.last() == x {
        s
    } else if before(s.last(), x) {
        s.push(x)
    } else {
        with_text(s.drop_last(), x).push(s.last())
    }
}

/// All of `xs` put in their places in a sorted list.
pub open spec fn with_texts(s: Seq<Seq<char>>, xs: Seq<Seq<char>>) -> Seq<Seq<char>>
    decreases xs.len(),
{
    if xs.len() == 0 {
        s
    } else {
        with_text(with_texts(s, xs.drop_last()), xs.last())
    }
}

/// Putting a text in its place keeps the order and adds that text alone.
pub proof fn lemma_with_text(s: Seq<Seq<char>>, x: Seq<char>)
    requires
        sorted(s),
    ensures
        sorted(with_text(s, x)),
        forall|y: Seq<char>| with_text(s, x).contains(y) <==> (s.contains(y) || y == x),
        s.len() <= with_text(s, x).len() <= s.len() + 1,
        with_text(s, x).len() == s.len() <==> s.contains(x),
        forall|y: Seq<char>|
            (forall|i: int| 0 <= i < s.len() ==> before(#[trigger] s[i], y)) && before(x, y)
                ==> forall|i: int| 0 <= i < with_text(s, x).len() ==> before(#[trigger] with_text(s, x)[i], y),
    decreases s.len(),
{
    let r = with_text(s, x);
    if s.len() == 0 {
        assert(r =~= seq![x]);
        assert(r[0] == x);
        assert forall|y: Seq<char>| r.contains(y) <==> (s.contains(y) || y == x) by {
            if y == x {
                assert(r[0] == y);
            }
        }
    } else if s.last() == x {
        assert(s[s.len() - 1] == x);
        assert(s.contains(x));
    } else if before(s.last(), x) {
        assert(r =~= s.push(x));
        assert forall|i: int, j: int| 0 <= i < j < r.len() implies before(#[trigger] r[i], #[trigger] r[j]) by {
            if j == s.len() {
                if i < s.len() - 1 {
                    assert(before(s[i], s[s.len() - 1]));
                    lemma_before_transitive(s[i], s[s.len() - 1], x);
                }
            } else {
                assert(before(s[i], s[j]));
            }
        }
        assert forall|y: Seq<char>| r.contains(y) <==> (s.contains(y) || y == x) by {
            if s.contains(y) {
                let i = s.index_of(y);
                assert(r[i] == y);
            }
            if y == x {
                assert(r[s.len() as int] == y);
            }
        }
        if s.contains(x) {
            let i = s.index_of(x);
            assert(s[i] == x);
            lemma_before_total(s.last(), x);
            if i < s.len() - 1 {
                assert(before(s[i], s[s.len() - 1]));
            }
            assert(false);
        }
    } else {
        let p = s.drop_last();
        let q = with_text(p, x);
        assert(sorted(p)) by {
            assert forall|i: int, j: int| 0 <= i < j < p.len() implies before(#[trigger] p[i], #[trigger] p[j]) by {
                assert(before(s[i], s[j]));
            }
        }
        lemma_with_text(p, x);
        lemma_before_total(s.last(), x);
        assert(r =~= q.push(s.last()));
        assert forall|i: int| 0 <= i < p.len() implies before(#[trigger] p[i], s.last()) by {
            assert(before(s[i], s[s.len() - 1]));
        }
        assert forall|i: int, j: int| 0 <= i < j < r.len() implies before(#[trigger] r[i], #[trigger] r[j]) by {
            if j == q.len() {
                assert(before(q[i], s.last()));
            } else {
                assert(before(q[i], q[j]));
            }
        }
        assert forall|y: Seq<char>| r.contains(y) <==> (s.contains(y) || y == x) by {
            if r.contains(y) {
                let i = r.index_of(y);
                if i < q.len() {
                    assert(q[i] == y);
                    assert(q.contains(y));
                    if p.contains(y) {
                        let k = p.index_of(y);
                        assert(s[k] == y);
                    }
                } else {
                    assert(s[s.len() - 1] == y);
                }
            }
            if s.contains(y) {
                let i = s.index_of(y);
                if i < p.len() {
                    assert(p[i] == y);
                    assert(p.contains(y));
                    assert(q.contains(y));
                    let k = q.index_of(y);
                    assert(r[k] == y);
                } else {
                    assert(r[q.len() as int] == y);
                }
            }
            if y == x {
                assert(q.contains(x));
                let k = q.index_of(x);
                assert(r[k] == y);
            }
        }
        assert(s.contains(x) <==> p.contains(x)) by {
            if s.contains(x) {
                let i = s.index_of(x);
                assert(s[i] == x && i < p.len());
                assert(p[i] == x);
            }
            if p.contains(x) {
                let i = p.index_of(x);
                assert(s[i] == x);
            }
        }
        assert forall|y: Seq<char>|
            (forall|i: int| 0 <= i < s.len() ==> before(#[trigger] s[i], y)) && before(x, y)
            implies forall|i: int| 0 <= i < r.len() ==> before(#[trigger] r[i], y) by {
            assert forall|i: int| 0 <= i < p.len() implies before(#[trigger] p[i], y) by {
                assert(before(s[i], y));
            }
            assert(before(s[s.len() - 1], y));
        }
    }
}

/// Putting several texts in their places keeps the order and adds those texts alone.
pub proof fn lemma_with_texts(s: Seq<Seq<char>>, xs: Seq<Seq<char>>)
    requires
        sorted(s),
    ensures
        sorted(with_texts(s, xs)),
        forall|y: Seq<char>| with_texts(s, xs).contains(y) <==> (s.contains(y) || xs.contains(y)),
    decreases xs.len(),
{
    if xs.len() > 0 {
        let p = xs.drop_last();
        lemma_with_texts(s, p);
        lemma_with_text(with_texts(s, p), xs.last());
        assert forall|y: Seq<char>| xs.contains(y) <==> (p.contains(y) || y == xs.last()) by {
            if xs.contains(y) {
                let i = xs.index_of(y);
                if i < p.len() {
                    assert(p[i] == y);
                }
            }
            if p.contains(y) {
                let i = p.index_of(y);
                assert(xs[i] == y);
            }
            if y == xs.last() {
                assert(xs[xs.len() - 1] == y);
            }
        }
    }
}

/// Puts a text in its place in a sorted list.
pub fn insert_text(list: &mut Vec<String>, x: String)
    ensures
        strs(final(list)@) == with_text(strs(old(list)@), x@),
{
    let ghost start = strs(old(list)@);
    let mut i: usize = list.len();
    assert(start.take(i as int) =~= start);
    assert(start.skip(i as int) =~= Seq::empty());
    assert(with_text(start, x@) =~= with_text(start.take(i as int), x@) + start.skip(i as int));
    while i > 0
        invariant
            i <= list@.len(),
            start == strs(old(list)@),
            strs(list@) == start,
            with_text(start, x@) == with_text(start.take(i as int), x@) + start.skip(i as int),
        decreases i,
    {
        let ghost head = start.take(i as int);
        assert(head.last() == list@[i - 1]@);
        assert(head.drop_last() =~= start.take(i - 1));
        if list[i - 1] == x {
            assert(head + start.skip(i as int) =~= start);
            return;
        }
        if less(list[i - 1].as_str(), x.as_str()) {
            assert(head.push(x@) + start.skip(i as int) =~= start.insert(i as int, x@));
            let ghost prior = list@;
            list.insert(i, x);
            assert(strs(list@) =~= strs(prior).insert(i as int, x@));
            return;
        }
        assert(start.skip(i - 1) =~= seq![head.last()] + start.skip(i as int));
        assert(with_text(head.drop_last(), x@).push(head.last()) + start.skip(i as int) =~= with_text(
            head.drop_last(),
            x@,
        ) + start.skip(i - 1));
        i -= 1;
    }
    assert(start.take(0) =~= Seq::empty());
    assert(start.skip(0) =~= start);
    assert(seq![x@] + start =~= start.insert(0, x@));
    let ghost prior = list@;
    list.insert(0, x);
    assert(strs(list@) =~= strs(prior).insert(0, x@));
}

/// Whether a list holds a text.
pub fn has_text(list: &Vec<String>, x: &str) -> (r: bool)
    ensures
        r == strs(list@).contains(x@),
{
    let wanted = x.to_owned();
    let mut i: usize = 0;
    while i < list.len()
        invariant
            i <= list@.len(),
            wanted@ == x@,
            forall|j: int| 0 <= j < i ==> list@[j]@ != x@,
        decreases list@.len() - i,
    {
        if list[i] == wanted {
            assert(strs(list@)[i as int] == x@);
            return true;
        }
        i += 1;
    }
    assert(!strs(list@).contains(x@));
    false
}

/// Texts are compared by the first character that differs; a text comes before one that goes on.
pub proof fn law_the_first_character_that_differs_decides(
    front: Seq<char>,
    a: Seq<char>,
    b: Seq<char>,
)
    ensures
        a.len() == 0 && b.len() > 0 ==> before(front + a, front + b) && !before(
            front + b,
            front + a,
        ),
        a.len() > 0 && b.len() > 0 && a[0] != b[0] ==> (before(front + a, front + b) <==> (
        a[0] as u32) < (b[0] as u32)),
        !before(front, front),
    decreases front.len(),
{
    lemma_before_total(front, front);
    if front.len() == 0 {
        assert(front + a =~= a);
        assert(front + b =~= b);
    } else {
        let rest = front.skip(1);
        law_the_first_character_that_differs_decides(rest, a, b);
        assert((front + a).skip(1) =~= rest + a);
        assert((front + b).skip(1) =~= rest + b);
        assert((front + a)[0] == (front + b)[0]);
    }
}

} // verus!
