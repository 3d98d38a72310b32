//! Sorting texts.
use crate::ordered::{before, lemma_before_total, lemma_before_transitive, less};
use crate::text::strs;
use vstd::prelude::*;
use vstd::relations::*;
use vstd::seq_lib::*;

verus! {

/// Whether `a` comes before `b` or is the same.
pub open spec fn at_most() -> spec_fn(Seq<char>, Seq<char>) -> bool {
    |a: Seq<char>, b: Seq<char>| !before(b, a)
}

/// Several texts in order, repeats included.
pub open spec fn in_order(s: Seq<Seq<char>>) -> Seq<Seq<char>> {
    s.sort_by(at_most())
}

/// The order of texts is total.
pub proof fn lemma_at_most_total()
    ensures
        total_ordering(at_most()),
{
    let leq = at_most();
    assert forall|x: Seq<char>| #[trigger] leq(x, x) by {
        lemma_before_total(x, x);
    }
    assert forall|x: Seq<char>, y: Seq<char>| #[trigger] leq(x, y) && #[trigger] leq(y, x) implies x
        == y by {
        lemma_before_total(x, y);
    }
    assert forall|x: Seq<char>, y: Seq<char>, z: Seq<char>| #[trigger] leq(x, y) && #[trigger] leq(
        y,
        z,
    ) implies leq(x, z) by {
        lemma_before_total(x, y);
        lemma_before_total(y, z);
        lemma_before_total(x, z);
        if before(z, x) {
            if x == y {
            } else if y == z {
            } else {
                lemma_before_transitive(x, y, z);
            }
        }
    }
    assert forall|x: Seq<char>, y: Seq<char>| #[trigger] leq(x, y) || #[trigger] leq(y, x) by {
        lemma_before_total(x, y);
    }
}

/// Lists that hold the same texts, however often each, are the same in order.
pub proof fn law_order_does_not_matter(a: Seq<Seq<char>>, b: Seq<Seq<char>>)
    requires
        a.to_multiset() == b.to_multiset(),
    ensures
        in_order(a) == in_order(b),
{
    lemma_at_most_total();
    a.lemma_sort_by_ensures(at_most());
    b.lemma_sort_by_ensures(at_most());
    lemma_sorted_unique(in_order(a), in_order(b), at_most());
}

/// Puts a text in its place in a list that is in order.
fn insert_in_order(list: &mut Vec<String>, x: String)
    requires
        sorted_by(strs(old(list)@), at_most()),
    ensures
        sorted_by(strs(final(list)@), at_most()),
        strs(final(list)@).to_multiset() == strs(old(list)@).to_multiset().insert(x@),
{
    let ghost start = strs(old(list)@);
    let mut i: usize = list.len();
    while i > 0 && less(x.as_str(), list[i - 1].as_str())
        invariant
            i <= list@.len(),
            start == strs(old(list)@),
            strs(list@) == start,
            forall|j: int| i <= j < start.len() ==> before(x@, #[trigger] start[j]),
        decreases i,
    {
        assert(start[i - 1] == list@[i - 1]@);
        i -= 1;
    }
    let ghost prior = list@;
    list.insert(i, x);
    proof {
        let after = strs(list@);
        assert(after =~= start.insert(i as int, x@));
        let leq = at_most();
        lemma_at_most_total();
        if i > 0 {
            assert(start[i - 1] == prior[i - 1]@);
        }
        assert forall|a: int, b: int| 0 <= a < b < after.len() implies #[trigger] leq(
            after[a],
            after[b],
        ) by {
            if b < i {
                assert(leq(start[a], start[b]));
            } else if a < i && b > i {
                assert(leq(start[a], start[b - 1]));
            } else if a > i {
                assert(leq(start[a - 1], start[b - 1]));
            } else if a == i {
                assert(before(x@, start[b - 1]));
                lemma_before_total(x@, start[b - 1]);
            } else {
                assert(leq(start[i - 1], x@));
                if a < i - 1 {
                    assert(leq(start[a], start[i - 1]));
                }
            }
        }
        let head = start.take(i as int);
        let tail = start.skip(i as int);
        assert(after =~= head.push(x@) + tail);
        assert(start =~= head + tail);
        lemma_multiset_commutative(head.push(x@), tail);
        lemma_multiset_commutative(head, tail);
        broadcast use group_to_multiset_ensures;

        assert(after.to_multiset() =~= start.to_multiset().insert(x@));
    }
}

/// Several texts in order, repeats included.
pub fn sort_texts(list: &Vec<String>) -> (r: Vec<String>)
    ensures
        strs(r@) == in_order(strs(list@)),
{
    let ghost all = strs(list@);
    let mut out: Vec<String> = Vec::new();
    let mut i: usize = 0;
    proof {
        broadcast use group_to_multiset_ensures;

        assert(all.take(0) =~= strs(out@));
    }
    while i < list.len()
        invariant
            i <= list@.len(),
            all == strs(list@),
            sorted_by(strs(out@), at_most()),
            strs(out@).to_multiset() == all.take(i as int).to_multiset(),
        decreases list@.len() - i,
    {
        insert_in_order(&mut out, list[i].clone());
        proof {
            broadcast use group_to_multiset_ensures;

            assert(all.take(i + 1) =~= all.take(i as int).push(list@[i as int]@));
        }
        i += 1;
    }
    proof {
        assert(all.take(all.len() as int) =~= all);
        lemma_at_most_total();
        all.lemma_sort_by_ensures(at_most());
        lemma_sorted_unique(strs(out@), in_order(all), at_most());
    }
    out
}

} // verus!
