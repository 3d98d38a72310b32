//! How settings of the command line and of the configuration come together, and which files count
//! as changed.
use crate::config::DirFacts;
use crate::git::{changed, non_empty, repo_root_of};
use crate::overrides::{
    file_ignores, ignore_of, selected, trimmed, with_ignore, with_ignores,
};
use crate::split::{join_spec, lines_spec, split_spec};
use crate::text::{lemma_index_of_is, trim_spec};
use vstd::prelude::*;

verus! {

// ---------------------------------------------------------------------------
// Ignores for some files
// ---------------------------------------------------------------------------

/// Pieces are taken one by one without the space around them; those that hold nothing else are left
/// out.
pub proof fn law_pieces_are_taken_one_by_one(a: Seq<Seq<char>>, b: Seq<Seq<char>>, x: Seq<char>)
    ensures
        trimmed(a + b) == trimmed(a) + trimmed(b),
        trim_spec(x).len() > 0 ==> trimmed(seq![x]) == seq![trim_spec(x)],
        trim_spec(x).len() == 0 ==> trimmed(seq![x]).len() == 0,
    decreases b.len(),
{
    let all = a + b;
    let one = seq![x];
    assert(one.drop_last() =~= Seq::empty());
    assert(trimmed(one.drop_last()) =~= Seq::empty());
    assert(one.last() == x);
    if b.len() == 0 {
        assert(all =~= a);
        assert(trimmed(a) + trimmed(b) =~= trimmed(a));
    } else {
        let rest = b.drop_last();
        law_pieces_are_taken_one_by_one(a, rest, x);
        assert(all.drop_last() =~= a + rest);
        assert(all.last() == b.last());
        let t = trim_spec(b.last());
        assert((trimmed(a) + trimmed(rest)).push(t) =~= trimmed(a) + trimmed(rest).push(t));
    }
}

/// Whether a text stands for itself in a list: it holds something, has no space around it and no
/// separator in it.
pub open spec fn stands_alone(s: Seq<char>, sep: char) -> bool {
    s.len() > 0 && trim_spec(s) == s && !s.contains(sep)
}

proof fn lemma_kept_whole(codes: Seq<Seq<char>>)
    requires
        forall|i: int| 0 <= i < codes.len() ==> stands_alone(#[trigger] codes[i], ','),
    ensures
        trimmed(codes) == codes,
    decreases codes.len(),
{
    if codes.len() > 0 {
        let rest = codes.drop_last();
        assert forall|i: int| 0 <= i < rest.len() implies stands_alone(#[trigger] rest[i], ',') by {
            assert(rest[i] == codes[i]);
        }
        lemma_kept_whole(rest);
        assert(stands_alone(codes[codes.len() - 1], ','));
        assert(rest.push(codes.last()) =~= codes);
    } else {
        assert(trimmed(codes) =~= codes);
    }
}

/// A glob, a colon and codes between commas say that these codes are ignored in the files that the
/// glob matches: all of them, in order.
pub proof fn law_ignores_are_read_whole(glob: Seq<char>, codes: Seq<Seq<char>>)
    requires
        stands_alone(glob, ':'),
        codes.len() > 0,
        forall|i: int| 0 <= i < codes.len() ==> stands_alone(#[trigger] codes[i], ','),
    ensures
        ignore_of(glob + ":"@ + join_spec(codes, ","@)) == Some((glob, codes)),
{
    let list = join_spec(codes, ","@);
    let all = glob + ":"@ + list;
    let k = glob.len() as int;
    reveal_strlit(":");
    reveal_strlit(",");
    assert forall|i: int| 0 <= i < k implies all[i] != ':' by {
        assert(all[i] == glob[i]);
        assert(glob.contains(glob[i]));
    }
    lemma_index_of_is(all, ':', k);
    assert(all.take(k) =~= glob);
    assert(all.skip(k + 1) =~= list);
    assert(","@ =~= seq![',']);
    assert forall|i: int, j: int|
        0 <= i < codes.len() && 0 <= j < codes[i].len() implies #[trigger] codes[i][j] != ',' by {
        assert(stands_alone(codes[i], ','));
        assert(codes[i].contains(codes[i][j]));
    }
    crate::text_laws::law_joined_pieces_are_got_back(codes, ',');
    lemma_kept_whole(codes);
}

/// Without a colon, a glob or a code a text says nothing.
pub proof fn law_broken_ignores_say_nothing(s: Seq<char>, list: Seq<char>)
    ensures
        !s.contains(':') ==> ignore_of(s) is None,
        !s.contains(':') && trim_spec(s).len() == 0 ==> ignore_of(s + ":"@ + list) is None,
        !s.contains(':') && trimmed(split_spec(list, ',')).len() == 0 ==> ignore_of(
            s + ":"@ + list,
        ) is None,
{
    reveal_strlit(":");
    crate::text::lemma_index_of(s, ':');
    if !s.contains(':') {
        let all = s + ":"@ + list;
        let k = s.len() as int;
        assert forall|i: int| 0 <= i < k implies all[i] != ':' by {
            assert(all[i] == s[i]);
            assert(s.contains(s[i]));
        }
        lemma_index_of_is(all, ':', k);
        assert(all.take(k) =~= s);
        assert(all.skip(k + 1) =~= list);
    }
}

/// Codes for a glob join those that it has, or come with it as a new entry; all other entries stay.
pub proof fn law_codes_join_their_glob(
    v: Seq<(Seq<char>, Seq<Seq<char>>)>,
    glob: Seq<char>,
    codes: Seq<Seq<char>>,
    k: int,
)
    requires
        0 <= k <= v.len(),
        forall|i: int| 0 <= i < k ==> (#[trigger] v[i]).0 != glob,
        k < v.len() ==> v[k].0 == glob,
    ensures
        k < v.len() ==> with_ignore(v, glob, codes) == v.update(k, (glob, v[k].1 + codes)),
        k == v.len() ==> with_ignore(v, glob, codes) == v.push((glob, codes)),
    decreases v.len(),
{
    if v.len() == 0 {
        assert(v.push((glob, codes)) =~= seq![(glob, codes)]);
    } else if k > 0 {
        let rest = v.skip(1);
        assert(v[0].0 != glob);
        assert forall|i: int| 0 <= i < k - 1 implies (#[trigger] rest[i]).0 != glob by {
            assert(rest[i] == v[i + 1]);
        }
        law_codes_join_their_glob(rest, glob, codes, k - 1);
        if k < v.len() {
            assert(rest[k - 1] == v[k]);
            assert(seq![v[0]] + rest.update(k - 1, (glob, v[k].1 + codes)) =~= v.update(
                k,
                (glob, v[k].1 + codes),
            ));
        } else {
            assert(seq![v[0]] + rest.push((glob, codes)) =~= v.push((glob, codes)));
        }
    }
}

/// Texts are taken in turn, each on top of those before it; one that says nothing changes nothing.
pub proof fn law_ignores_are_taken_in_turn(
    v: Seq<(Seq<char>, Seq<Seq<char>>)>,
    a: Seq<Seq<char>>,
    b: Seq<Seq<char>>,
    x: Seq<char>,
)
    ensures
        with_ignores(v, a + b) == with_ignores(with_ignores(v, a), b),
        ignore_of(x) is Some ==> with_ignores(v, seq![x]) == with_ignore(
            v,
            (ignore_of(x)->0).0,
            (ignore_of(x)->0).1,
        ),
        ignore_of(x) is None ==> with_ignores(v, seq![x]) == v,
    decreases b.len(),
{
    let all = a + b;
    let one = seq![x];
    assert(one.drop_last() =~= Seq::empty());
    assert(with_ignores(v, one.drop_last()) == v);
    assert(one.last() == x);
    if b.len() == 0 {
        assert(all =~= a);
    } else {
        law_ignores_are_taken_in_turn(v, a, b.drop_last(), x);
        assert(all.drop_last() =~= a + b.drop_last());
        assert(all.last() == b.last());
    }
}

/// Ignores of the command line take the place of those that are configured, where there are any;
/// more are added either way.
pub proof fn law_given_ignores_replace(
    configured: Seq<(Seq<char>, Seq<Seq<char>>)>,
    given: Seq<Seq<char>>,
    more: Seq<Seq<char>>,
)
    ensures
        given.len() > 0 ==> file_ignores(configured, given, more) == with_ignores(
            Seq::empty(),
            given + more,
        ),
        given.len() == 0 ==> file_ignores(configured, given, more) == with_ignores(
            configured,
            more,
        ),
{
    law_ignores_are_taken_in_turn(Seq::empty(), given, more, Seq::empty());
}

/// What is selected is what is given, or else what is configured, and what is added either way.
pub proof fn law_more_is_added_to_what_is_selected(
    configured: Seq<Seq<char>>,
    given: Seq<Seq<char>>,
    more: Seq<Seq<char>>,
)
    ensures
        given.len() > 0 ==> selected(configured, given, more) == given + more,
        given.len() == 0 ==> selected(configured, given, more) == configured + more,
{
}

// ---------------------------------------------------------------------------
// Changed files
// ---------------------------------------------------------------------------

proof fn lemma_non_empty(s: Seq<Seq<char>>, x: Seq<char>)
    ensures
        non_empty(s).contains(x) <==> s.contains(x) && x.len() > 0,
    decreases s.len(),
{
    if s.len() > 0 {
        let rest = s.drop_last();
        lemma_non_empty(rest, x);
        crate::edit::lemma_push_holds(rest, s.last(), x);
        crate::edit::lemma_push_holds(non_empty(rest), s.last(), x);
        assert(s =~= rest.push(s.last()));
    }
}

/// A file counts as changed where a line of the staged or the unstaged changes names it, or, where
/// there are none, a line of the last commit.
pub proof fn law_each_named_file_is_changed(
    staged: Seq<char>,
    unstaged: Seq<char>,
    committed: Seq<char>,
    file: Seq<char>,
)
    requires
        file.len() > 0,
    ensures
        lines_spec(staged).contains(file) ==> changed(staged, unstaged, committed).contains(file),
        lines_spec(unstaged).contains(file) ==> changed(staged, unstaged, committed).contains(file),
        changed(staged, unstaged, committed).contains(file) ==> lines_spec(staged).contains(file)
            || lines_spec(unstaged).contains(file) || lines_spec(committed).contains(file),
        lines_spec(staged).len() == 0 && lines_spec(unstaged).len() == 0 ==> (changed(
            staged,
            unstaged,
            committed,
        ).contains(file) <==> lines_spec(committed).contains(file)),
{
    let s = non_empty(lines_spec(staged));
    let u = non_empty(lines_spec(unstaged));
    lemma_non_empty(lines_spec(staged), file);
    lemma_non_empty(lines_spec(unstaged), file);
    lemma_non_empty(lines_spec(committed), file);
    let pending = s + u;
    if s.contains(file) {
        let i = choose|i: int| 0 <= i < s.len() && s[i] == file;
        assert(pending[i] == file);
    }
    if u.contains(file) {
        let i = choose|i: int| 0 <= i < u.len() && u[i] == file;
        assert(pending[i + s.len()] == file);
    }
    if pending.contains(file) {
        let i = choose|i: int| 0 <= i < pending.len() && pending[i] == file;
        if i < s.len() {
            assert(s[i] == file);
        } else {
            assert(u[i - s.len()] == file);
        }
    }
}

/// A repository starts at the first directory upwards that has one or a `pyproject.toml`.
pub proof fn law_the_nearest_root_counts(dirs: Seq<DirFacts>, k: int)
    requires
        0 <= k < dirs.len(),
        dirs[k].has_git || dirs[k].has_pyproject,
        forall|i: int| 0 <= i < k ==> !(#[trigger] dirs[i]).has_git && !dirs[i].has_pyproject,
    ensures
        repo_root_of(dirs) == Some(dirs[k].path@),
    decreases dirs.len(),
{
    if k > 0 {
        let rest = dirs.skip(1);
        assert(!dirs[0].has_git && !dirs[0].has_pyproject);
        assert(rest[k - 1] == dirs[k]);
        assert forall|i: int| 0 <= i < k - 1 implies !(#[trigger] rest[i]).has_git
            && !rest[i].has_pyproject by {
            assert(rest[i] == dirs[i + 1]);
        }
        law_the_nearest_root_counts(rest, k - 1);
    }
}

} // verus!
