//! Python's search path: which directories it means, and whether they have changed.
use crate::cache::{hash_bytes, marked, push_marked, quote, quoted, sea_hash};
use crate::document::{as_text_list, opt_texts, text_list_of};
use crate::parse::{json_tree, read_json};
use crate::paths::{absolute, components, is_absolute, join_path, joined, split_path};
use crate::text::{chars, eq, string, strs, trim, trim_spec};
use vstd::bytes::*;
use vstd::prelude::*;
use vstd::string::*;

verus! {

/// Whether two paths have the same parts.
pub open spec fn same_path(a: Seq<char>, b: Seq<char>) -> bool {
    is_absolute(a) == is_absolute(b) && components(a) == components(b)
}

/// Whether two paths have the same parts.
pub fn is_same_path(a: &str, b: &str) -> (r: bool)
    ensures
        r == same_path(a@, b@),
{
    if absolute(a) != absolute(b) {
        return false;
    }
    let p = split_path(a);
    let q = split_path(b);
    assert(strs(p@).len() == p@.len());
    assert(strs(q@).len() == q@.len());
    if p.len() != q.len() {
        return false;
    }
    let mut i: usize = 0;
    while i < p.len()
        invariant
            i <= p@.len(),
            p@.len() == q@.len(),
            strs(p@) == components(a@),
            strs(q@) == components(b@),
            forall|j: int| 0 <= j < i ==> strs(p@)[j] == strs(q@)[j],
        decreases p@.len() - i,
    {
        assert(strs(p@)[i as int] == p@[i as int]@);
        assert(strs(q@)[i as int] == q@[i as int]@);
        if !eq(p[i].as_str(), q[i].as_str()) {
            return false;
        }
        i += 1;
    }
    assert(strs(p@) =~= strs(q@));
    true
}

/// The entries that Python printed of its search path; `None` where that is no JSON list of texts.
pub fn read_sys_path(printed: &str) -> (r: Option<Vec<String>>)
    ensures
        opt_texts(r) == match json_tree(trim_spec(printed@)) {
            Some(j) => text_list_of(j),
            None => None,
        },
{
    let text = chars(printed);
    let trimmed = string(trim(text.as_slice()));
    match read_json(trimmed.as_str()) {
        Some(j) => as_text_list(&j),
        None => None,
    }
}

/// What the first entries of the search path mean: an empty one means the working directory,
/// and is dropped where there is none.
pub open spec fn resolved(paths: Seq<Seq<char>>, cwd: Option<Seq<char>>) -> Seq<Seq<char>>
    decreases paths.len(),
{
    if paths.len() == 0 {
        Seq::empty()
    } else {
        let before = resolved(paths.drop_last(), cwd);
        if paths.last().len() > 0 {
            before.push(paths.last())
        } else {
            match cwd {
                Some(dir) => before.push(dir),
                None => before,
            }
        }
    }
}

/// Whether a list of paths holds a path.
pub open spec fn has_path(paths: Seq<Seq<char>>, path: Seq<char>) -> bool {
    exists|i: int| 0 <= i < paths.len() && same_path(#[trigger] paths[i], path)
}

/// Paths with one more behind them, unless it is among them.
pub open spec fn with_path(paths: Seq<Seq<char>>, path: Seq<char>) -> Seq<Seq<char>> {
    if has_path(paths, path) {
        paths
    } else {
        paths.push(path)
    }
}

/// Adds a path, unless it is there.
fn push_path(out: &mut Vec<String>, path: String)
    ensures
        strs(final(out)@) == with_path(strs(old(out)@), path@),
{
    let mut k: usize = 0;
    while k < out.len()
        invariant
            k <= out@.len(),
            out@ == old(out)@,
            forall|j: int| 0 <= j < k ==> !same_path(#[trigger] strs(out@)[j], path@),
        decreases out@.len() - k,
    {
        assert(strs(out@)[k as int] == out@[k as int]@);
        if is_same_path(out[k].as_str(), path.as_str()) {
            assert(has_path(strs(out@), path@));
            return;
        }
        k += 1;
    }
    assert(strs(out@).len() == out@.len());
    let ghost before = out@;
    out.push(path);
    assert(strs(out@) =~= strs(before).push(path@));
}

/// The directories to search: those that the search path means, and the `src` directory below
/// the working directory, where it exists and is not among them.
pub open spec fn search_path(
    paths: Seq<Seq<char>>,
    cwd: Option<Seq<char>>,
    src_is_dir: bool,
) -> Seq<Seq<char>> {
    let found = resolved(paths, cwd);
    match cwd {
        Some(dir) => if src_is_dir {
            with_path(found, joined(dir, "src"@))
        } else {
            found
        },
        None => found,
    }
}

/// The directories to search. `src_is_dir` tells whether there is a directory `src` below the
/// working directory.
pub fn resolve_sys_path(
    paths: &Vec<String>,
    cwd: Option<&str>,
    src_is_dir: bool,
) -> (r: Vec<String>)
    ensures
        strs(r@) == search_path(
            strs(paths@),
            match cwd {
                Some(dir) => Some(dir@),
                None => None,
            },
            src_is_dir,
        ),
{
    let ghost all = strs(paths@);
    let ghost here = match cwd {
        Some(dir) => Some(dir@),
        None => None,
    };
    let mut out: Vec<String> = Vec::new();
    let mut i: usize = 0;
    assert(strs(out@) =~= Seq::empty());
    assert(all.take(0) =~= Seq::empty());
    while i < paths.len()
        invariant
            i <= paths@.len(),
            all == strs(paths@),
            here == match cwd {
                Some(dir) => Some(dir@),
                None => None,
            },
            strs(out@) == resolved(all.take(i as int), here),
        decreases paths@.len() - i,
    {
        assert(all.take(i + 1).drop_last() =~= all.take(i as int));
        assert(all.take(i + 1).last() == paths@[i as int]@);
        let ghost before = out@;
        if !paths[i].as_str().is_empty() {
            out.push(paths[i].clone());
            assert(strs(out@) =~= strs(before).push(paths@[i as int]@));
        } else {
            match cwd {
                Some(dir) => {
                    out.push(dir.to_owned());
                    assert(strs(out@) =~= strs(before).push(dir@));
                },
                None => {},
            }
        }
        i += 1;
    }
    assert(all.take(all.len() as int) =~= all);
    let dir = match cwd {
        Some(dir) => dir,
        None => return out,
    };
    if !src_is_dir {
        return out;
    }
    push_path(&mut out, join_path(dir, "src"));
    out
}

/// The directories to search with those that the configuration in `dir` names behind them, each
/// once.
pub open spec fn with_roots(
    paths: Seq<Seq<char>>,
    dir: Seq<char>,
    src: Seq<Seq<char>>,
) -> Seq<Seq<char>>
    decreases src.len(),
{
    if src.len() == 0 {
        paths
    } else {
        with_path(with_roots(paths, dir, src.drop_last()), joined(dir, src.last()))
    }
}

/// Adds the directories that a configuration names, as seen from its own directory. Without a
/// configuration file there are none to add.
pub fn add_roots(paths: Vec<String>, config_dir: &Option<String>, src: &Vec<String>) -> (r: Vec<
    String,
>)
    ensures
        strs(r@) == match config_dir {
            Some(dir) => with_roots(strs(paths@), dir@, strs(src@)),
            None => strs(paths@),
        },
{
    let mut out = paths;
    let dir = match config_dir {
        Some(dir) => dir,
        None => return out,
    };
    let ghost all = strs(src@);
    let mut i: usize = 0;
    assert(all.take(0) =~= Seq::empty());
    while i < src.len()
        invariant
            i <= src@.len(),
            all == strs(src@),
            strs(out@) == with_roots(strs(paths@), dir@, all.take(i as int)),
        decreases src@.len() - i,
    {
        assert(all.take(i + 1).drop_last() =~= all.take(i as int));
        assert(all.take(i + 1).last() == src@[i as int]@);
        push_path(&mut out, join_path(dir.as_str(), src[i].as_str()));
        i += 1;
    }
    assert(all.take(all.len() as int) =~= all);
    out
}

/// Every directory that the configuration names is searched, behind all that were searched
/// before.
pub proof fn law_named_roots_are_searched(
    paths: Seq<Seq<char>>,
    dir: Seq<char>,
    src: Seq<Seq<char>>,
    i: int,
)
    requires
        0 <= i < src.len(),
    ensures
        has_path(with_roots(paths, dir, src), joined(dir, src[i])),
        paths.is_prefix_of(with_roots(paths, dir, src)),
    decreases src.len(),
{
    let before = with_roots(paths, dir, src.drop_last());
    let now = with_roots(paths, dir, src);
    let last = joined(dir, src.last());
    if src.len() > 1 {
        let j = if i < src.len() - 1 {
            i
        } else {
            0
        };
        law_named_roots_are_searched(paths, dir, src.drop_last(), j);
    }
    assert(before.is_prefix_of(now));
    assert(paths.is_prefix_of(now));
    if i < src.len() - 1 {
        let path = joined(dir, src[i]);
        let k = choose|k: int| 0 <= k < before.len() && same_path(#[trigger] before[k], path);
        assert(now[k] == before[k]);
    } else if !has_path(before, last) {
        assert(same_path(now[before.len() as int], last));
    }
}

/// The working directory is searched wherever the search path holds an empty entry.
pub proof fn law_empty_entry_means_working_directory(
    paths: Seq<Seq<char>>,
    dir: Seq<char>,
    i: int,
    src_is_dir: bool,
)
    requires
        0 <= i < paths.len(),
        paths[i].len() == 0,
    ensures
        search_path(paths, Some(dir), src_is_dir).contains(dir),
{
    lemma_resolved_holds(paths, dir, i);
    let found = resolved(paths, Some(dir));
    let k = choose|k: int| 0 <= k < found.len() && found[k] == dir;
    let all = search_path(paths, Some(dir), src_is_dir);
    assert(all[k] == dir);
}

proof fn lemma_resolved_holds(paths: Seq<Seq<char>>, dir: Seq<char>, i: int)
    requires
        0 <= i < paths.len(),
        paths[i].len() == 0,
    ensures
        resolved(paths, Some(dir)).contains(dir),
    decreases paths.len(),
{
    let before = resolved(paths.drop_last(), Some(dir));
    let now = resolved(paths, Some(dir));
    if i < paths.len() - 1 {
        lemma_resolved_holds(paths.drop_last(), dir, i);
        let k = choose|k: int| 0 <= k < before.len() && before[k] == dir;
        assert(now[k] == dir);
    } else {
        assert(now[before.len() as int] == dir);
    }
}

// ---------------------------------------------------------------------------
// Fingerprint
// ---------------------------------------------------------------------------

/// When a directory was last modified, in seconds and nanoseconds.
#[derive(Clone, Copy, Debug)]
pub struct Modified {
    pub seconds: i64,
    pub nanoseconds: u32,
}

/// The bytes that stand for one directory: its path, and when it was modified.
pub open spec fn dir_bytes(dir: Seq<char>, modified: Option<Modified>) -> Seq<u8> {
    marked(quoted(dir)) + match modified {
        Some(m) => spec_u64_to_le_bytes(m.seconds as u64) + spec_u32_to_le_bytes(m.nanoseconds),
        None => marked("missing"@),
    }
}

/// The bytes that stand for several directories.
pub open spec fn env_bytes(dirs: Seq<Seq<char>>, modified: Seq<Option<Modified>>) -> Seq<u8>
    decreases dirs.len(),
{
    if dirs.len() == 0 {
        Seq::empty()
    } else {
        env_bytes(dirs.drop_last(), modified) + dir_bytes(dirs.last(), modified[dirs.len() - 1])
    }
}

/// A fingerprint of the search path that changes with the time at which a directory on it was
/// modified. A directory that cannot be read has no such time.
pub fn env_fingerprint(sys_path: &Vec<String>, modified: &Vec<Option<Modified>>) -> (r: u64)
    requires
        modified@.len() == sys_path@.len(),
    ensures
        r == sea_hash(env_bytes(strs(sys_path@), modified@)),
{
    let ghost all = strs(sys_path@);
    let mut bytes: Vec<u8> = Vec::new();
    let mut i: usize = 0;
    assert(all.take(0) =~= Seq::empty());
    while i < sys_path.len()
        invariant
            i <= sys_path@.len(),
            modified@.len() == sys_path@.len(),
            all == strs(sys_path@),
            bytes@ == env_bytes(all.take(i as int), modified@),
        decreases sys_path@.len() - i,
    {
        assert(all.take(i + 1).drop_last() =~= all.take(i as int));
        assert(all.take(i + 1).last() == sys_path@[i as int]@);
        let ghost start = bytes@;
        push_marked(&mut bytes, quote(sys_path[i].as_str()).as_str());
        match modified[i] {
            Some(m) => {
                let mut seconds = u64_to_le_bytes(m.seconds as u64);
                let mut nanoseconds = u32_to_le_bytes(m.nanoseconds);
                bytes.append(&mut seconds);
                bytes.append(&mut nanoseconds);
            },
            None => push_marked(&mut bytes, "missing"),
        }
        assert(bytes@ =~= start + dir_bytes(all[i as int], modified@[i as int]));
        i += 1;
    }
    assert(all.take(all.len() as int) =~= all);
    hash_bytes(&bytes)
}

/// The bytes of a directory that was modified at another time are other bytes.
pub proof fn law_modified_directory_has_other_bytes(dir: Seq<char>, a: Modified, b: Modified)
    requires
        dir_bytes(dir, Some(a)) == dir_bytes(dir, Some(b)),
    ensures
        a.seconds as u64 == b.seconds as u64,
        a.nanoseconds == b.nanoseconds,
{
    lemma_auto_spec_u64_to_from_le_bytes();
    lemma_auto_spec_u32_to_from_le_bytes();
    let n = marked(quoted(dir)).len() as int;
    let x = dir_bytes(dir, Some(a));
    let y = dir_bytes(dir, Some(b));
    assert(x.subrange(n, n + 8) =~= spec_u64_to_le_bytes(a.seconds as u64));
    assert(y.subrange(n, n + 8) =~= spec_u64_to_le_bytes(b.seconds as u64));
    assert(x.subrange(n + 8, n + 12) =~= spec_u32_to_le_bytes(a.nanoseconds));
    assert(y.subrange(n + 8, n + 12) =~= spec_u32_to_le_bytes(b.nanoseconds));
}

/// The entries of the search path are taken one by one: each stands for itself, and an empty one
/// for the working directory, if there is one.
pub proof fn law_entries_are_taken_one_by_one(
    a: Seq<Seq<char>>,
    b: Seq<Seq<char>>,
    cwd: Option<Seq<char>>,
    x: Seq<char>,
)
    ensures
        resolved(a + b, cwd) == resolved(a, cwd) + resolved(b, cwd),
        x.len() > 0 ==> resolved(seq![x], cwd) == seq![x],
        x.len() == 0 && cwd is Some ==> resolved(seq![x], cwd) == seq![cwd->0],
        x.len() == 0 && cwd is None ==> resolved(seq![x], cwd).len() == 0,
    decreases b.len(),
{
    let all = a + b;
    let one = seq![x];
    assert(one.drop_last() =~= Seq::empty());
    assert(resolved(one.drop_last(), cwd) =~= Seq::empty());
    assert(one.last() == x);
    if b.len() == 0 {
        assert(all =~= a);
        assert(resolved(a, cwd) + resolved(b, cwd) =~= resolved(a, cwd));
    } else {
        let rest = b.drop_last();
        law_entries_are_taken_one_by_one(a, rest, cwd, x);
        assert(all.drop_last() =~= a + rest);
        assert(all.last() == b.last());
        let y = if b.last().len() > 0 {
            b.last()
        } else {
            cwd->0
        };
        assert((resolved(a, cwd) + resolved(rest, cwd)).push(y) =~= resolved(a, cwd) + resolved(
            rest,
            cwd,
        ).push(y));
    }
}

/// The directory `src` below the working directory is searched last where it exists and is not
/// searched already; nothing else is added.
pub proof fn law_the_src_directory_is_searched(
    paths: Seq<Seq<char>>,
    dir: Seq<char>,
    cwd: Option<Seq<char>>,
)
    ensures
        !has_path(resolved(paths, Some(dir)), joined(dir, "src"@)) ==> search_path(
            paths,
            Some(dir),
            true,
        ) == resolved(paths, Some(dir)).push(joined(dir, "src"@)),
        has_path(resolved(paths, Some(dir)), joined(dir, "src"@)) ==> search_path(
            paths,
            Some(dir),
            true,
        ) == resolved(paths, Some(dir)),
        search_path(paths, cwd, false) == resolved(paths, cwd),
        search_path(paths, None, true) == resolved(paths, None),
{
}

/// A directory that the configuration names is added unless one with the same parts is there.
pub proof fn law_roots_are_added_in_turn(
    paths: Seq<Seq<char>>,
    dir: Seq<char>,
    src: Seq<Seq<char>>,
    x: Seq<char>,
)
    ensures
        ({
            let prior = with_roots(paths, dir, src);
            let new = joined(dir, x);
            let there = exists|i: int|
                0 <= i < prior.len() && is_absolute(#[trigger] prior[i]) == is_absolute(new)
                    && components(prior[i]) == components(new);
            with_roots(paths, dir, src.push(x)) == if there {
                prior
            } else {
                prior.push(new)
            }
        }),
        with_roots(paths, dir, Seq::empty()) == paths,
{
    let prior = with_roots(paths, dir, src);
    let new = joined(dir, x);
    assert(src.push(x).drop_last() =~= src);
    if has_path(prior, new) {
        let i = choose|i: int| 0 <= i < prior.len() && same_path(#[trigger] prior[i], new);
        assert(is_absolute(prior[i]) == is_absolute(new) && components(prior[i]) == components(new));
    }
    if exists|i: int|
        0 <= i < prior.len() && is_absolute(#[trigger] prior[i]) == is_absolute(new) && components(
            prior[i],
        ) == components(new) {
        let i = choose|i: int|
            0 <= i < prior.len() && is_absolute(#[trigger] prior[i]) == is_absolute(new)
                && components(prior[i]) == components(new);
        assert(same_path(prior[i], new));
    }
}

/// Every directory that is searched counts: its bytes are among those that stand for all, whatever
/// stands before and behind it.
pub proof fn law_every_directory_counts(
    dirs: Seq<Seq<char>>,
    modified: Seq<Option<Modified>>,
    i: int,
) -> (around: (Seq<u8>, Seq<u8>))
    requires
        0 <= i < dirs.len(),
    ensures
        env_bytes(dirs, modified) == around.0 + dir_bytes(dirs[i], modified[i]) + around.1,
        around.0 == env_bytes(dirs.take(i), modified),
    decreases dirs.len(),
{
    let rest = dirs.drop_last();
    let last = dir_bytes(dirs.last(), modified[dirs.len() - 1]);
    if i == dirs.len() - 1 {
        assert(dirs.take(i) =~= rest);
        let front = env_bytes(rest, modified);
        assert(front + last + Seq::<u8>::empty() =~= front + last);
        (front, Seq::empty())
    } else {
        let (front, back) = law_every_directory_counts(rest, modified, i);
        assert(rest.take(i) =~= dirs.take(i));
        assert(rest[i] == dirs[i]);
        let here = dir_bytes(dirs[i], modified[i]);
        assert(front + here + back + last =~= front + here + (back + last));
        (front, back + last)
    }
}

} // verus!
