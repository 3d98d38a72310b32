//! What git says of changed files, and where a repository starts.
use crate::config::DirFacts;
use crate::ordered::{insert_text, with_texts};
use crate::split::{lines_spec, str_lines};
use crate::text::strs;
use crate::types::{opt, ChangedFiles};
use vstd::prelude::*;
use vstd::string::*;

verus! {

/// The texts that hold something.
pub open spec fn non_empty(texts: Seq<Seq<char>>) -> Seq<Seq<char>>
    decreases texts.len(),
{
    if texts.len() == 0 {
        Seq::empty()
    } else {
        let before = non_empty(texts.drop_last());
        if texts.last().len() == 0 {
            before
        } else {
            before.push(texts.last())
        }
    }
}

/// The lines of git's output that hold something.
pub fn git_lines(output: &str) -> (r: Vec<String>)
    ensures
        strs(r@) == non_empty(lines_spec(output@)),
{
    let lines = str_lines(output);
    let ghost all = lines_spec(output@);
    let mut out: Vec<String> = Vec::new();
    let mut i: usize = 0;
    assert(strs(out@) =~= Seq::empty());
    assert(all.take(0) =~= Seq::empty());
    assert(strs(lines@).len() == lines@.len());
    while i < lines.len()
        invariant
            i <= lines@.len(),
            strs(lines@) == all,
            all.len() == lines@.len(),
            strs(out@) == non_empty(all.take(i as int)),
        decreases lines@.len() - i,
    {
        assert(all.take(i + 1).drop_last() =~= all.take(i as int));
        assert(all.take(i + 1).last() == strs(lines@)[i as int]);
        if !lines[i].as_str().is_empty() {
            let ghost before = out@;
            out.push(lines[i].clone());
            assert(strs(out@) =~= strs(before).push(lines@[i as int]@));
        }
        i += 1;
    }
    assert(all.take(all.len() as int) =~= all);
    out
}

/// The files that count as changed: those with staged or unstaged changes, or else those of the
/// last commit.
pub open spec fn changed(
    staged: Seq<char>,
    unstaged: Seq<char>,
    committed: Seq<char>,
) -> Seq<Seq<char>> {
    let pending = non_empty(lines_spec(staged)) + non_empty(lines_spec(unstaged));
    if pending.len() > 0 {
        pending
    } else {
        non_empty(lines_spec(committed))
    }
}

/// The files that count as changed, each once. The arguments are what git prints for the staged
/// changes, the unstaged changes and the last commit.
pub fn get_changed_files(staged: &str, unstaged: &str, committed: &str) -> (r: ChangedFiles)
    ensures
        strs(r.files@) == with_texts(Seq::empty(), changed(staged@, unstaged@, committed@)),
{
    let mut files = git_lines(staged);
    let mut more = git_lines(unstaged);
    let ghost first = files@;
    let ghost second = more@;
    files.append(&mut more);
    assert(strs(files@) =~= strs(first) + strs(second));
    if files.len() == 0 {
        assert(strs(files@).len() == 0);
        files = git_lines(committed);
    } else {
        assert(strs(files@).len() > 0);
    }
    let ghost all = changed(staged@, unstaged@, committed@);
    let mut out: Vec<String> = Vec::new();
    let mut i: usize = 0;
    assert(strs(out@) =~= Seq::empty());
    assert(all.take(0) =~= Seq::empty());
    assert(strs(files@).len() == files@.len());
    while i < files.len()
        invariant
            i <= files@.len(),
            strs(files@) == all,
            all.len() == files@.len(),
            strs(out@) == with_texts(Seq::empty(), all.take(i as int)),
        decreases files@.len() - i,
    {
        assert(all.take(i + 1).drop_last() =~= all.take(i as int));
        assert(all.take(i + 1).last() == strs(files@)[i as int]);
        insert_text(&mut out, files[i].clone());
        i += 1;
    }
    assert(all.take(all.len() as int) =~= all);
    ChangedFiles { files: out }
}

/// The first directory that has a repository or a `pyproject.toml`.
pub open spec fn repo_root_of(dirs: Seq<DirFacts>) -> Option<Seq<char>>
    decreases dirs.len(),
{
    if dirs.len() == 0 {
        None
    } else if dirs[0].has_git || dirs[0].has_pyproject {
        Some(dirs[0].path@)
    } else {
        repo_root_of(dirs.skip(1))
    }
}

/// The root of the repository, given a directory and those above it in order.
pub fn find_repo_root(dirs: &Vec<DirFacts>) -> (r: Option<String>)
    ensures
        opt(r) == repo_root_of(dirs@),
{
    let mut i: usize = 0;
    assert(dirs@.skip(0) =~= dirs@);
    while i < dirs.len()
        invariant
            i <= dirs@.len(),
            repo_root_of(dirs@) == repo_root_of(dirs@.skip(i as int)),
        decreases dirs@.len() - i,
    {
        assert(dirs@.skip(i as int)[0] == dirs@[i as int]);
        assert(dirs@.skip(i as int).skip(1) =~= dirs@.skip(i + 1));
        if dirs[i].has_git || dirs[i].has_pyproject {
            return Some(dirs[i].path.clone());
        }
        i += 1;
    }
    None
}

/// Pending changes hide the last commit.
pub proof fn law_pending_changes_hide_the_last_commit(
    staged: Seq<char>,
    unstaged: Seq<char>,
    a: Seq<char>,
    b: Seq<char>,
)
    requires
        non_empty(lines_spec(staged)).len() > 0 || non_empty(lines_spec(unstaged)).len() > 0,
    ensures
        changed(staged, unstaged, a) == changed(staged, unstaged, b),
{
}

} // verus!
