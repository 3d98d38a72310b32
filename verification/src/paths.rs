//! File paths as texts with `/` between their parts.
use crate::split::{join, join_spec, split, split_spec};
use crate::text::{after_last, chars, find_last_char, part, string, strs};
use vstd::prelude::*;
use vstd::string::*;

verus! {

/// Whether a path starts at the root.
pub open spec fn is_absolute(path: Seq<char>) -> bool {
    path.len() > 0 && path[0] == '/'
}

/// Whether a path starts at the root.
pub fn absolute(path: &str) -> (r: bool)
    ensures
        r == is_absolute(path@),
{
    let p = chars(path);
    p.len() > 0 && p[0] == '/'
}

/// The parts that count: not the empty ones, and no `.` but at the very beginning.
pub open spec fn kept_parts(pieces: Seq<Seq<char>>) -> Seq<Seq<char>>
    decreases pieces.len(),
{
    if pieces.len() == 0 {
        Seq::empty()
    } else {
        let before = kept_parts(pieces.drop_last());
        let p = pieces.last();
        if p.len() == 0 || (p == "."@ && pieces.len() > 1) {
            before
        } else {
            before.push(p)
        }
    }
}

/// The parts of a path.
pub open spec fn components(path: Seq<char>) -> Seq<Seq<char>> {
    kept_parts(split_spec(path, '/'))
}

/// The parts of a path.
pub fn split_path(path: &str) -> (r: Vec<String>)
    ensures
        strs(r@) == components(path@),
{
    let text = chars(path);
    let pieces = split(text.as_slice(), '/');
    let ghost all = split_spec(path@, '/');
    let dot = ".".to_owned();
    let mut out: Vec<String> = Vec::new();
    let mut i: usize = 0;
    assert(strs(out@) =~= Seq::empty());
    assert(all.take(0) =~= Seq::empty());
    while i < pieces.len()
        invariant
            i <= pieces@.len(),
            strs(pieces@) == all,
            dot@ == "."@,
            strs(out@) == kept_parts(all.take(i as int)),
        decreases pieces@.len() - i,
    {
        assert(all.take(i + 1).drop_last() =~= all.take(i as int));
        assert(all.take(i + 1).last() == pieces@[i as int]@);
        if !pieces[i].as_str().is_empty() && !(pieces[i] == dot && i > 0) {
            let ghost before = out@;
            out.push(pieces[i].clone());
            assert(strs(out@) =~= strs(before).push(pieces@[i as int]@));
        }
        i += 1;
    }
    assert(all.take(all.len() as int) =~= all);
    out
}

/// `path` as seen from the directory `base`; `None` where it does not lie there.
pub open spec fn relative_to(path: Seq<char>, base: Seq<char>) -> Option<Seq<char>> {
    let p = components(path);
    let b = components(base);
    if is_absolute(path) == is_absolute(base) && b.is_prefix_of(p) {
        Some(join_spec(p.skip(b.len() as int), "/"@))
    } else {
        None
    }
}

/// `path` as seen from the directory `base`; `None` where it does not lie there.
pub fn strip_prefix(path: &str, base: &str) -> (r: Option<String>)
    ensures
        crate::types::opt(r) == relative_to(path@, base@),
{
    if absolute(path) != absolute(base) {
        return None;
    }
    let p = split_path(path);
    let b = split_path(base);
    assert(strs(p@).len() == p@.len());
    assert(strs(b@).len() == b@.len());
    if b.len() > p.len() {
        return None;
    }
    let mut i: usize = 0;
    while i < b.len()
        invariant
            i <= b@.len() <= p@.len(),
            strs(p@) == components(path@),
            strs(b@) == components(base@),
            is_absolute(path@) == is_absolute(base@),
            strs(b@).len() == b@.len(),
            forall|j: int| 0 <= j < i ==> strs(b@)[j] == strs(p@)[j],
        decreases b@.len() - i,
    {
        assert(strs(b@)[i as int] == b@[i as int]@);
        assert(strs(p@)[i as int] == p@[i as int]@);
        if b[i] != p[i] {
            assert(!strs(b@).is_prefix_of(strs(p@))) by {
                if strs(b@).is_prefix_of(strs(p@)) {
                    assert(strs(p@).take(b@.len() as int)[i as int] == strs(p@)[i as int]);
                }
            }
            return None;
        }
        i += 1;
    }
    assert(strs(p@).take(b@.len() as int) =~= strs(b@));
    let mut rest: Vec<String> = Vec::new();
    let mut k: usize = b.len();
    assert(strs(rest@) =~= strs(p@).subrange(b@.len() as int, k as int));
    while k < p.len()
        invariant
            b@.len() <= k <= p@.len(),
            strs(rest@) == strs(p@).subrange(b@.len() as int, k as int),
        decreases p@.len() - k,
    {
        let ghost before = rest@;
        rest.push(p[k].clone());
        assert(strs(rest@) =~= strs(before).push(p@[k as int]@));
        assert(strs(p@).subrange(b@.len() as int, k + 1) =~= strs(p@).subrange(
            b@.len() as int,
            k as int,
        ).push(p@[k as int]@));
        k += 1;
    }
    assert(strs(p@).subrange(b@.len() as int, p@.len() as int) =~= strs(p@).skip(b@.len() as int));
    Some(join(&rest, "/"))
}

/// The last part of a path, unless that is `.` or `..`.
pub open spec fn file_name_of(path: Seq<char>) -> Option<Seq<char>> {
    let p = components(path);
    if p.len() > 0 && p.last() != ".."@ && p.last() != "."@ {
        Some(p.last())
    } else {
        None
    }
}

/// The last part of a path.
pub fn file_name(path: &str) -> (r: Option<String>)
    ensures
        crate::types::opt(r) == file_name_of(path@),
{
    let p = split_path(path);
    assert(strs(p@).len() == p@.len());
    if p.len() == 0 {
        return None;
    }
    assert(strs(p@).last() == p@[p@.len() - 1]@);
    let last = p[p.len() - 1].clone();
    if last == "..".to_owned() || last == ".".to_owned() {
        None
    } else {
        Some(last)
    }
}

/// The part of a file name behind its last dot; a dot at the beginning does not count.
pub open spec fn extension_of(path: Seq<char>) -> Option<Seq<char>> {
    match file_name_of(path) {
        Some(name) => {
            let k = after_last(name, '.');
            if k <= 1 {
                None
            } else {
                Some(name.skip(k))
            }
        },
        None => None,
    }
}

/// The part of a file name behind its last dot.
pub fn extension(path: &str) -> (r: Option<String>)
    ensures
        crate::types::opt(r) == extension_of(path@),
{
    match file_name(path) {
        Some(name) => {
            let text = chars(name.as_str());
            let k: usize = find_last_char(text.as_slice(), '.');
            if k <= 1 {
                None
            } else {
                assert(text@.subrange(k as int, text@.len() as int) =~= text@.skip(k as int));
                Some(string(part(text.as_slice(), k, text.len())))
            }
        },
        None => None,
    }
}

/// `path` taken from the directory `dir`; a path from the root stands for itself.
pub open spec fn joined(dir: Seq<char>, path: Seq<char>) -> Seq<char> {
    if is_absolute(path) || dir.len() == 0 {
        path
    } else if dir.last() == '/' {
        dir + path
    } else {
        dir + "/"@ + path
    }
}

/// `path` taken from the directory `dir`.
pub fn join_path(dir: &str, path: &str) -> (r: String)
    ensures
        r@ == joined(dir@, path@),
{
    let d = chars(dir);
    if absolute(path) || d.len() == 0 {
        return path.to_owned();
    }
    let mut out = dir.to_owned();
    if d[d.len() - 1] != '/' {
        out.append("/");
    }
    out.append(path);
    out
}

} // verus!
