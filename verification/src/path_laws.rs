//! How paths are put together and taken apart.
use crate::paths::{
    components, extension_of, file_name_of, is_absolute, joined, kept_parts, relative_to,
};
use crate::split::{join_spec, split_spec};
use crate::text::{after_last, index_of, lemma_index_of, lemma_index_of_is};
use crate::text_laws::law_the_last_place_is_found;
use vstd::prelude::*;

verus! {

/// Whether a text is a plain part of a path: not empty, without a slash, and neither `.` nor `..`.
pub open spec fn is_plain(s: Seq<char>) -> bool {
    s.len() > 0 && s != "."@ && s != ".."@ && forall|i: int|
        0 <= i < s.len() ==> #[trigger] s[i] != '/'
}

proof fn lemma_split_behind(dir: Seq<char>, name: Seq<char>)
    requires
        is_plain(name),
    ensures
        split_spec(dir + seq!['/'] + name, '/') == split_spec(dir, '/').push(name),
    decreases dir.len(),
{
    let whole = dir + seq!['/'] + name;
    let k = index_of(dir, '/');
    lemma_index_of(dir, '/');
    assert(whole[dir.len() as int] == '/');
    assert(forall|j: int| 0 <= j < dir.len() ==> whole[j] == dir[j]);
    lemma_index_of_is(whole, '/', k);
    if k < dir.len() {
        let rest = dir.skip(k + 1);
        lemma_split_behind(rest, name);
        assert(whole.take(k) =~= dir.take(k));
        assert(whole.skip(k + 1) =~= rest + seq!['/'] + name);
        assert(split_spec(whole, '/') =~= split_spec(dir, '/').push(name));
    } else {
        assert(whole.take(k) =~= dir);
        assert(whole.skip(k + 1) =~= name);
        lemma_index_of_is(name, '/', name.len() as int);
        assert(split_spec(name, '/') =~= seq![name]);
        assert(split_spec(dir, '/') =~= seq![dir]);
        assert(split_spec(whole, '/') =~= seq![dir].push(name));
    }
}

/// A name put behind a directory and a slash is one more part of the path, and is its file name.
pub proof fn law_a_name_is_the_last_part(dir: Seq<char>, name: Seq<char>)
    requires
        is_plain(name),
    ensures
        components(dir + seq!['/'] + name) == components(dir).push(name),
        file_name_of(dir + seq!['/'] + name) == Some(name),
{
    let whole = dir + seq!['/'] + name;
    lemma_split_behind(dir, name);
    let pieces = split_spec(dir, '/');
    crate::split::lemma_split_nonempty(dir, '/');
    assert(pieces.push(name).drop_last() =~= pieces);
    assert(pieces.push(name).last() == name);
    assert(components(whole) =~= components(dir).push(name));
}

/// A name alone is one part.
pub proof fn law_a_name_is_a_path(name: Seq<char>)
    requires
        is_plain(name),
    ensures
        components(name) == seq![name],
        file_name_of(name) == Some(name),
{
    lemma_index_of_is(name, '/', name.len() as int);
    let pieces = seq![name];
    assert(split_spec(name, '/') =~= pieces);
    assert(pieces.drop_last() =~= Seq::empty());
    assert(kept_parts(pieces.drop_last()) =~= Seq::empty());
    assert(pieces.last() == name);
    assert(kept_parts(pieces) =~= seq![name]);
}

/// What is put into a directory is seen from there by its own name.
pub proof fn law_what_is_put_into_a_directory_is_seen_from_there(dir: Seq<char>, name: Seq<char>)
    requires
        is_plain(name),
        dir.len() > 0,
    ensures
        relative_to(joined(dir, name), dir) == Some(name),
        file_name_of(joined(dir, name)) == Some(name),
{
    reveal_strlit("/");
    assert("/"@ =~= seq!['/']);
    assert(!is_absolute(name)) by {
        assert(name[0] != '/');
    }
    let path = joined(dir, name);
    if dir.last() == '/' {
        let front = dir.drop_last();
        assert(path =~= front + seq!['/'] + name);
        law_a_name_is_the_last_part(front, name);
        lemma_trailing_slash(front);
        assert(front + seq!['/'] =~= dir);
        assert(components(path) == components(dir).push(name));
    } else {
        law_a_name_is_the_last_part(dir, name);
    }
    let b = components(dir);
    let p = components(path);
    assert(p == b.push(name));
    assert(p.take(b.len() as int) =~= b);
    assert(b.is_prefix_of(p));
    assert(p.skip(b.len() as int) =~= seq![name]);
    assert(join_spec(seq![name], "/"@) == name);
    assert(path[0] == dir[0]);
}

proof fn lemma_trailing_slash(dir: Seq<char>)
    ensures
        components(dir + seq!['/']) == components(dir),
{
    lemma_split_slash(dir);
    let pieces = split_spec(dir, '/');
    let empty = Seq::<char>::empty();
    assert(pieces.push(empty).drop_last() =~= pieces);
    assert(pieces.push(empty).last() == empty);
}

proof fn lemma_split_slash(dir: Seq<char>)
    ensures
        split_spec(dir + seq!['/'], '/') == split_spec(dir, '/').push(Seq::empty()),
    decreases dir.len(),
{
    let whole = dir + seq!['/'];
    let empty = Seq::<char>::empty();
    let k = index_of(dir, '/');
    lemma_index_of(dir, '/');
    assert(whole[dir.len() as int] == '/');
    assert(forall|j: int| 0 <= j < dir.len() ==> whole[j] == dir[j]);
    lemma_index_of_is(whole, '/', k);
    if k < dir.len() {
        let rest = dir.skip(k + 1);
        lemma_split_slash(rest);
        assert(whole.take(k) =~= dir.take(k));
        assert(whole.skip(k + 1) =~= rest + seq!['/']);
        assert(split_spec(whole, '/') =~= split_spec(dir, '/').push(empty));
    } else {
        assert(whole.take(k) =~= dir);
        assert(whole.skip(k + 1) =~= empty);
        lemma_index_of_is(empty, '/', 0);
        assert(split_spec(empty, '/') =~= seq![empty]);
        assert(split_spec(dir, '/') =~= seq![dir]);
        assert(split_spec(whole, '/') =~= seq![dir].push(empty));
    }
}

/// A path is seen from a directory exactly where its parts are those of the directory and more; it
/// is then those, with slashes between them.
pub proof fn law_a_path_is_seen_from_the_directories_around_it(
    path: Seq<char>,
    base: Seq<char>,
    rest: Seq<Seq<char>>,
)
    requires
        is_absolute(path) == is_absolute(base),
    ensures
        components(path) == components(base) + rest ==> relative_to(path, base) == Some(
            join_spec(rest, "/"@),
        ),
        relative_to(path, base) is Some ==> components(base).len() <= components(path).len()
            && components(path).take(components(base).len() as int) == components(base),
{
    let p = components(path);
    let b = components(base);
    if p == b + rest {
        assert(p.take(b.len() as int) =~= b);
        assert(b.is_prefix_of(p));
        assert(p.skip(b.len() as int) =~= rest);
    }
    if relative_to(path, base) is Some {
        assert(p.take(b.len() as int) =~= b);
    }
}

/// A path from the root stands for itself wherever it is taken from.
pub proof fn law_paths_from_the_root_stay(dir: Seq<char>, path: Seq<char>)
    requires
        path.len() > 0,
        path[0] == '/',
    ensures
        joined(dir, path) == path,
{
}

/// The extension of a file is what stands behind the last dot of its name.
pub proof fn law_extensions_follow_the_last_dot(base: Seq<char>, extension: Seq<char>)
    requires
        base.len() > 0,
        forall|i: int| 0 <= i < base.len() ==> #[trigger] base[i] != '/',
        forall|i: int|
            0 <= i < extension.len() ==> #[trigger] extension[i] != '/' && extension[i] != '.',
        base + seq!['.'] + extension != ".."@,
    ensures
        extension_of(base + seq!['.'] + extension) == Some(extension),
{
    let name = base + seq!['.'] + extension;
    reveal_strlit(".");
    assert(name.len() >= 2);
    assert("."@.len() == 1);
    assert forall|i: int| 0 <= i < name.len() implies #[trigger] name[i] != '/' by {
        if i < base.len() {
            assert(name[i] == base[i]);
        } else if i > base.len() {
            assert(name[i] == extension[i - base.len() - 1]);
        }
    }
    law_a_name_is_a_path(name);
    let k = after_last(name, '.');
    law_the_last_place_is_found(name, '.');
    let n = base.len() as int;
    assert(name[n] == '.');
    assert forall|i: int| n < i < name.len() implies #[trigger] name[i] != '.' by {
        assert(name[i] == extension[i - n - 1]);
    }
    if k <= n {
        assert(name[n] != '.');
    }
    if k > n + 1 {
        assert(name[k - 1] == '.');
    }
    assert(name.skip(n + 1) =~= extension);
}

} // verus!
