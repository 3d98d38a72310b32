//! Which files a run looks at, in which order, and what becomes of what it finds.
use crate::cache::Cache;
use crate::edit::lemma_push_holds;
use crate::matching::{any_glob, glob_error, glob_match, glob_set_error, valid_globs};
use crate::paths::{components, file_name_of, is_absolute};
use crate::report::FileView;
use crate::run::{
    anchor_of, elsewhere, excluded, in_changed, kept, known_findings, looked_at, on_lines,
    parts_before, path_before, path_key, place_path, real_paths, records_for, sorted_paths,
    warning_line, with_file, with_findings, Target,
};
use crate::split::decimal;
use crate::types::{record_of, RecordView, ViolationView};
use vstd::prelude::*;

verus! {

// ---------------------------------------------------------------------------
// Paths
// ---------------------------------------------------------------------------

/// Every path but that of standard input is a real one, in the order given.
pub proof fn law_real_paths_are_kept_one_by_one(a: Seq<Seq<char>>, b: Seq<Seq<char>>, x: Seq<char>)
    ensures
        real_paths(a + b) == real_paths(a) + real_paths(b),
        real_paths(seq!["-"@]).len() == 0,
        x != "-"@ ==> real_paths(seq![x]) == seq![x],
    decreases b.len(),
{
    let all = a + b;
    let one = seq![x];
    assert(one.drop_last() =~= Seq::empty());
    assert(real_paths(one.drop_last()) =~= Seq::empty());
    assert(Seq::<Seq<char>>::empty().push(x) =~= one);
    let none = seq!["-"@];
    assert(none.drop_last() =~= Seq::empty());
    assert(real_paths(none.drop_last()) =~= Seq::empty());
    if b.len() == 0 {
        assert(all =~= a);
        assert(real_paths(a) + real_paths(b) =~= real_paths(a));
    } else {
        law_real_paths_are_kept_one_by_one(a, b.drop_last(), x);
        assert(all.drop_last() =~= a + b.drop_last());
        assert(all.last() == b.last());
        assert((real_paths(a) + real_paths(b.drop_last())).push(b.last()) =~= real_paths(a) + (
        real_paths(b.drop_last()).push(b.last())));
    }
}

/// The configuration is looked for from the first path that is not standard input.
pub proof fn law_the_first_real_path_is_the_anchor(paths: Seq<Seq<char>>, k: int)
    requires
        0 <= k < paths.len(),
        paths[k] != "-"@,
        forall|i: int| 0 <= i < k ==> #[trigger] paths[i] == "-"@,
    ensures
        anchor_of(paths) == Some(paths[k]),
{
    let front = paths.take(k);
    lemma_only_stdin(front);
    let one = seq![paths[k]];
    let back = paths.skip(k + 1);
    assert(paths =~= front + one + back);
    law_real_paths_are_kept_one_by_one(front, one, paths[k]);
    law_real_paths_are_kept_one_by_one(front + one, back, paths[k]);
    assert(real_paths(paths) =~= one + real_paths(back));
}

proof fn lemma_only_stdin(paths: Seq<Seq<char>>)
    requires
        forall|i: int| 0 <= i < paths.len() ==> #[trigger] paths[i] == "-"@,
    ensures
        real_paths(paths).len() == 0,
    decreases paths.len(),
{
    if paths.len() > 0 {
        let rest = paths.drop_last();
        assert forall|i: int| 0 <= i < rest.len() implies #[trigger] rest[i] == "-"@ by {
            assert(rest[i] == paths[i]);
        }
        lemma_only_stdin(rest);
        assert(paths[paths.len() - 1] == "-"@);
    }
}

// ---------------------------------------------------------------------------
// Files that are left out
// ---------------------------------------------------------------------------

/// Whether a glob leaves a file out: it is valid and matches the file's path or its name.
pub open spec fn leaves_out(glob: Seq<char>, path: Seq<char>) -> bool {
    &&& glob_error(glob) is None
    &&& glob_match(glob, path) == Some(true) || file_name_of(path) is Some && glob_match(
        glob,
        file_name_of(path)->0,
    ) == Some(true)
}

proof fn lemma_valid(globs: Seq<Seq<char>>, g: Seq<char>)
    ensures
        valid_globs(globs).contains(g) <==> globs.contains(g) && glob_error(g) is None,
    decreases globs.len(),
{
    if globs.len() > 0 {
        let rest = globs.drop_last();
        lemma_valid(rest, g);
        lemma_push_holds(rest, globs.last(), g);
        assert(globs =~= rest.push(globs.last()));
        lemma_push_holds(valid_globs(rest), globs.last(), g);
    }
}

/// Each glob leaves files out on its own, whatever the others are.
pub proof fn law_each_glob_leaves_files_out(path: Seq<char>, exclude: Seq<Seq<char>>)
    requires
        glob_set_error(valid_globs(exclude)) is None,
    ensures
        excluded(path, exclude) <==> exists|i: int|
            0 <= i < exclude.len() && leaves_out(#[trigger] exclude[i], path),
{
    let globs = valid_globs(exclude);
    if excluded(path, exclude) {
        let seen = if any_glob(globs, path) {
            path
        } else {
            file_name_of(path)->0
        };
        assert(any_glob(globs, seen));
        let j = choose|j: int|
            0 <= j < globs.len() && glob_match(#[trigger] globs[j], seen) == Some(true);
        lemma_valid(exclude, globs[j]);
        assert(globs.contains(globs[j]));
        let i = choose|i: int| 0 <= i < exclude.len() && exclude[i] == globs[j];
        assert(leaves_out(exclude[i], path));
    }
    if exists|i: int| 0 <= i < exclude.len() && leaves_out(#[trigger] exclude[i], path) {
        let i = choose|i: int| 0 <= i < exclude.len() && leaves_out(#[trigger] exclude[i], path);
        lemma_valid(exclude, exclude[i]);
        let j = choose|j: int| 0 <= j < globs.len() && globs[j] == exclude[i];
        let seen = if glob_match(exclude[i], path) == Some(true) {
            path
        } else {
            file_name_of(path)->0
        };
        assert(glob_match(globs[j], seen) == Some(true));
        assert(any_glob(globs, seen));
    }
}

/// Of the files that no glob leaves out, those whose names end in `.py` are looked at, and no
/// others.
pub proof fn law_python_files_are_looked_at(
    path: Seq<char>,
    name: Seq<char>,
    exclude: Seq<Seq<char>>,
)
    requires
        file_name_of(path) == Some(name),
        name.len() > 3,
    ensures
        looked_at(path, exclude) <==> ".py"@.is_suffix_of(name) && !excluded(path, exclude),
{
    reveal_strlit(".py");
    reveal_strlit("py");
    let n = name.len() as int;
    crate::text_laws::law_the_last_place_is_found(name, '.');
    let k = crate::text::after_last(name, '.');
    if ".py"@.is_suffix_of(name) {
        assert(name.skip(n - 3) =~= ".py"@);
        assert(name.skip(n - 3)[0] == name[n - 3]);
        assert(name.skip(n - 3)[1] == name[n - 2]);
        assert(name.skip(n - 3)[2] == name[n - 1]);
        assert(name[n - 3] == '.' && name[n - 2] == 'p' && name[n - 1] == 'y');
        assert(k == n - 2);
        assert(name.skip(k) =~= "py"@);
    } else if k > 1 && name.skip(k) == "py"@ {
        assert(name.skip(k).len() == n - k);
        assert(name.skip(k)[0] == name[n - 2]);
        assert(name.skip(k)[1] == name[n - 1]);
        assert(name.skip(n - 3) =~= ".py"@);
    }
}

// ---------------------------------------------------------------------------
// Order
// ---------------------------------------------------------------------------

/// Parts are compared by the first that differs; a list comes before one that goes on.
pub proof fn law_the_first_difference_decides(
    front: Seq<Seq<char>>,
    a: Seq<Seq<char>>,
    b: Seq<Seq<char>>,
)
    ensures
        parts_before(front + a, front + b) <==> parts_before(a, b),
        a.len() == 0 && b.len() > 0 ==> parts_before(front + a, front + b) && !parts_before(
            front + b,
            front + a,
        ),
        a.len() > 0 && b.len() > 0 && a[0] != b[0] ==> (parts_before(front + a, front + b)
            <==> crate::ordered::before(a[0], b[0])),
    decreases front.len(),
{
    if front.len() == 0 {
        assert(front + a =~= a);
        assert(front + b =~= b);
    } else {
        let rest = front.skip(1);
        law_the_first_difference_decides(rest, a, b);
        assert((front + a).skip(1) =~= rest + a);
        assert((front + b).skip(1) =~= rest + b);
        assert((front + a)[0] == (front + b)[0]);
    }
}

/// A directory comes before what lies in it.
pub proof fn law_directories_come_before_their_files(dir: Seq<char>, path: Seq<char>)
    requires
        is_absolute(dir) == is_absolute(path),
        components(dir).is_prefix_of(components(path)),
        components(dir).len() < components(path).len(),
    ensures
        path_before(dir, path),
        !path_before(path, dir),
{
    let front = path_key(dir);
    let all = path_key(path);
    let more = all.skip(front.len() as int);
    assert(all.take(front.len() as int) =~= front) by {
        assert forall|i: int| 0 <= i < components(dir).len() implies components(dir)[i]
            == components(path)[i] by {
            assert(components(path).take(components(dir).len() as int) =~= components(dir));
        }
    }
    assert(all =~= front + more);
    assert(front =~= front + Seq::empty());
    law_the_first_difference_decides(front, Seq::empty(), more);
}

/// Whether a part of a path is a name and neither of the two that stand for directories.
pub open spec fn is_name(part: Seq<char>) -> bool {
    part != "."@ && part != ".."@
}

/// Paths that part ways at names come in the order of these names.
pub proof fn law_paths_come_in_the_order_of_names(a: Seq<char>, b: Seq<char>, k: int)
    requires
        is_absolute(a) == is_absolute(b),
        0 <= k < components(a).len(),
        k < components(b).len(),
        components(a).take(k) == components(b).take(k),
        is_name(components(a)[k]),
        is_name(components(b)[k]),
        components(a)[k] != components(b)[k],
    ensures
        path_before(a, b) <==> crate::ordered::before(components(a)[k], components(b)[k]),
{
    let n = if is_absolute(a) {
        k + 1
    } else {
        k
    };
    let x = path_key(a);
    let y = path_key(b);
    let front = x.take(n);
    assert(y.take(n) =~= front) by {
        assert forall|i: int| 0 <= i < k implies components(a)[i] == components(b)[i] by {
            assert(components(a).take(k)[i] == components(b).take(k)[i]);
        }
    }
    assert(x =~= front + x.skip(n));
    assert(y =~= front + y.skip(n));
    let p = components(a)[k];
    let q = components(b)[k];
    reveal_strlit("4");
    assert(x[n] == "4"@ + p);
    assert(y[n] == "4"@ + q);
    assert(x.skip(n)[0] == "4"@ + p);
    assert(y.skip(n)[0] == "4"@ + q);
    assert(("4"@ + p).skip(1) =~= p);
    assert(("4"@ + q).skip(1) =~= q);
    law_the_first_difference_decides(front, x.skip(n), y.skip(n));
}

proof fn lemma_parts_irreflexive(a: Seq<Seq<char>>, b: Seq<Seq<char>>)
    ensures
        !(parts_before(a, b) && parts_before(b, a)),
    decreases a.len(),
{
    if a.len() > 0 && b.len() > 0 {
        if a[0] == b[0] {
            lemma_parts_irreflexive(a.skip(1), b.skip(1));
        } else {
            crate::ordered::lemma_before_total(a[0], b[0]);
        }
    }
}

proof fn lemma_parts_carried(a: Seq<Seq<char>>, b: Seq<Seq<char>>, c: Seq<Seq<char>>)
    requires
        !parts_before(b, a),
        !parts_before(c, b),
    ensures
        !parts_before(c, a),
    decreases a.len(),
{
    if a.len() > 0 && b.len() > 0 && c.len() > 0 {
        crate::ordered::lemma_before_total(a[0], b[0]);
        crate::ordered::lemma_before_total(b[0], c[0]);
        crate::ordered::lemma_before_total(a[0], c[0]);
        if a[0] == b[0] && b[0] == c[0] {
            lemma_parts_carried(a.skip(1), b.skip(1), c.skip(1));
        } else if a[0] != b[0] && b[0] != c[0] {
            crate::ordered::lemma_before_transitive(a[0], b[0], c[0]);
        }
    }
}

/// Whether no path comes before one that stands in front of it.
pub open spec fn in_path_order(s: Seq<Seq<char>>) -> bool {
    forall|i: int, j: int| 0 <= i < j < s.len() ==> !path_before(#[trigger] s[j], #[trigger] s[i])
}

proof fn lemma_placed(s: Seq<Seq<char>>, x: Seq<char>)
    requires
        in_path_order(s),
    ensures
        in_path_order(place_path(s, x)),
        place_path(s, x).to_multiset() == s.to_multiset().insert(x),
    decreases s.len(),
{
    broadcast use vstd::seq_lib::group_to_multiset_ensures;

    if s.len() == 0 {
        assert(s.push(x).to_multiset() =~= s.to_multiset().insert(x));
    } else if !path_before(x, s.last()) {
        let r = s.push(x);
        assert forall|i: int, j: int| 0 <= i < j < r.len() implies !path_before(
            #[trigger] r[j],
            #[trigger] r[i],
        ) by {
            if j == s.len() {
                if i < s.len() - 1 {
                    assert(!path_before(s[s.len() - 1], s[i]));
                    lemma_parts_carried(path_key(s[i]), path_key(s.last()), path_key(x));
                }
            } else {
                assert(r[j] == s[j] && r[i] == s[i]);
            }
        }
    } else {
        let rest = s.drop_last();
        assert forall|i: int, j: int| 0 <= i < j < rest.len() implies !path_before(
            #[trigger] rest[j],
            #[trigger] rest[i],
        ) by {
            assert(rest[j] == s[j] && rest[i] == s[i]);
        }
        lemma_placed(rest, x);
        let front = place_path(rest, x);
        let r = front.push(s.last());
        assert(s =~= rest.push(s.last()));
        assert(r.to_multiset() =~= front.to_multiset().insert(s.last()));
        assert(s.to_multiset() =~= rest.to_multiset().insert(s.last()));
        assert(r.to_multiset() =~= s.to_multiset().insert(x));
        assert forall|i: int, j: int| 0 <= i < j < r.len() implies !path_before(
            #[trigger] r[j],
            #[trigger] r[i],
        ) by {
            if j == front.len() {
                let y = front[i];
                assert(r[i] == y);
                assert(front.to_multiset().count(y) > 0) by {
                    assert(front.contains(y));
                }
                if y == x {
                    lemma_parts_irreflexive(path_key(x), path_key(s.last()));
                } else {
                    assert(rest.to_multiset().count(y) > 0);
                    assert(rest.contains(y));
                    let k = choose|k: int| 0 <= k < rest.len() && rest[k] == y;
                    assert(s[k] == y);
                    assert(!path_before(s[s.len() - 1], s[k]));
                }
            } else {
                assert(r[j] == front[j] && r[i] == front[i]);
            }
        }
    }
}

/// Sorting paths keeps each as often as it was there, and puts none before one that comes before
/// it.
pub proof fn law_paths_are_sorted(s: Seq<Seq<char>>)
    ensures
        in_path_order(sorted_paths(s)),
        sorted_paths(s).to_multiset() == s.to_multiset(),
    decreases s.len(),
{
    broadcast use vstd::seq_lib::group_to_multiset_ensures;

    if s.len() > 0 {
        law_paths_are_sorted(s.drop_last());
        lemma_placed(sorted_paths(s.drop_last()), s.last());
        assert(s =~= s.drop_last().push(s.last()));
        assert(s.to_multiset() =~= s.drop_last().to_multiset().insert(s.last()));
    }
}

/// Each text stands on a line of its own, behind those before it.
pub proof fn law_texts_stand_on_lines(a: Seq<Seq<char>>, b: Seq<Seq<char>>, x: Seq<char>)
    ensures
        on_lines(a + b) == on_lines(a) + on_lines(b),
        on_lines(seq![x]) == x + "\n"@,
    decreases b.len(),
{
    let all = a + b;
    let one = seq![x];
    assert(one.drop_last() =~= Seq::empty());
    assert(on_lines(one.drop_last()) =~= Seq::empty());
    assert(Seq::<char>::empty() + x + "\n"@ =~= x + "\n"@);
    if b.len() == 0 {
        assert(all =~= a);
        assert(on_lines(a) + on_lines(b) =~= on_lines(a));
    } else {
        law_texts_stand_on_lines(a, b.drop_last(), x);
        assert(all.drop_last() =~= a + b.drop_last());
        assert(all.last() == b.last());
        assert(on_lines(a) + on_lines(b.drop_last()) + b.last() + "\n"@ =~= on_lines(a) + (on_lines(
            b.drop_last(),
        ) + b.last() + "\n"@));
    }
}

// ---------------------------------------------------------------------------
// Findings
// ---------------------------------------------------------------------------

/// What was found in a file takes the place of what was found there before; what was found in
/// other files stays.
pub proof fn law_findings_replace_those_of_their_file(
    files: Seq<FileView>,
    f: FileView,
    other: FileView,
)
    requires
        other.path != f.path,
    ensures
        with_file(files, f).contains(f),
        with_file(files, f).contains(other) <==> files.contains(other),
        f.records.len() > 0 ==> with_findings(files, f) == with_file(files, f),
        f.records.len() == 0 ==> with_findings(files, f) == files,
    decreases files.len(),
{
    let r = with_file(files, f);
    if files.len() == 0 {
        assert(r[0] == f);
        assert forall|i: int| 0 <= i < r.len() implies r[i] != other by {}
    } else if files[0].path == f.path {
        assert(r[0] == f);
        if files.contains(other) {
            let i = choose|i: int| 0 <= i < files.len() && files[i] == other;
            assert(r[i] == other);
        }
        if r.contains(other) {
            let i = choose|i: int| 0 <= i < r.len() && r[i] == other;
            assert(files[i] == other);
        }
    } else {
        let rest = files.skip(1);
        law_findings_replace_those_of_their_file(rest, f, other);
        let s = with_file(rest, f);
        let k = choose|k: int| 0 <= k < s.len() && s[k] == f;
        assert(r[k + 1] == f);
        if files.contains(other) {
            let i = choose|i: int| 0 <= i < files.len() && files[i] == other;
            if i == 0 {
                assert(r[0] == other);
            } else {
                assert(rest[i - 1] == other);
                let j = choose|j: int| 0 <= j < s.len() && s[j] == other;
                assert(r[j + 1] == other);
            }
        }
        if r.contains(other) {
            let i = choose|i: int| 0 <= i < r.len() && r[i] == other;
            if i == 0 {
                assert(files[0] == other);
            } else {
                assert(s[i - 1] == other);
                let j = choose|j: int| 0 <= j < rest.len() && rest[j] == other;
                assert(files[j + 1] == other);
            }
        }
    }
}

/// The findings of a file are kept exactly where it was changed.
pub proof fn law_changed_files_are_kept(files: Seq<FileView>, changed: Seq<Seq<char>>, f: FileView)
    ensures
        in_changed(files, changed).contains(f) <==> files.contains(f) && exists|i: int|
            0 <= i < changed.len() && #[trigger] changed[i] == f.path,
    decreases files.len(),
{
    if files.len() > 0 {
        let rest = files.drop_last();
        law_changed_files_are_kept(rest, changed, f);
        lemma_push_holds(rest, files.last(), f);
        assert(files =~= rest.push(files.last()));
        lemma_push_holds(in_changed(rest, changed), files.last(), f);
    }
    if changed.contains(f.path) {
        let i = choose|i: int| 0 <= i < changed.len() && changed[i] == f.path;
        assert(changed[i] == f.path);
    }
}

/// Of two lists of files, the findings are sorted into changed files and others one list after the
/// other.
pub proof fn law_files_are_sorted_out_one_by_one(
    a: Seq<FileView>,
    b: Seq<FileView>,
    changed: Seq<Seq<char>>,
)
    ensures
        in_changed(a + b, changed) == in_changed(a, changed) + in_changed(b, changed),
        elsewhere(a + b, changed) == elsewhere(a, changed) + elsewhere(b, changed),
    decreases b.len(),
{
    let all = a + b;
    if b.len() == 0 {
        assert(all =~= a);
        assert(in_changed(a, changed) + in_changed(b, changed) =~= in_changed(a, changed));
        assert(elsewhere(a, changed) + elsewhere(b, changed) =~= elsewhere(a, changed));
    } else {
        let rest = b.drop_last();
        let f = b.last();
        law_files_are_sorted_out_one_by_one(a, rest, changed);
        assert(all.drop_last() =~= a + rest);
        assert(all.last() == f);
        assert((in_changed(a, changed) + in_changed(rest, changed)).push(f) =~= in_changed(
            a,
            changed,
        ) + in_changed(rest, changed).push(f));
        let lines = f.records.map_values(|r: RecordView| warning_line(f.path, r));
        assert(elsewhere(a, changed) + elsewhere(rest, changed) + lines =~= elsewhere(a, changed) + (
        elsewhere(rest, changed) + lines));
    }
}

/// Every finding of a file that was not changed is warned of, in order, with the file, the line
/// and the message; none of a file that was.
pub proof fn law_findings_elsewhere_are_warned_of(
    f: FileView,
    changed: Seq<Seq<char>>,
    i: int,
    line: u64,
    message: Seq<char>,
)
    requires
        0 <= i < f.records.len(),
        f.records[i].line == Some(line),
        f.records[i].message == Some(message),
    ensures
        !changed.contains(f.path) ==> elsewhere(seq![f], changed).len() == f.records.len()
            && elsewhere(seq![f], changed)[i] == f.path + ":"@ + decimal(line as nat) + ": "@
            + message,
        changed.contains(f.path) ==> elsewhere(seq![f], changed).len() == 0,
{
    let one = seq![f];
    assert(one.drop_last() =~= Seq::empty());
    assert(elsewhere(one.drop_last(), changed) =~= Seq::empty());
    assert(one.last() == f);
}

/// What the cache tells of a file is among what is known, unless a later file has the same path.
pub proof fn law_what_the_cache_tells_is_known(
    cache: Cache,
    targets: Seq<Target>,
    n: int,
    i: int,
)
    requires
        0 <= i < n <= targets.len(),
        kept(cache, targets[i]) is Some,
        kept(cache, targets[i])->0.len() > 0,
        forall|j: int| i < j < n ==> (#[trigger] targets[j]).path@ != targets[i].path@,
    ensures
        known_findings(cache, targets, n).contains(
            FileView { path: targets[i].path@, records: kept(cache, targets[i])->0 },
        ),
    decreases n,
{
    let f = FileView { path: targets[i].path@, records: kept(cache, targets[i])->0 };
    let prior = known_findings(cache, targets, n - 1);
    if i == n - 1 {
        let other = FileView { path: f.path.push('x'), records: f.records };
        assert(other.path.len() != f.path.len());
        law_findings_replace_those_of_their_file(prior, f, other);
    } else {
        law_what_the_cache_tells_is_known(cache, targets, n - 1, i);
        if kept(cache, targets[n - 1]) is Some {
            let g = FileView {
                path: targets[n - 1].path@,
                records: kept(cache, targets[n - 1])->0,
            };
            assert(targets[n - 1].path@ != targets[i].path@);
            law_findings_replace_those_of_their_file(prior, g, f);
        }
    }
}

/// The findings of a file are its violations in their wire form, each in its place.
pub proof fn law_violations_become_records(v: Seq<ViolationView>, i: int)
    requires
        0 <= i < v.len(),
    ensures
        records_for(v).len() == v.len(),
        records_for(v)[i] == record_of(v[i]),
{
}

} // verus!
