//! The parts of a run of `check`: which files it looks at, what the cache spares it, and where
//! its findings go.
use crate::cache::{all_cached, entry_views, sea_hash, Cache, EntryView, FileCacheKey};
use crate::cli::CheckArgs;
use crate::matching::{
    any_glob, check_glob_set, glob_set_error, keep_valid_globs, lemma_valid_globs, matches_any,
    valid_globs,
};
use crate::ordered::{before, has_text, less};
use crate::paths::{
    absolute, components, extension, extension_of, file_name, file_name_of, is_absolute, split_path,
};
use crate::report::{file_views, FileRecords, FileView};
use crate::split::{decimal, number};
use crate::text::{eq, strs};
use crate::types::{
    copy_opt, number_or, opt, or_number, or_text, record_of, record_views, text_or,
    violation_views, ChangedFiles, Record, RecordView, Violation, ViolationView,
};
use vstd::prelude::*;
use vstd::string::*;

verus! {

// ---------------------------------------------------------------------------
// Files
// ---------------------------------------------------------------------------

/// Whether standard input is among the files.
pub open spec fn reads_stdin(paths: Seq<Seq<char>>) -> bool {
    paths.contains("-"@)
}

/// The paths that are not standard input.
pub open spec fn real_paths(paths: Seq<Seq<char>>) -> Seq<Seq<char>>
    decreases paths.len(),
{
    if paths.len() == 0 {
        Seq::empty()
    } else {
        let first = real_paths(paths.drop_last());
        if paths.last() == "-"@ {
            first
        } else {
            first.push(paths.last())
        }
    }
}

/// The first path that is not standard input.
pub open spec fn anchor_of(paths: Seq<Seq<char>>) -> Option<Seq<char>> {
    if real_paths(paths).len() == 0 {
        None
    } else {
        Some(real_paths(paths)[0])
    }
}

/// What a run of `check` is to work on.
pub struct RunPlan {
    pub wants_stdin: bool,
    /// The name that standard input goes by.
    pub stdin_display: String,
    /// The path that the configuration is looked for from.
    pub anchor: Option<String>,
    /// The files and directories to walk.
    pub walk: Vec<String>,
    /// Globs of files to leave out.
    pub exclude: Vec<String>,
}

fn keep_real_paths(paths: &Vec<String>) -> (r: Vec<String>)
    ensures
        strs(r@) == real_paths(strs(paths@)),
{
    let ghost all = strs(paths@);
    let mut out: Vec<String> = Vec::new();
    let mut i: usize = 0;
    assert(strs(out@) =~= Seq::empty());
    assert(all.take(0) =~= Seq::empty());
    while i < paths.len()
        invariant
            i <= paths@.len(),
            all == strs(paths@),
            strs(out@) == real_paths(all.take(i as int)),
        decreases paths@.len() - i,
    {
        assert(all.take(i + 1).drop_last() =~= all.take(i as int));
        assert(all.take(i + 1).last() == paths@[i as int]@);
        if !eq(paths[i].as_str(), "-") {
            let ghost prior = out@;
            out.push(paths[i].clone());
            assert(strs(out@) =~= strs(prior).push(paths@[i as int]@));
        }
        i += 1;
    }
    assert(all.take(all.len() as int) =~= all);
    out
}

/// Copies of texts.
pub fn copy_texts(v: &Vec<String>) -> (r: Vec<String>)
    ensures
        strs(r@) == strs(v@),
{
    let mut out: Vec<String> = Vec::new();
    let mut i: usize = 0;
    assert(strs(out@) =~= strs(v@).take(0));
    while i < v.len()
        invariant
            i <= v@.len(),
            strs(out@) == strs(v@).take(i as int),
        decreases v@.len() - i,
    {
        let ghost prior = out@;
        out.push(v[i].clone());
        assert(strs(out@) =~= strs(prior).push(v@[i as int]@));
        assert(strs(v@).take(i + 1) =~= strs(v@).take(i as int).push(v@[i as int]@));
        i += 1;
    }
    assert(strs(v@).take(strs(v@).len() as int) =~= strs(v@));
    out
}

/// What a run of `check` is to work on.
pub fn plan_run(args: &CheckArgs) -> (r: RunPlan)
    ensures
        r.wants_stdin == reads_stdin(strs(args.common.file_paths@)),
        r.stdin_display@ == or_text(opt(args.stdin_filename), "<stdin>"@),
        opt(r.anchor) == anchor_of(strs(args.common.file_paths@)),
        strs(r.walk@) == real_paths(strs(args.common.file_paths@)),
        strs(r.exclude@) == strs(args.common.exclude@) + strs(args.common.extend_exclude@),
{
    let walk = keep_real_paths(&args.common.file_paths);
    assert(strs(walk@).len() == walk@.len());
    let anchor = if walk.len() == 0 {
        None
    } else {
        assert(strs(walk@)[0] == walk@[0]@);
        Some(walk[0].clone())
    };
    let mut exclude = copy_texts(&args.common.exclude);
    let mut more = copy_texts(&args.common.extend_exclude);
    let ghost first = exclude@;
    let ghost second = more@;
    exclude.append(&mut more);
    assert(strs(exclude@) =~= strs(first) + strs(second));
    RunPlan {
        wants_stdin: has_text(&args.common.file_paths, "-"),
        stdin_display: text_or(&args.stdin_filename, "<stdin>"),
        anchor,
        walk,
        exclude,
    }
}

/// Whether a file is left out: one of the globs matches its path or its name. Globs that are not
/// valid do not count, and none does where the others cannot be made into one set.
pub open spec fn excluded(path: Seq<char>, exclude: Seq<Seq<char>>) -> bool {
    let globs = valid_globs(exclude);
    glob_set_error(globs) is None && (any_glob(globs, path) || match file_name_of(path) {
        Some(name) => any_glob(globs, name),
        None => false,
    })
}

/// Whether a file is looked at: it is a Python file and is not left out.
pub open spec fn looked_at(path: Seq<char>, exclude: Seq<Seq<char>>) -> bool {
    extension_of(path) == Some("py"@) && !excluded(path, exclude)
}

/// Whether a file is looked at.
pub fn is_looked_at(path: &str, exclude: &Vec<String>) -> (r: bool)
    ensures
        r == looked_at(path@, strs(exclude@)),
{
    match extension(path) {
        Some(e) => {
            if !eq(e.as_str(), "py") {
                return false;
            }
        },
        None => return false,
    }
    let globs = keep_valid_globs(exclude);
    proof {
        lemma_valid_globs(strs(exclude@));
    }
    if check_glob_set(&globs).is_some() {
        return true;
    }
    if matches_any(&globs, path) {
        return false;
    }
    match file_name(path) {
        Some(name) => !matches_any(&globs, name.as_str()),
        None => true,
    }
}

// ---------------------------------------------------------------------------
// The order of paths
// ---------------------------------------------------------------------------

/// What a part of a path is compared by: what kind of part it is, and its text.
pub open spec fn part_key(part: Seq<char>) -> Seq<char> {
    if part == "."@ {
        "2"@
    } else if part == ".."@ {
        "3"@
    } else {
        "4"@ + part
    }
}

/// What a path is compared by.
pub open spec fn path_key(path: Seq<char>) -> Seq<Seq<char>> {
    let parts = components(path).map_values(|p: Seq<char>| part_key(p));
    if is_absolute(path) {
        seq!["1"@] + parts
    } else {
        parts
    }
}

/// Whether one list of parts comes before another.
pub open spec fn parts_before(a: Seq<Seq<char>>, b: Seq<Seq<char>>) -> bool
    decreases a.len(),
{
    if b.len() == 0 {
        false
    } else if a.len() == 0 {
        true
    } else if a[0] == b[0] {
        parts_before(a.skip(1), b.skip(1))
    } else {
        before(a[0], b[0])
    }
}

/// Whether one path comes before another.
pub open spec fn path_before(a: Seq<char>, b: Seq<char>) -> bool {
    parts_before(path_key(a), path_key(b))
}

fn write_part_key(part: &str) -> (r: String)
    ensures
        r@ == part_key(part@),
{
    if eq(part, ".") {
        "2".to_owned()
    } else if eq(part, "..") {
        "3".to_owned()
    } else {
        let mut out = "4".to_owned();
        out.append(part);
        out
    }
}

fn make_path_key(path: &str) -> (r: Vec<String>)
    ensures
        strs(r@) == path_key(path@),
{
    let parts = split_path(path);
    let ghost keys = components(path@).map_values(|p: Seq<char>| part_key(p));
    let mut out: Vec<String> = Vec::new();
    if absolute(path) {
        out.push("1".to_owned());
    }
    let ghost first = strs(out@);
    assert(first =~= if is_absolute(path@) {
        seq!["1"@]
    } else {
        Seq::empty()
    });
    assert(strs(parts@).len() == parts@.len());
    assert(first + keys.take(0) =~= first);
    let mut i: usize = 0;
    while i < parts.len()
        invariant
            i <= parts@.len(),
            parts@.len() == keys.len(),
            strs(parts@) == components(path@),
            keys == components(path@).map_values(|p: Seq<char>| part_key(p)),
            strs(out@) == first + keys.take(i as int),
        decreases parts@.len() - i,
    {
        assert(strs(parts@)[i as int] == parts@[i as int]@);
        let ghost prior = out@;
        let key = write_part_key(parts[i].as_str());
        assert(key@ == keys[i as int]);
        out.push(key);
        assert(strs(out@) =~= strs(prior).push(key@));
        assert(first + keys.take(i + 1) =~= (first + keys.take(i as int)).push(key@));
        i += 1;
    }
    assert(keys.take(keys.len() as int) =~= keys);
    assert(first + keys =~= path_key(path@));
    out
}

fn is_path_before(a: &str, b: &str) -> (r: bool)
    ensures
        r == path_before(a@, b@),
{
    let p = make_path_key(a);
    let q = make_path_key(b);
    let ghost x = strs(p@);
    let ghost y = strs(q@);
    let mut i: usize = 0;
    assert(x.skip(0) =~= x);
    assert(y.skip(0) =~= y);
    assert(x.len() == p@.len() && y.len() == q@.len());
    while i < p.len() && i < q.len() && eq(p[i].as_str(), q[i].as_str())
        invariant
            i <= p@.len(),
            i <= q@.len(),
            x == strs(p@),
            y == strs(q@),
            parts_before(x, y) == parts_before(x.skip(i as int), y.skip(i as int)),
        decreases p@.len() - i,
    {
        assert(x.skip(i as int)[0] == p@[i as int]@);
        assert(y.skip(i as int)[0] == q@[i as int]@);
        assert(x.skip(i as int).skip(1) =~= x.skip(i + 1));
        assert(y.skip(i as int).skip(1) =~= y.skip(i + 1));
        i += 1;
    }
    if i >= q.len() {
        return false;
    }
    if i >= p.len() {
        return true;
    }
    assert(x.skip(i as int)[0] == p@[i as int]@);
    assert(y.skip(i as int)[0] == q@[i as int]@);
    less(p[i].as_str(), q[i].as_str())
}

/// A list of paths with one more behind all that come no later.
pub open spec fn place_path(s: Seq<Seq<char>>, x: Seq<char>) -> Seq<Seq<char>>
    decreases s.len(),
{
    if s.len() == 0 || !path_before(x, s.last()) {
        s.push(x)
    } else {
        place_path(s.drop_last(), x).push(s.last())
    }
}

/// Paths in order.
pub open spec fn sorted_paths(s: Seq<Seq<char>>) -> Seq<Seq<char>>
    decreases s.len(),
{
    if s.len() == 0 {
        s
    } else {
        place_path(sorted_paths(s.drop_last()), s.last())
    }
}

proof fn lemma_place_path(s: Seq<Seq<char>>, x: Seq<char>, i: int)
    requires
        0 <= i <= s.len(),
        forall|j: int| i <= j < s.len() ==> path_before(x, #[trigger] s[j]),
        i == 0 || !path_before(x, s[i - 1]),
    ensures
        place_path(s, x) == s.insert(i, x),
    decreases s.len(),
{
    if i == s.len() {
        assert(s.insert(i, x) =~= s.push(x));
    } else {
        let rest = s.drop_last();
        assert forall|j: int| i <= j < rest.len() implies path_before(x, #[trigger] rest[j]) by {
            assert(s[j] == rest[j]);
        }
        lemma_place_path(rest, x, i);
        assert(path_before(x, s[s.len() - 1]));
        assert(s.insert(i, x) =~= rest.insert(i, x).push(s.last()));
    }
}

/// Paths in order.
pub fn sort_paths(paths: &Vec<String>) -> (r: Vec<String>)
    ensures
        strs(r@) == sorted_paths(strs(paths@)),
{
    let ghost all = strs(paths@);
    let mut out: Vec<String> = Vec::new();
    let mut n: usize = 0;
    assert(strs(out@) =~= Seq::empty());
    assert(all.take(0) =~= Seq::empty());
    while n < paths.len()
        invariant
            n <= paths@.len(),
            all == strs(paths@),
            strs(out@) == sorted_paths(all.take(n as int)),
        decreases paths@.len() - n,
    {
        assert(all.take(n + 1).drop_last() =~= all.take(n as int));
        assert(all.take(n + 1).last() == paths@[n as int]@);
        let ghost prior = out@;
        let ghost s = strs(out@);
        let ghost x = paths@[n as int]@;
        let mut i: usize = out.len();
        while i > 0 && is_path_before(paths[n].as_str(), out[i - 1].as_str())
            invariant
                i <= out@.len(),
                n < paths@.len(),
                out@ == prior,
                s == strs(prior),
                x == paths@[n as int]@,
                forall|j: int| i <= j < s.len() ==> path_before(x, #[trigger] s[j]),
            decreases i,
        {
            assert(s[i - 1] == prior[i - 1]@);
            i -= 1;
        }
        if i > 0 {
            assert(s[i - 1] == prior[i - 1]@);
        }
        out.insert(i, paths[n].clone());
        proof {
            lemma_place_path(s, x, i as int);
        }
        assert(strs(out@) =~= s.insert(i as int, x));
        n += 1;
    }
    assert(all.take(all.len() as int) =~= all);
    out
}

/// Texts, each on a line of its own.
pub open spec fn on_lines(texts: Seq<Seq<char>>) -> Seq<char>
    decreases texts.len(),
{
    if texts.len() == 0 {
        Seq::empty()
    } else {
        on_lines(texts.drop_last()) + texts.last() + "\n"@
    }
}

/// What `--show-files` prints: standard input, where it is read, and the files in order.
pub fn show_files(plan: &RunPlan, files: &Vec<String>) -> (r: String)
    ensures
        r@ == (if plan.wants_stdin {
            plan.stdin_display@ + "\n"@
        } else {
            Seq::empty()
        }) + on_lines(sorted_paths(strs(files@))),
{
    let sorted = sort_paths(files);
    let ghost all = sorted_paths(strs(files@));
    let mut out = String::new();
    if plan.wants_stdin {
        out.append(plan.stdin_display.as_str());
        out.append("\n");
        assert(out@ =~= plan.stdin_display@ + "\n"@);
    }
    let ghost head = out@;
    let mut i: usize = 0;
    assert(all.take(0) =~= Seq::empty());
    assert(head + on_lines(all.take(0)) =~= head);
    assert(strs(sorted@).len() == sorted@.len());
    while i < sorted.len()
        invariant
            i <= sorted@.len(),
            strs(sorted@) == all,
            all.len() == sorted@.len(),
            out@ == head + on_lines(all.take(i as int)),
        decreases sorted@.len() - i,
    {
        assert(all.take(i + 1).drop_last() =~= all.take(i as int));
        assert(all.take(i + 1).last() == strs(sorted@)[i as int]);
        out.append(sorted[i].as_str());
        out.append("\n");
        assert(out@ =~= head + on_lines(all.take(i + 1)));
        i += 1;
    }
    assert(all.take(all.len() as int) =~= all);
    out
}

// ---------------------------------------------------------------------------
// Findings by file
// ---------------------------------------------------------------------------

/// What was found, with what was found in one more file: it takes the place of what was found
/// there before.
pub open spec fn with_file(files: Seq<FileView>, f: FileView) -> Seq<FileView>
    decreases files.len(),
{
    if files.len() == 0 {
        seq![f]
    } else if files[0].path == f.path {
        files.update(0, f)
    } else {
        seq![files[0]] + with_file(files.skip(1), f)
    }
}

/// What was found, with what was found in one more file, if anything.
pub open spec fn with_findings(files: Seq<FileView>, f: FileView) -> Seq<FileView> {
    if f.records.len() == 0 {
        files
    } else {
        with_file(files, f)
    }
}

proof fn lemma_with_file(files: Seq<FileView>, f: FileView, i: int)
    requires
        0 <= i <= files.len(),
        forall|j: int| 0 <= j < i ==> (#[trigger] files[j]).path != f.path,
        i == files.len() || files[i].path == f.path,
    ensures
        with_file(files, f) == if i == files.len() {
            files.push(f)
        } else {
            files.update(i, f)
        },
    decreases files.len(),
{
    if files.len() == 0 {
        assert(files.push(f) =~= seq![f]);
    } else if i > 0 {
        let rest = files.skip(1);
        assert forall|j: int| 0 <= j < i - 1 implies (#[trigger] rest[j]).path != f.path by {
            assert(files[j + 1].path != f.path);
        }
        assert(files[0].path != f.path);
        lemma_with_file(rest, f, i - 1);
        if i == files.len() {
            assert(seq![files[0]] + rest.push(f) =~= files.push(f));
        } else {
            assert(seq![files[0]] + rest.update(i - 1, f) =~= files.update(i, f));
        }
    }
}

/// Adds what was found in a file, if anything.
pub fn put_findings(files: &mut Vec<FileRecords>, path: &str, records: Vec<Record>)
    ensures
        file_views(final(files)@) == with_findings(
            file_views(old(files)@),
            (FileView { path: path@, records: record_views(records@) }),
        ),
{
    let ghost f = FileView { path: path@, records: record_views(records@) };
    let ghost prior = file_views(files@);
    assert(f.records.len() == records@.len());
    if records.len() == 0 {
        return;
    }
    let file = FileRecords { path: path.to_owned(), records };
    assert(file@ == f);
    let mut i: usize = 0;
    while i < files.len()
        invariant
            i <= files@.len(),
            files@ == old(files)@,
            prior == file_views(files@),
            prior == file_views(old(files)@),
            file@ == f,
            f == (FileView { path: path@, records: record_views(records@) }),
            f.records.len() > 0,
            forall|j: int| 0 <= j < i ==> (#[trigger] prior[j]).path != f.path,
        decreases files@.len() - i,
    {
        assert(prior[i as int] == files@[i as int]@);
        if eq(files[i].path.as_str(), path) {
            proof {
                lemma_with_file(prior, f, i as int);
            }
            files.set(i, file);
            assert(file_views(files@) =~= prior.update(i as int, f));
            return;
        }
        i += 1;
    }
    proof {
        lemma_with_file(prior, f, prior.len() as int);
    }
    files.push(file);
    assert(file_views(files@) =~= prior.push(f));
}

/// The wire forms of violations.
pub open spec fn records_for(v: Seq<ViolationView>) -> Seq<RecordView> {
    v.map_values(|x: ViolationView| record_of(x))
}

/// The wire forms of violations; `None` where a column is too large to count from 1.
pub fn to_records(violations: &Vec<Violation>) -> (r: Option<Vec<Record>>)
    ensures
        match r {
            Some(records) => record_views(records@) == records_for(violation_views(violations@)),
            None => exists|i: int|
                0 <= i < violations@.len() && (#[trigger] violations@[i]).col == usize::MAX,
        },
{
    let ghost all = records_for(violation_views(violations@));
    let mut out: Vec<Record> = Vec::new();
    let mut i: usize = 0;
    assert(record_views(out@) =~= all.take(0));
    while i < violations.len()
        invariant
            i <= violations@.len(),
            all == records_for(violation_views(violations@)),
            record_views(out@) == all.take(i as int),
        decreases violations@.len() - i,
    {
        assert(violation_views(violations@)[i as int] == violations@[i as int]@);
        if violations[i].col == usize::MAX {
            return None;
        }
        let record = violations[i].to_json();
        let ghost prior = out@;
        out.push(record);
        assert(record_views(out@) =~= record_views(prior).push(record@));
        assert(all.take(i + 1) =~= all.take(i as int).push(record@));
        i += 1;
    }
    assert(all.take(all.len() as int) =~= all);
    Some(out)
}

// ---------------------------------------------------------------------------
// The cache
// ---------------------------------------------------------------------------

/// A file to check, with the key by which the cache knows it.
pub struct Target {
    pub path: String,
    /// `None` where the file's attributes cannot be read.
    pub key: Option<FileCacheKey>,
}

/// What the cache keeps of a file.
pub open spec fn kept(cache: Cache, t: Target) -> Option<Seq<RecordView>> {
    match t.key {
        Some(key) => cache.hit(t.path@, key),
        None => None,
    }
}

/// What the cache tells of the first `n` files.
pub open spec fn known_findings(cache: Cache, targets: Seq<Target>, n: int) -> Seq<FileView>
    decreases n,
{
    if n <= 0 {
        Seq::empty()
    } else {
        let prior = known_findings(cache, targets, n - 1);
        match kept(cache, targets[n - 1]) {
            Some(records) => with_findings(
                prior,
                FileView { path: targets[n - 1].path@, records },
            ),
            None => prior,
        }
    }
}

/// Those of the first `n` files that the cache tells nothing of.
pub open spec fn to_check(cache: Cache, targets: Seq<Target>, n: int) -> Seq<int>
    decreases n,
{
    if n <= 0 {
        Seq::empty()
    } else {
        let prior = to_check(cache, targets, n - 1);
        if kept(cache, targets[n - 1]) is Some {
            prior
        } else {
            prior.push(n - 1)
        }
    }
}

/// Numbers as they are.
pub open spec fn ints(v: Seq<usize>) -> Seq<int> {
    v.map_values(|x: usize| x as int)
}

/// Asks the cache for every file: what it tells goes to `violations`, and the places of the files
/// that must be checked come back.
pub fn split_cached(cache: &Cache, targets: &Vec<Target>, violations: &mut Vec<FileRecords>) -> (r:
    Vec<usize>)
    requires
        old(violations)@.len() == 0,
    ensures
        file_views(final(violations)@) == known_findings(
            *cache,
            targets@,
            targets@.len() as int,
        ),
        ints(r@) == to_check(*cache, targets@, targets@.len() as int),
{
    let mut out: Vec<usize> = Vec::new();
    let mut i: usize = 0;
    assert(ints(out@) =~= Seq::empty());
    assert(file_views(violations@) =~= Seq::empty());
    while i < targets.len()
        invariant
            i <= targets@.len(),
            file_views(violations@) == known_findings(*cache, targets@, i as int),
            ints(out@) == to_check(*cache, targets@, i as int),
        decreases targets@.len() - i,
    {
        let found = match &targets[i].key {
            Some(key) => cache.get(targets[i].path.as_str(), key),
            None => None,
        };
        match found {
            Some(records) => put_findings(violations, targets[i].path.as_str(), records),
            None => {
                let ghost prior = out@;
                out.push(i);
                assert(ints(out@) =~= ints(prior).push(i as int));
            },
        }
        i += 1;
    }
    out
}

/// Keeps what was found in a file, in the cache and among the findings. A file without a key is
/// not cached.
pub fn take_in(
    cache: &mut Cache,
    violations: &mut Vec<FileRecords>,
    target: &Target,
    records: Vec<Record>,
)
    ensures
        file_views(final(violations)@) == with_findings(
            file_views(old(violations)@),
            (FileView { path: target.path@, records: record_views(records@) }),
        ),
        final(cache).path == old(cache).path,
        final(cache).no_cache == old(cache).no_cache,
        final(cache).package_root == old(cache).package_root,
        final(cache).files == old(cache).files,
        match target.key {
            Some(key) => entry_views(final(cache).pending@) == entry_views(
                old(cache).pending@,
            ).push(
                EntryView {
                    path: target.path@,
                    key: sea_hash(key.bytes()),
                    last_seen: 0,
                    violations: all_cached(record_views(records@)),
                },
            ),
            None => final(cache).pending == old(cache).pending,
        },
{
    match &target.key {
        Some(key) => cache.set_linted(target.path.as_str(), key, &records),
        None => {},
    }
    put_findings(violations, target.path.as_str(), records);
}

// ---------------------------------------------------------------------------
// Comments and warnings
// ---------------------------------------------------------------------------

/// The findings in changed files.
pub open spec fn in_changed(files: Seq<FileView>, changed: Seq<Seq<char>>) -> Seq<FileView>
    decreases files.len(),
{
    if files.len() == 0 {
        Seq::empty()
    } else {
        let prior = in_changed(files.drop_last(), changed);
        if changed.contains(files.last().path) {
            prior.push(files.last())
        } else {
            prior
        }
    }
}

/// A finding as a warning.
pub open spec fn warning_line(path: Seq<char>, r: RecordView) -> Seq<char> {
    path + ":"@ + decimal(or_number(r.line, 0) as nat) + ": "@ + or_text(r.message, ""@)
}

/// The findings in all other files, each as a warning.
pub open spec fn elsewhere(files: Seq<FileView>, changed: Seq<Seq<char>>) -> Seq<Seq<char>>
    decreases files.len(),
{
    if files.len() == 0 {
        Seq::empty()
    } else {
        let prior = elsewhere(files.drop_last(), changed);
        let f = files.last();
        if changed.contains(f.path) {
            prior
        } else {
            prior + f.records.map_values(|r: RecordView| warning_line(f.path, r))
        }
    }
}

fn copy_record(r: &Record) -> (c: Record)
    ensures
        c@ == r@,
{
    Record {
        rule: copy_opt(&r.rule),
        line: r.line,
        message: copy_opt(&r.message),
        level: copy_opt(&r.level),
        help: copy_opt(&r.help),
        start_line: r.start_line,
        start_character: r.start_character,
        end_line: r.end_line,
        end_character: r.end_character,
        fixable: r.fixable,
    }
}

fn copy_file(f: &FileRecords) -> (c: FileRecords)
    ensures
        c@ == f@,
{
    let ghost all = f@.records;
    let mut records: Vec<Record> = Vec::new();
    let mut i: usize = 0;
    assert(record_views(records@) =~= all.take(0));
    while i < f.records.len()
        invariant
            i <= f.records@.len(),
            all == f@.records,
            record_views(records@) == all.take(i as int),
        decreases f.records@.len() - i,
    {
        let ghost prior = records@;
        let record = copy_record(&f.records[i]);
        records.push(record);
        assert(record_views(records@) =~= record_views(prior).push(record@));
        assert(all.take(i + 1) =~= all.take(i as int).push(record@));
        i += 1;
    }
    assert(all.take(all.len() as int) =~= all);
    FileRecords { path: f.path.clone(), records }
}

fn push_warnings(out: &mut Vec<String>, f: &FileRecords)
    ensures
        strs(final(out)@) == strs(old(out)@) + f@.records.map_values(
            |r: RecordView| warning_line(f@.path, r),
        ),
{
    let ghost start = strs(out@);
    let ghost lines = f@.records.map_values(|r: RecordView| warning_line(f@.path, r));
    let mut i: usize = 0;
    assert(start + lines.take(0) =~= start);
    while i < f.records.len()
        invariant
            i <= f.records@.len(),
            start == strs(old(out)@),
            lines == f@.records.map_values(|r: RecordView| warning_line(f@.path, r)),
            strs(out@) == start + lines.take(i as int),
        decreases f.records@.len() - i,
    {
        assert(f@.records[i as int] == f.records@[i as int]@);
        let mut line = f.path.clone();
        line.append(":");
        line.append(number(number_or(f.records[i].line, 0)).as_str());
        line.append(": ");
        line.append(text_or(&f.records[i].message, "").as_str());
        let ghost prior = out@;
        out.push(line);
        assert(strs(out@) =~= strs(prior).push(line@));
        assert(start + lines.take(i + 1) =~= (start + lines.take(i as int)).push(line@));
        i += 1;
    }
    assert(lines.take(lines.len() as int) =~= lines);
}

/// Parts the findings: those in changed files become comments, those in all others warnings.
pub fn part_findings(reported: &Vec<FileRecords>, changed_files: &ChangedFiles) -> (r: (
    Vec<FileRecords>,
    Vec<String>,
))
    ensures
        file_views(r.0@) == in_changed(file_views(reported@), strs(changed_files.files@)),
        strs(r.1@) == elsewhere(file_views(reported@), strs(changed_files.files@)),
{
    let ghost all = file_views(reported@);
    let ghost changed = strs(changed_files.files@);
    let mut comments: Vec<FileRecords> = Vec::new();
    let mut warnings: Vec<String> = Vec::new();
    let mut i: usize = 0;
    assert(file_views(comments@) =~= Seq::empty());
    assert(strs(warnings@) =~= Seq::empty());
    assert(all.take(0) =~= Seq::empty());
    while i < reported.len()
        invariant
            i <= reported@.len(),
            all == file_views(reported@),
            changed == strs(changed_files.files@),
            file_views(comments@) == in_changed(all.take(i as int), changed),
            strs(warnings@) == elsewhere(all.take(i as int), changed),
        decreases reported@.len() - i,
    {
        assert(all.take(i + 1).drop_last() =~= all.take(i as int));
        assert(all.take(i + 1).last() == reported@[i as int]@);
        if changed_files.contains(reported[i].path.as_str()) {
            let file = copy_file(&reported[i]);
            let ghost prior = comments@;
            comments.push(file);
            assert(file_views(comments@) =~= file_views(prior).push(file@));
        } else {
            push_warnings(&mut warnings, &reported[i]);
        }
        i += 1;
    }
    assert(all.take(all.len() as int) =~= all);
    (comments, warnings)
}

/// Whether the hint is shown: something was found, nothing was fixed, and hints are wanted.
pub fn shows_hint(reported: &Vec<FileRecords>, fixed: bool, quiet: bool) -> (r: bool)
    ensures
        r == (reported@.len() > 0 && !fixed && !quiet),
{
    reported.len() > 0 && !fixed && !quiet
}

// ---------------------------------------------------------------------------
// Watching
// ---------------------------------------------------------------------------

/// The files that changed since they were last checked.
pub struct WatchState {
    pub pending: Vec<String>,
}

impl WatchState {
    /// No file has changed.
    pub fn new() -> (r: WatchState)
        ensures
            strs(r.pending@) == Seq::<Seq<char>>::empty(),
    {
        let r = WatchState { pending: Vec::new() };
        assert(strs(r.pending@) =~= Seq::empty());
        r
    }

    /// Takes note of a change. Only files that are looked at count, each once.
    pub fn note(&mut self, path: &str, is_file: bool, exclude: &Vec<String>)
        ensures
            strs(final(self).pending@) == if is_file && looked_at(path@, strs(exclude@))
                && !strs(old(self).pending@).contains(path@) {
                strs(old(self).pending@).push(path@)
            } else {
                strs(old(self).pending@)
            },
    {
        if is_file && is_looked_at(path, exclude) && !has_text(
            &self.pending,
            path,
        ) {
            let ghost prior = self.pending@;
            self.pending.push(path.to_owned());
            assert(strs(self.pending@) =~= strs(prior).push(path@));
        }
    }

    /// Gives the files to check again, and forgets them.
    pub fn flush(&mut self) -> (r: Vec<String>)
        ensures
            strs(r@) == strs(old(self).pending@),
            final(self).pending@.len() == 0,
    {
        let batch = copy_texts(&self.pending);
        self.pending = Vec::new();
        batch
    }
}

/// The line above the findings in changed files.
pub fn recheck_header(n: usize) -> (r: String)
    ensures
        r@ == "\n─── "@ + decimal(n as nat) + " file"@ + (if n == 1 {
            ""@
        } else {
            "s"@
        }) + " changed, rechecking ────────────────────────────────────────────"@,
{
    let mut out = "\n─── ".to_owned();
    out.append(number(n as u64).as_str());
    out.append(" file");
    if n == 1 {
        out.append("");
    } else {
        out.append("s");
    }
    out.append(" changed, rechecking ────────────────────────────────────────────");
    out
}

// ---------------------------------------------------------------------------
// Laws
// ---------------------------------------------------------------------------

/// Every file is either known to the cache or checked.
pub proof fn law_every_file_is_known_or_checked(cache: Cache, targets: Seq<Target>, n: int, i: int)
    requires
        0 <= i < n <= targets.len(),
    ensures
        to_check(cache, targets, n).contains(i) <==> kept(cache, targets[i]) is None,
    decreases n,
{
    let all = to_check(cache, targets, n);
    let prior = to_check(cache, targets, n - 1);
    if i < n - 1 {
        law_every_file_is_known_or_checked(cache, targets, n - 1, i);
        if prior.contains(i) {
            let k = choose|k: int| 0 <= k < prior.len() && prior[k] == i;
            assert(all[k] == i);
        }
        if all.contains(i) {
            let k = choose|k: int| 0 <= k < all.len() && all[k] == i;
            assert(k < prior.len());
            assert(prior[k] == i);
        }
    } else {
        if kept(cache, targets[i]) is None {
            assert(all[prior.len() as int] == i);
        } else if all.contains(i) {
            let k = choose|k: int| 0 <= k < all.len() && all[k] == i;
            lemma_to_check_below(cache, targets, n - 1, k);
        }
    }
}

proof fn lemma_to_check_below(cache: Cache, targets: Seq<Target>, n: int, k: int)
    requires
        0 <= k < to_check(cache, targets, n).len(),
    ensures
        to_check(cache, targets, n)[k] < n,
    decreases n,
{
    if n > 0 && k < to_check(cache, targets, n - 1).len() {
        lemma_to_check_below(cache, targets, n - 1, k);
    }
}

/// With a cache that is not used, every file is checked.
pub proof fn law_without_cache_all_is_checked(cache: Cache, targets: Seq<Target>, n: int)
    requires
        cache.no_cache,
        0 <= n <= targets.len(),
    ensures
        known_findings(cache, targets, n).len() == 0,
        to_check(cache, targets, n) == Seq::new(n as nat, |i: int| i),
    decreases n,
{
    if n > 0 {
        law_without_cache_all_is_checked(cache, targets, n - 1);
        assert(kept(cache, targets[n - 1]) is None);
        assert(to_check(cache, targets, n) =~= Seq::new(n as nat, |i: int| i));
    } else {
        assert(to_check(cache, targets, n) =~= Seq::new(0, |i: int| i));
    }
}

} // verus!
