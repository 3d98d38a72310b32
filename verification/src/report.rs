//! The findings of a run: in what order they are shown, and whether the run failed.
use crate::ordered::{before, lemma_before_total, lemma_before_transitive, less};
use crate::text::{chars, part, starts_with, string, strs};
use crate::types::{
    lowercase, number_or, or_number, or_text, record_views, text_or, ChangedFiles, Level, Record,
    RecordView,
};
use vstd::prelude::*;
use vstd::seq_lib::*;
use vstd::string::*;

verus! {

/// What was found in one file.
pub struct FileRecords {
    pub path: String,
    pub records: Vec<Record>,
}

/// What a [`FileRecords`] says.
#[verifier::ext_equal]
pub struct FileView {
    pub path: Seq<char>,
    pub records: Seq<RecordView>,
}

impl View for FileRecords {
    type V = FileView;

    open spec fn view(&self) -> FileView {
        FileView { path: self.path@, records: record_views(self.records@) }
    }
}

/// What was found in several files.
pub open spec fn file_views(v: Seq<FileRecords>) -> Seq<FileView> {
    v.map_values(|f: FileRecords| f@)
}

// ---------------------------------------------------------------------------
// Order
// ---------------------------------------------------------------------------

/// A list with `x` behind all that come no later.
pub open spec fn place_file(s: Seq<FileView>, x: FileView) -> Seq<FileView>
    decreases s.len(),
{
    if s.len() == 0 || !before(x.path, s.last().path) {
        s.push(x)
    } else {
        place_file(s.drop_last(), x).push(s.last())
    }
}

/// Files in the order of their paths; those with one path stay in order.
pub open spec fn by_path(s: Seq<FileView>) -> Seq<FileView>
    decreases s.len(),
{
    if s.len() == 0 {
        s
    } else {
        place_file(by_path(s.drop_last()), s.last())
    }
}

/// The line that a record is sorted by.
pub open spec fn sort_line(r: RecordView) -> u64 {
    or_number(r.line, 0)
}

/// A list with `x` behind all that come no later.
pub open spec fn place_record(s: Seq<RecordView>, x: RecordView) -> Seq<RecordView>
    decreases s.len(),
{
    if s.len() == 0 || sort_line(s.last()) <= sort_line(x) {
        s.push(x)
    } else {
        place_record(s.drop_last(), x).push(s.last())
    }
}

/// Records in the order of their lines; those on one line stay in order.
pub open spec fn by_line(s: Seq<RecordView>) -> Seq<RecordView>
    decreases s.len(),
{
    if s.len() == 0 {
        s
    } else {
        place_record(by_line(s.drop_last()), s.last())
    }
}

/// What is found where.
#[verifier::ext_equal]
pub struct FindingView {
    pub path: Seq<char>,
    pub record: RecordView,
}

/// One record with the path of its file.
pub struct Finding<'a> {
    pub path: &'a str,
    pub record: &'a Record,
}

impl<'a> View for Finding<'a> {
    type V = FindingView;

    open spec fn view(&self) -> FindingView {
        FindingView { path: self.path@, record: self.record@ }
    }
}

/// What several findings say.
pub open spec fn finding_views(v: Seq<Finding<'_>>) -> Seq<FindingView> {
    v.map_values(|f: Finding<'_>| f@)
}

/// The findings in one file, by line.
pub open spec fn findings_in(f: FileView) -> Seq<FindingView> {
    by_line(f.records).map_values(|r: RecordView| FindingView { path: f.path, record: r })
}

/// The findings in several files, each by line.
pub open spec fn findings_of(files: Seq<FileView>) -> Seq<FindingView>
    decreases files.len(),
{
    if files.len() == 0 {
        Seq::empty()
    } else {
        findings_of(files.drop_last()) + findings_in(files.last())
    }
}

/// All findings, by path and line.
pub open spec fn findings(files: Seq<FileView>) -> Seq<FindingView> {
    findings_of(by_path(files))
}

/// The views of references to records.
pub open spec fn ref_views(v: Seq<&Record>) -> Seq<RecordView> {
    v.map_values(|r: &Record| r@)
}

/// The views of references to files.
pub open spec fn file_ref_views(v: Seq<&FileRecords>) -> Seq<FileView> {
    v.map_values(|f: &FileRecords| f@)
}

proof fn lemma_place_record(s: Seq<RecordView>, x: RecordView, i: int)
    requires
        0 <= i <= s.len(),
        forall|j: int| i <= j < s.len() ==> sort_line(x) < sort_line(#[trigger] s[j]),
        i == 0 || sort_line(s[i - 1]) <= sort_line(x),
    ensures
        place_record(s, x) == s.insert(i, x),
    decreases s.len(),
{
    if i == s.len() {
        assert(s.insert(i, x) =~= s.push(x));
    } else {
        let rest = s.drop_last();
        assert forall|j: int| i <= j < rest.len() implies sort_line(x) < sort_line(
            #[trigger] rest[j],
        ) by {
            assert(s[j] == rest[j]);
        }
        lemma_place_record(rest, x, i);
        assert(sort_line(x) < sort_line(s[s.len() - 1]));
        assert(s.insert(i, x) =~= rest.insert(i, x).push(s.last()));
    }
}

proof fn lemma_place_file(s: Seq<FileView>, x: FileView, i: int)
    requires
        0 <= i <= s.len(),
        forall|j: int| i <= j < s.len() ==> before(x.path, (#[trigger] s[j]).path),
        i == 0 || !before(x.path, s[i - 1].path),
    ensures
        place_file(s, x) == s.insert(i, x),
    decreases s.len(),
{
    if i == s.len() {
        assert(s.insert(i, x) =~= s.push(x));
    } else {
        let rest = s.drop_last();
        assert forall|j: int| i <= j < rest.len() implies before(
            x.path,
            (#[trigger] rest[j]).path,
        ) by {
            assert(s[j] == rest[j]);
        }
        lemma_place_file(rest, x, i);
        assert(before(x.path, s[s.len() - 1].path));
        assert(s.insert(i, x) =~= rest.insert(i, x).push(s.last()));
    }
}

/// Records in the order of their lines.
pub fn sort_records(records: &Vec<Record>) -> (r: Vec<&Record>)
    ensures
        ref_views(r@) == by_line(record_views(records@)),
{
    let ghost all = record_views(records@);
    let mut out: Vec<&Record> = Vec::new();
    let mut n: usize = 0;
    assert(ref_views(out@) =~= Seq::empty());
    assert(all.take(0) =~= Seq::empty());
    while n < records.len()
        invariant
            n <= records@.len(),
            all == record_views(records@),
            ref_views(out@) == by_line(all.take(n as int)),
        decreases records@.len() - n,
    {
        assert(all.take(n + 1).drop_last() =~= all.take(n as int));
        assert(all.take(n + 1).last() == records@[n as int]@);
        let x = &records[n];
        let line: u64 = number_or(x.line, 0);
        let ghost prior = out@;
        let ghost s = ref_views(out@);
        let mut i: usize = out.len();
        while i > 0 && number_or(out[i - 1].line, 0) > line
            invariant
                i <= out@.len(),
                out@ == prior,
                s == ref_views(prior),
                line == sort_line(x@),
                forall|j: int| i <= j < s.len() ==> sort_line(x@) < sort_line(#[trigger] s[j]),
            decreases i,
        {
            assert(s[i - 1] == prior[i - 1]@);
            i -= 1;
        }
        if i > 0 {
            assert(s[i - 1] == prior[i - 1]@);
        }
        out.insert(i, x);
        proof {
            lemma_place_record(s, x@, i as int);
        }
        assert(ref_views(out@) =~= s.insert(i as int, x@));
        n += 1;
    }
    assert(all.take(all.len() as int) =~= all);
    out
}

/// Files in the order of their paths.
pub fn sort_files(files: &Vec<FileRecords>) -> (r: Vec<&FileRecords>)
    ensures
        file_ref_views(r@) == by_path(file_views(files@)),
{
    let ghost all = file_views(files@);
    let mut out: Vec<&FileRecords> = Vec::new();
    let mut n: usize = 0;
    assert(file_ref_views(out@) =~= Seq::empty());
    assert(all.take(0) =~= Seq::empty());
    while n < files.len()
        invariant
            n <= files@.len(),
            all == file_views(files@),
            file_ref_views(out@) == by_path(all.take(n as int)),
        decreases files@.len() - n,
    {
        assert(all.take(n + 1).drop_last() =~= all.take(n as int));
        assert(all.take(n + 1).last() == files@[n as int]@);
        let x = &files[n];
        let ghost prior = out@;
        let ghost s = file_ref_views(out@);
        let mut i: usize = out.len();
        while i > 0 && less(x.path.as_str(), out[i - 1].path.as_str())
            invariant
                i <= out@.len(),
                out@ == prior,
                s == file_ref_views(prior),
                forall|j: int| i <= j < s.len() ==> before(x.path@, (#[trigger] s[j]).path),
            decreases i,
        {
            assert(s[i - 1] == prior[i - 1]@);
            i -= 1;
        }
        if i > 0 {
            assert(s[i - 1] == prior[i - 1]@);
        }
        out.insert(i, x);
        proof {
            lemma_place_file(s, x@, i as int);
        }
        assert(file_ref_views(out@) =~= s.insert(i as int, x@));
        n += 1;
    }
    assert(all.take(all.len() as int) =~= all);
    out
}

/// All findings, by path and line.
pub fn collect_findings(files: &Vec<FileRecords>) -> (r: Vec<Finding<'_>>)
    ensures
        finding_views(r@) == findings(file_views(files@)),
{
    let sorted = sort_files(files);
    let ghost all = by_path(file_views(files@));
    let mut out: Vec<Finding<'_>> = Vec::new();
    let mut n: usize = 0;
    assert(finding_views(out@) =~= Seq::empty());
    assert(all.take(0) =~= Seq::empty());
    assert(all.len() == sorted@.len());
    while n < sorted.len()
        invariant
            n <= sorted@.len(),
            file_ref_views(sorted@) == all,
            all.len() == sorted@.len(),
            finding_views(out@) == findings_of(all.take(n as int)),
        decreases sorted@.len() - n,
    {
        assert(all.take(n + 1).drop_last() =~= all.take(n as int));
        assert(all.take(n + 1).last() == file_ref_views(sorted@)[n as int]);
        let file = sorted[n];
        assert(file_ref_views(sorted@)[n as int] == file@);
        let records = sort_records(&file.records);
        let ghost start = finding_views(out@);
        let ghost here = findings_in(file@);
        let mut i: usize = 0;
        assert(start + here.take(0) =~= start);
        assert(here.len() == records@.len());
        while i < records.len()
            invariant
                i <= records@.len(),
                here == findings_in(file@),
                here.len() == records@.len(),
                ref_views(records@) == by_line(file@.records),
                finding_views(out@) == start + here.take(i as int),
            decreases records@.len() - i,
        {
            let ghost prior = out@;
            assert(ref_views(records@)[i as int] == records@[i as int]@);
            let f = Finding { path: file.path.as_str(), record: records[i] };
            assert(f@ =~= here[i as int]);
            out.push(f);
            assert(finding_views(out@) =~= finding_views(prior).push(f@));
            assert(start + here.take(i + 1) =~= (start + here.take(i as int)).push(here[i as int]));
            i += 1;
        }
        assert(here.take(here.len() as int) =~= here);
        n += 1;
    }
    assert(all.take(all.len() as int) =~= all);
    out
}

// ---------------------------------------------------------------------------
// Exit code
// ---------------------------------------------------------------------------

/// The level that decides whether a run failed: a warning where it is absent or unknown.
pub open spec fn exit_level(r: RecordView) -> Level {
    match r.level {
        Some(name) => match Level::named(lowercase(name)) {
            Some(level) => level,
            None => Level::Warning,
        },
        None => Level::Warning,
    }
}

/// The level that fails a run for a file.
pub open spec fn threshold(
    path: Seq<char>,
    changed: Seq<Seq<char>>,
    level: Level,
    changed_level: Level,
) -> Level {
    if changed.contains(path) {
        changed_level
    } else {
        level
    }
}

/// Whether the record `i` fails the run.
pub open spec fn record_fails(
    f: FileView,
    i: int,
    changed: Seq<Seq<char>>,
    level: Level,
    changed_level: Level,
) -> bool {
    0 <= i < f.records.len() && exit_level(f.records[i]).reaches(
        threshold(f.path, changed, level, changed_level),
    )
}

/// Whether what was found in a file fails the run.
pub open spec fn file_fails(
    f: FileView,
    changed: Seq<Seq<char>>,
    level: Level,
    changed_level: Level,
) -> bool {
    exists|i: int| #[trigger] record_fails(f, i, changed, level, changed_level)
}

/// Whether what was found fails the run: some record reaches the level for its file.
pub open spec fn run_fails(
    files: Seq<FileView>,
    changed: Seq<Seq<char>>,
    level: Level,
    changed_level: Level,
) -> bool {
    exists|k: int|
        0 <= k < files.len() && file_fails(#[trigger] files[k], changed, level, changed_level)
}

fn read_exit_level(r: &Record) -> (l: Level)
    ensures
        l == exit_level(r@),
{
    match &r.level {
        Some(name) => match Level::parse(name.as_str()) {
            Ok(level) => level,
            Err(_) => Level::Warning,
        },
        None => Level::Warning,
    }
}

fn does_file_fail(
    f: &FileRecords,
    changed_files: &ChangedFiles,
    level: Level,
    changed_files_level: Level,
) -> (r: bool)
    ensures
        r == file_fails(f@, strs(changed_files.files@), level, changed_files_level),
{
    let limit = if changed_files.contains(f.path.as_str()) {
        changed_files_level
    } else {
        level
    };
    let mut i: usize = 0;
    while i < f.records.len()
        invariant
            i <= f.records@.len(),
            limit == threshold(
                f@.path,
                strs(changed_files.files@),
                level,
                changed_files_level,
            ),
            forall|j: int|
                0 <= j < i ==> !#[trigger] record_fails(
                    f@,
                    j,
                    strs(changed_files.files@),
                    level,
                    changed_files_level,
                ),
        decreases f.records@.len() - i,
    {
        assert(f@.records[i as int] == f.records@[i as int]@);
        if read_exit_level(&f.records[i]).at_least(limit) {
            assert(record_fails(
                f@,
                i as int,
                strs(changed_files.files@),
                level,
                changed_files_level,
            ));
            return true;
        }
        i += 1;
    }
    false
}

/// The exit code of a run: 1 where some finding reaches the level for its file, and else 0.
pub fn exit_code_for(
    reported: &Vec<FileRecords>,
    changed_files: &ChangedFiles,
    level: Level,
    changed_files_level: Level,
) -> (code: i32)
    ensures
        code == if run_fails(
            file_views(reported@),
            strs(changed_files.files@),
            level,
            changed_files_level,
        ) {
            1int
        } else {
            0
        },
{
    let mut k: usize = 0;
    while k < reported.len()
        invariant
            k <= reported@.len(),
            forall|j: int|
                0 <= j < k ==> !file_fails(
                    #[trigger] file_views(reported@)[j],
                    strs(changed_files.files@),
                    level,
                    changed_files_level,
                ),
        decreases reported@.len() - k,
    {
        assert(file_views(reported@)[k as int] == reported@[k as int]@);
        if does_file_fail(&reported[k], changed_files, level, changed_files_level) {
            return 1;
        }
        k += 1;
    }
    0
}

// ---------------------------------------------------------------------------
// Fields of a finding
// ---------------------------------------------------------------------------

/// A message without the code of its rule in front.
pub open spec fn without_code(message: Seq<char>, rule: Seq<char>) -> Seq<char> {
    let code = rule + ": "@;
    if code.is_prefix_of(message) {
        message.skip(code.len() as int)
    } else {
        message
    }
}

/// A message without the code of its rule in front.
pub fn strip_code(message: &str, rule: &str) -> (r: String)
    ensures
        r@ == without_code(message@, rule@),
{
    let mut code = rule.to_owned();
    code.append(": ");
    let m = chars(message);
    let c = chars(code.as_str());
    if starts_with(m.as_slice(), c.as_slice()) {
        let rest = part(m.as_slice(), c.len(), m.len());
        assert(rest@ =~= message@.skip(c@.len() as int));
        string(rest)
    } else {
        message.to_owned()
    }
}

impl RecordView {
    /// The rule, or `UNKNOWN`.
    pub open spec fn shown_rule(self) -> Seq<char> {
        or_text(self.rule, "UNKNOWN"@)
    }

    /// The message without the code of its rule.
    pub open spec fn shown_message(self) -> Seq<char> {
        without_code(or_text(self.message, ""@), self.shown_rule())
    }

    /// The column, which counts from 1.
    pub open spec fn shown_column(self) -> u64 {
        or_number(self.start_character, 1)
    }

    /// The level; absent, it is `error`.
    pub open spec fn shown_level(self) -> Seq<char> {
        or_text(self.level, "error"@)
    }

    /// Whether the finding is shown as fixable.
    pub open spec fn shown_fixable(self) -> bool {
        self.fixable == Some(true)
    }
}

impl Record {
    /// The rule, or `UNKNOWN`.
    pub fn read_rule(&self) -> (r: String)
        ensures
            r@ == self@.shown_rule(),
    {
        text_or(&self.rule, "UNKNOWN")
    }

    /// The message without the code of its rule.
    pub fn read_message(&self) -> (r: String)
        ensures
            r@ == self@.shown_message(),
    {
        let rule = self.read_rule();
        strip_code(text_or(&self.message, "").as_str(), rule.as_str())
    }

    /// The column.
    pub fn read_column(&self) -> (r: u64)
        ensures
            r == self@.shown_column(),
    {
        number_or(self.start_character, 1)
    }

    /// The level.
    pub fn read_level_name(&self) -> (r: String)
        ensures
            r@ == self@.shown_level(),
    {
        text_or(&self.level, "error")
    }

    /// Whether the finding is shown as fixable.
    pub fn is_fixable(&self) -> (r: bool)
        ensures
            r == self@.shown_fixable(),
    {
        match self.fixable {
            Some(b) => b,
            None => false,
        }
    }
}

// ---------------------------------------------------------------------------
// Laws
// ---------------------------------------------------------------------------

proof fn lemma_placed_record(s: Seq<RecordView>, x: RecordView)
    requires
        forall|i: int, j: int| 0 <= i <= j < s.len() ==> sort_line(s[i]) <= sort_line(s[j]),
    ensures
        ({
            let t = place_record(s, x);
            &&& t.to_multiset() == s.to_multiset().insert(x)
            &&& forall|i: int, j: int|
                0 <= i <= j < t.len() ==> sort_line(t[i]) <= sort_line(t[j])
            &&& forall|i: int|
                0 <= i < t.len() ==> sort_line(#[trigger] t[i]) <= sort_line(x) || (s.len() > 0
                    && sort_line(t[i]) <= sort_line(s.last()))
        }),
    decreases s.len(),
{
    broadcast use group_to_multiset_ensures;

    let t = place_record(s, x);
    if s.len() == 0 || sort_line(s.last()) <= sort_line(x) {
        assert(t =~= s.push(x));
        if s.len() > 0 {
            assert forall|i: int| 0 <= i < s.len() implies sort_line(#[trigger] s[i]) <= sort_line(
                x,
            ) by {
                assert(sort_line(s[i]) <= sort_line(s[s.len() - 1]));
            }
        }
    } else {
        let rest = s.drop_last();
        lemma_placed_record(rest, x);
        let inner = place_record(rest, x);
        assert(s =~= rest.push(s.last()));
        assert(t == inner.push(s.last()));
        assert(t.to_multiset() =~= s.to_multiset().insert(x));
        assert forall|i: int| 0 <= i < inner.len() implies sort_line(#[trigger] inner[i])
            <= sort_line(s.last()) by {
            if rest.len() > 0 {
                assert(sort_line(rest.last()) <= sort_line(s[s.len() - 1]));
            }
        }
    }
}

/// What is shown of a file is in the order of lines, and is exactly what was found there.
pub proof fn law_records_are_shown_by_line(s: Seq<RecordView>)
    ensures
        by_line(s).to_multiset() == s.to_multiset(),
        forall|i: int, j: int|
            0 <= i <= j < by_line(s).len() ==> sort_line(by_line(s)[i]) <= sort_line(by_line(s)[j]),
    decreases s.len(),
{
    broadcast use group_to_multiset_ensures;

    if s.len() > 0 {
        law_records_are_shown_by_line(s.drop_last());
        lemma_placed_record(by_line(s.drop_last()), s.last());
        assert(s =~= s.drop_last().push(s.last()));
    }
}

/// A run that fails at the level of errors fails at that of warnings too.
pub proof fn law_lower_threshold_fails_too(files: Seq<FileView>, changed: Seq<Seq<char>>)
    requires
        run_fails(files, changed, Level::Error, Level::Error),
    ensures
        run_fails(files, changed, Level::Warning, Level::Warning),
{
    let k = choose|k: int|
        0 <= k < files.len() && file_fails(
            #[trigger] files[k],
            changed,
            Level::Error,
            Level::Error,
        );
    let i = choose|i: int| #[trigger]
        record_fails(files[k], i, changed, Level::Error, Level::Error);
    assert(record_fails(files[k], i, changed, Level::Warning, Level::Warning));
    assert(file_fails(files[k], changed, Level::Warning, Level::Warning));
}

/// A run that finds nothing passes.
pub proof fn law_nothing_found_passes(
    files: Seq<FileView>,
    changed: Seq<Seq<char>>,
    level: Level,
    changed_level: Level,
)
    requires
        forall|k: int| 0 <= k < files.len() ==> (#[trigger] files[k]).records.len() == 0,
    ensures
        !run_fails(files, changed, level, changed_level),
{
}

/// Whether a record is an error: its level reads `error` in any case. Any other is a warning.
pub open spec fn is_error(r: RecordView) -> bool {
    r.level is Some && lowercase(r.level->0) == "error"@
}

/// Whether the record `i` of the file `k` is severe enough: it is an error, or the level asked of
/// its file is that of warnings. A changed file may be asked for another level than the others.
pub open spec fn is_severe_at(
    files: Seq<FileView>,
    k: int,
    i: int,
    changed: Seq<Seq<char>>,
    level: Level,
    changed_level: Level,
) -> bool {
    &&& 0 <= k < files.len()
    &&& 0 <= i < files[k].records.len()
    &&& is_error(files[k].records[i]) || (changed.contains(files[k].path) && changed_level
        == Level::Warning) || (!changed.contains(files[k].path) && level == Level::Warning)
}

/// A run fails exactly where some record of some file is severe enough, wherever it stands.
pub proof fn law_any_severe_record_fails(
    files: Seq<FileView>,
    changed: Seq<Seq<char>>,
    level: Level,
    changed_level: Level,
)
    ensures
        run_fails(files, changed, level, changed_level) <==> exists|k: int, i: int|
            is_severe_at(files, k, i, changed, level, changed_level),
{
    reveal_strlit("warning");
    reveal_strlit("error");
    assert("warning"@[0] == 'w' && "error"@[0] == 'e');
    if run_fails(files, changed, level, changed_level) {
        let k = choose|k: int|
            0 <= k < files.len() && file_fails(#[trigger] files[k], changed, level, changed_level);
        let i = choose|i: int| #[trigger]
            record_fails(files[k], i, changed, level, changed_level);
        assert(is_severe_at(files, k, i, changed, level, changed_level));
    }
    if exists|k: int, i: int| is_severe_at(files, k, i, changed, level, changed_level) {
        let (k, i) = choose|k: int, i: int|
            is_severe_at(files, k, i, changed, level, changed_level);
        assert(record_fails(files[k], i, changed, level, changed_level));
        assert(file_fails(files[k], changed, level, changed_level));
    }
}

/// A run over two lots of files fails exactly where the run over one of them does: no file makes
/// up for another, and their order does not matter.
pub proof fn law_each_file_fails_a_run(
    a: Seq<FileView>,
    b: Seq<FileView>,
    changed: Seq<Seq<char>>,
    level: Level,
    changed_level: Level,
)
    ensures
        run_fails(a + b, changed, level, changed_level) <==> run_fails(
            a,
            changed,
            level,
            changed_level,
        ) || run_fails(b, changed, level, changed_level),
        run_fails(a + b, changed, level, changed_level) == run_fails(
            b + a,
            changed,
            level,
            changed_level,
        ),
{
    lemma_fails_in_either(a, b, changed, level, changed_level);
    lemma_fails_in_either(b, a, changed, level, changed_level);
}

proof fn lemma_fails_in_either(
    a: Seq<FileView>,
    b: Seq<FileView>,
    changed: Seq<Seq<char>>,
    level: Level,
    changed_level: Level,
)
    ensures
        run_fails(a + b, changed, level, changed_level) <==> run_fails(
            a,
            changed,
            level,
            changed_level,
        ) || run_fails(b, changed, level, changed_level),
{
    let all = a + b;
    if run_fails(all, changed, level, changed_level) {
        let k = choose|k: int|
            0 <= k < all.len() && file_fails(#[trigger] all[k], changed, level, changed_level);
        if k < a.len() {
            assert(a[k] == all[k]);
        } else {
            assert(b[k - a.len()] == all[k]);
        }
    }
    if run_fails(a, changed, level, changed_level) {
        let k = choose|k: int|
            0 <= k < a.len() && file_fails(#[trigger] a[k], changed, level, changed_level);
        assert(all[k] == a[k]);
    }
    if run_fails(b, changed, level, changed_level) {
        let k = choose|k: int|
            0 <= k < b.len() && file_fails(#[trigger] b[k], changed, level, changed_level);
        assert(all[k + a.len()] == b[k]);
    }
}

// ---------------------------------------------------------------------------
// All that is shown
// ---------------------------------------------------------------------------

/// Whether files are in the order of their paths.
pub open spec fn in_path_order(s: Seq<FileView>) -> bool {
    forall|i: int, j: int| 0 <= i <= j < s.len() ==> !before(s[j].path, s[i].path)
}

proof fn lemma_before(a: Seq<char>, b: Seq<char>, c: Seq<char>)
    ensures
        !before(a, a),
        before(a, b) ==> !before(b, a),
        b == c || before(b, c) || before(c, b),
        before(a, b) && before(b, c) ==> before(a, c),
{
    lemma_before_total(a, a);
    lemma_before_total(a, b);
    lemma_before_total(b, c);
    if before(a, b) && before(b, c) {
        lemma_before_transitive(a, b, c);
    }
}

proof fn lemma_placed_file(s: Seq<FileView>, x: FileView)
    requires
        in_path_order(s),
    ensures
        place_file(s, x).to_multiset() == s.to_multiset().insert(x),
        in_path_order(place_file(s, x)),
        forall|y: Seq<char>|
            (forall|i: int| 0 <= i < s.len() ==> !before(y, (#[trigger] s[i]).path)) && !before(
                y,
                x.path,
            ) ==> forall|i: int|
                0 <= i < place_file(s, x).len() ==> !before(y, (#[trigger] place_file(s, x)[i]).path),
    decreases s.len(),
{
    broadcast use group_to_multiset_ensures;

    let t = place_file(s, x);
    if s.len() == 0 || !before(x.path, s.last().path) {
        assert(t =~= s.push(x));
        assert forall|i: int, j: int| 0 <= i <= j < t.len() implies !before(t[j].path, t[i].path) by {
            lemma_before(x.path, x.path, x.path);
            if j == s.len() && i < s.len() {
                assert(!before(s[s.len() - 1].path, s[i].path));
                lemma_before(x.path, s[i].path, s.last().path);
            }
        }
    } else {
        let rest = s.drop_last();
        assert forall|i: int, j: int| 0 <= i <= j < rest.len() implies !before(
            rest[j].path,
            rest[i].path,
        ) by {
            assert(!before(s[j].path, s[i].path));
        }
        lemma_placed_file(rest, x);
        let inner = place_file(rest, x);
        assert(s =~= rest.push(s.last()));
        assert(t == inner.push(s.last()));
        assert(t.to_multiset() =~= s.to_multiset().insert(x));
        let y = s.last().path;
        assert forall|i: int| 0 <= i < rest.len() implies !before(y, (#[trigger] rest[i]).path) by {
            assert(!before(s[s.len() - 1].path, s[i].path));
        }
        lemma_before(x.path, y, x.path);
        assert(!before(y, x.path));
        assert forall|i: int, j: int| 0 <= i <= j < t.len() implies !before(t[j].path, t[i].path) by {
            lemma_before(y, y, y);
            if j == inner.len() && i < inner.len() {
                assert(!before(y, inner[i].path));
            }
        }
        assert forall|y: Seq<char>|
            (forall|i: int| 0 <= i < s.len() ==> !before(y, (#[trigger] s[i]).path)) && !before(
                y,
                x.path,
            ) implies forall|i: int| 0 <= i < t.len() ==> !before(y, (#[trigger] t[i]).path) by {
            assert forall|i: int| 0 <= i < rest.len() implies !before(
                y,
                (#[trigger] rest[i]).path,
            ) by {
                assert(!before(y, s[i].path));
            }
            assert(!before(y, s[s.len() - 1].path));
            assert forall|i: int| 0 <= i < t.len() implies !before(y, (#[trigger] t[i]).path) by {
                if i < inner.len() {
                    assert(t[i] == inner[i]);
                }
            }
        }
    }
}

/// The files are shown in the order of their paths, each as often as it was given.
pub proof fn law_files_are_shown_by_path(s: Seq<FileView>)
    ensures
        by_path(s).to_multiset() == s.to_multiset(),
        in_path_order(by_path(s)),
    decreases s.len(),
{
    broadcast use group_to_multiset_ensures;

    if s.len() > 0 {
        law_files_are_shown_by_path(s.drop_last());
        lemma_placed_file(by_path(s.drop_last()), s.last());
        assert(s =~= s.drop_last().push(s.last()));
    }
}

/// How many records several files have.
pub open spec fn record_count(files: Seq<FileView>) -> nat
    decreases files.len(),
{
    if files.len() == 0 {
        0
    } else {
        record_count(files.drop_last()) + files.last().records.len()
    }
}

/// Whether a finding is the record `i` of the file `k`.
pub open spec fn is_record(f: FindingView, files: Seq<FileView>, k: int, i: int) -> bool {
    0 <= k < files.len() && 0 <= i < files[k].records.len() && f.path == files[k].path && f.record
        == files[k].records[i]
}

proof fn lemma_same_members<A>(s: Seq<A>, t: Seq<A>, x: A)
    requires
        s.to_multiset() == t.to_multiset(),
    ensures
        s.contains(x) == t.contains(x),
        s.len() == t.len(),
{
    broadcast use group_to_multiset_ensures;

    s.to_multiset_ensures();
    t.to_multiset_ensures();
    assert(s.contains(x) <==> s.to_multiset().count(x) > 0);
    assert(t.contains(x) <==> t.to_multiset().count(x) > 0);
}

proof fn lemma_findings_in_file(f: FileView, x: FindingView)
    ensures
        findings_in(f).contains(x) <==> x.path == f.path && f.records.contains(x.record),
        findings_in(f).len() == f.records.len(),
{
    law_records_are_shown_by_line(f.records);
    let shown = by_line(f.records);
    lemma_same_members(shown, f.records, x.record);
    let all = findings_in(f);
    if all.contains(x) {
        let i = all.index_of(x);
        assert(shown[i] == x.record);
    }
    if x.path == f.path && shown.contains(x.record) {
        let i = shown.index_of(x.record);
        assert(all[i] =~= x);
    }
}

proof fn lemma_findings_in_files(files: Seq<FileView>, x: FindingView)
    ensures
        findings_of(files).contains(x) <==> exists|k: int, i: int| is_record(x, files, k, i),
        findings_of(files).len() == record_count(files),
    decreases files.len(),
{
    let all = findings_of(files);
    if files.len() > 0 {
        let rest = files.drop_last();
        let last = files.last();
        lemma_findings_in_files(rest, x);
        lemma_findings_in_file(last, x);
        let a = findings_of(rest);
        let b = findings_in(last);
        if all.contains(x) {
            let n = all.index_of(x);
            if n < a.len() {
                assert(a[n] == x);
                let (k, i) = choose|k: int, i: int| is_record(x, rest, k, i);
                assert(is_record(x, files, k, i));
            } else {
                assert(b[n - a.len()] == x);
                let i = last.records.index_of(x.record);
                assert(is_record(x, files, files.len() - 1, i));
            }
        }
        if exists|k: int, i: int| is_record(x, files, k, i) {
            let (k, i) = choose|k: int, i: int| is_record(x, files, k, i);
            if k < rest.len() {
                assert(is_record(x, rest, k, i));
                assert(all[a.index_of(x)] == x);
            } else {
                assert(last.records[i] == x.record);
                assert(b.contains(x));
                assert(all[a.len() + b.index_of(x)] == x);
            }
        }
    }
}

proof fn lemma_count_placed(s: Seq<FileView>, x: FileView)
    ensures
        record_count(place_file(s, x)) == record_count(s) + x.records.len(),
    decreases s.len(),
{
    if s.len() == 0 || !before(x.path, s.last().path) {
        assert(s.push(x).drop_last() =~= s);
    } else {
        let inner = place_file(s.drop_last(), x);
        lemma_count_placed(s.drop_last(), x);
        assert(inner.push(s.last()).drop_last() =~= inner);
    }
}

proof fn lemma_count_by_path(s: Seq<FileView>)
    ensures
        record_count(by_path(s)) == record_count(s),
    decreases s.len(),
{
    if s.len() > 0 {
        lemma_count_by_path(s.drop_last());
        lemma_count_placed(by_path(s.drop_last()), s.last());
    }
}

/// Every record of every file is shown under the path of its file, nothing else is, and as much is
/// shown as there are records.
pub proof fn law_every_record_is_shown(files: Seq<FileView>, x: FindingView)
    ensures
        findings(files).contains(x) <==> exists|k: int, i: int| is_record(x, files, k, i),
        findings(files).len() == record_count(files),
{
    let shown = by_path(files);
    law_files_are_shown_by_path(files);
    lemma_findings_in_files(shown, x);
    lemma_count_by_path(files);
    if exists|k: int, i: int| is_record(x, shown, k, i) {
        let (k, i) = choose|k: int, i: int| is_record(x, shown, k, i);
        lemma_same_members(shown, files, shown[k]);
        assert(shown.contains(shown[k]));
        let j = files.index_of(shown[k]);
        assert(is_record(x, files, j, i));
    }
    if exists|k: int, i: int| is_record(x, files, k, i) {
        let (k, i) = choose|k: int, i: int| is_record(x, files, k, i);
        lemma_same_members(shown, files, files[k]);
        assert(files.contains(files[k]));
        let j = shown.index_of(files[k]);
        assert(is_record(x, shown, j, i));
    }
}

proof fn lemma_shown_in_order(files: Seq<FileView>, i: int, j: int)
    requires
        in_path_order(files),
        0 <= i <= j < findings_of(files).len(),
    ensures
        !before(findings_of(files)[j].path, findings_of(files)[i].path),
        (forall|a: int, b: int| 0 <= a < b < files.len() ==> files[a].path != files[b].path)
            && findings_of(files)[i].path == findings_of(files)[j].path ==> sort_line(
            findings_of(files)[i].record,
        ) <= sort_line(findings_of(files)[j].record),
    decreases files.len(),
{
    let rest = files.drop_last();
    let last = files.last();
    let a = findings_of(rest);
    let b = findings_in(last);
    let all = findings_of(files);
    assert forall|i: int, j: int| 0 <= i <= j < rest.len() implies !before(
        rest[j].path,
        rest[i].path,
    ) by {
        assert(!before(files[j].path, files[i].path));
    }
    law_records_are_shown_by_line(last.records);
    if j < a.len() {
        lemma_shown_in_order(rest, i, j);
        if forall|a: int, b: int| 0 <= a < b < files.len() ==> files[a].path != files[b].path {
            assert forall|a: int, b: int| 0 <= a < b < rest.len() implies rest[a].path
                != rest[b].path by {
                assert(files[a].path != files[b].path);
            }
        }
    } else {
        assert(all[j] == b[j - a.len()]);
        if i < a.len() {
            lemma_findings_in_files(rest, all[i]);
            assert(a[i] == all[i]);
            assert(a.contains(all[i]));
            let (k, n) = choose|k: int, n: int| is_record(all[i], rest, k, n);
            assert(!before(files[files.len() - 1].path, files[k].path));
            assert(rest[k] == files[k]);
        } else {
            assert(all[i] == b[i - a.len()]);
            lemma_before(last.path, last.path, last.path);
        }
    }
}

/// What is shown comes in the order of paths, and within a file in the order of lines.
pub proof fn law_findings_come_in_order(files: Seq<FileView>, i: int, j: int)
    requires
        0 <= i <= j < findings(files).len(),
        forall|a: int, b: int| 0 <= a < b < files.len() ==> files[a].path != files[b].path,
    ensures
        !before(findings(files)[j].path, findings(files)[i].path),
        findings(files)[i].path == findings(files)[j].path ==> or_number(
            findings(files)[i].record.line,
            0,
        ) <= or_number(findings(files)[j].record.line, 0),
{
    let shown = by_path(files);
    law_files_are_shown_by_path(files);
    lemma_paths_stay_apart(files);
    lemma_shown_in_order(shown, i, j);
}

proof fn lemma_place_file_members(s: Seq<FileView>, x: FileView, i: int)
    requires
        0 <= i < place_file(s, x).len(),
    ensures
        place_file(s, x).len() == s.len() + 1,
        place_file(s, x)[i] == x || s.contains(place_file(s, x)[i]),
    decreases s.len(),
{
    let t = place_file(s, x);
    if s.len() == 0 || !before(x.path, s.last().path) {
        if i < s.len() {
            assert(s[i] == t[i]);
        }
    } else {
        let inner = place_file(s.drop_last(), x);
        if inner.len() > 0 {
            lemma_place_file_members(s.drop_last(), x, if i < inner.len() { i } else { 0 });
        }
        if i < inner.len() {
            if inner[i] != x {
                let k = s.drop_last().index_of(inner[i]);
                assert(s[k] == inner[i]);
            }
        } else {
            assert(s[s.len() - 1] == t[i]);
        }
    }
}

proof fn lemma_place_file_apart(s: Seq<FileView>, x: FileView)
    requires
        forall|a: int, b: int| 0 <= a < b < s.len() ==> s[a].path != s[b].path,
        forall|a: int| 0 <= a < s.len() ==> (#[trigger] s[a]).path != x.path,
    ensures
        forall|a: int, b: int|
            0 <= a < b < place_file(s, x).len() ==> place_file(s, x)[a].path != place_file(
                s,
                x,
            )[b].path,
    decreases s.len(),
{
    let t = place_file(s, x);
    if !(s.len() == 0 || !before(x.path, s.last().path)) {
        let rest = s.drop_last();
        assert forall|a: int, b: int| 0 <= a < b < rest.len() implies rest[a].path != rest[b].path by {
            assert(s[a].path != s[b].path);
        }
        assert forall|a: int| 0 <= a < rest.len() implies (#[trigger] rest[a]).path != x.path by {
            assert(s[a].path != x.path);
        }
        lemma_place_file_apart(rest, x);
        let inner = place_file(rest, x);
        assert forall|a: int, b: int| 0 <= a < b < t.len() implies t[a].path != t[b].path by {
            if b == inner.len() {
                lemma_place_file_members(rest, x, a);
                if inner[a] != x {
                    let k = rest.index_of(inner[a]);
                    assert(s[k].path != s[s.len() - 1].path);
                } else {
                    assert(s[s.len() - 1].path != x.path);
                }
            } else {
                assert(inner[a].path != inner[b].path);
            }
        }
    }
}

proof fn lemma_paths_stay_apart(s: Seq<FileView>)
    requires
        forall|a: int, b: int| 0 <= a < b < s.len() ==> s[a].path != s[b].path,
    ensures
        forall|a: int, b: int| 0 <= a < b < by_path(s).len() ==> by_path(s)[a].path != by_path(s)[b].path,
    decreases s.len(),
{
    if s.len() > 0 {
        let rest = s.drop_last();
        assert forall|a: int, b: int| 0 <= a < b < rest.len() implies rest[a].path != rest[b].path by {
            assert(s[a].path != s[b].path);
        }
        lemma_paths_stay_apart(rest);
        law_files_are_shown_by_path(rest);
        let shown = by_path(rest);
        assert forall|a: int| 0 <= a < shown.len() implies (#[trigger] shown[a]).path
            != s.last().path by {
            lemma_same_members(shown, rest, shown[a]);
            assert(shown.contains(shown[a]));
            let k = rest.index_of(shown[a]);
            assert(s[k].path != s[s.len() - 1].path);
        }
        lemma_place_file_apart(shown, s.last());
    }
}

/// Filtering a list with one more at its end filters the list, and keeps that one where it passes.
pub proof fn lemma_filter_push<A>(s: Seq<A>, x: A, keep: spec_fn(A) -> bool)
    ensures
        s.push(x).filter(keep) == if keep(x) {
            s.filter(keep).push(x)
        } else {
            s.filter(keep)
        },
{
    reveal(Seq::filter);
    assert(s.push(x).drop_last() =~= s);
}

proof fn lemma_placed_behind_its_line(s: Seq<RecordView>, x: RecordView, line: u64)
    ensures
        ({
            let on = |r: RecordView| or_number(r.line, 0) == line;
            place_record(s, x).filter(on) == s.push(x).filter(on)
        }),
    decreases s.len(),
{
    let on = |r: RecordView| or_number(r.line, 0) == line;
    if s.len() > 0 && sort_line(s.last()) > sort_line(x) {
        let rest = s.drop_last();
        lemma_placed_behind_its_line(rest, x, line);
        lemma_filter_push(place_record(rest, x), s.last(), on);
        lemma_filter_push(rest, x, on);
        lemma_filter_push(rest, s.last(), on);
        lemma_filter_push(s, x, on);
        assert(s =~= rest.push(s.last()));
    }
}

/// Records on one line stay in the order in which they came.
pub proof fn law_records_on_a_line_stay_in_order(s: Seq<RecordView>, line: u64)
    ensures
        by_line(s).filter(|r: RecordView| or_number(r.line, 0) == line) == s.filter(
            |r: RecordView| or_number(r.line, 0) == line,
        ),
    decreases s.len(),
{
    let on = |r: RecordView| or_number(r.line, 0) == line;
    if s.len() > 0 {
        let rest = s.drop_last();
        law_records_on_a_line_stay_in_order(rest, line);
        lemma_placed_behind_its_line(by_line(rest), s.last(), line);
        lemma_filter_push(by_line(rest), s.last(), on);
        lemma_filter_push(rest, s.last(), on);
        assert(s =~= rest.push(s.last()));
    }
}

} // verus!
