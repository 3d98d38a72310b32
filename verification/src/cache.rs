//! The cache of violations: what was found in a file is kept until the file or the settings
//! change.
use crate::paths::{components, is_absolute, join_path, joined, split_path};
use crate::sorting::{in_order, sort_texts};
use crate::split::{join, join_spec};
use crate::text::{byte_len, eq, strs};
use crate::types::{or_number, or_text, record_views, Record, RecordView};
use vstd::bytes::*;
use vstd::prelude::*;
use vstd::string::*;
use vstd::utf8::{encode_utf8, encode_utf8_decode_utf8};

verus! {

/// The name of the directory below the cache root; each release has its own.
pub const VERSION: &'static str = "0.1.1";

/// Entries that were not seen for this many days are dropped.
pub const EVICT_DAYS: u64 = 30;

/// The days after which entries are dropped, in milliseconds.
pub const EVICT_MILLIS: u64 = 2_592_000_000;

// ---------------------------------------------------------------------------
// Hashing
// ---------------------------------------------------------------------------

/// The SeaHash of some bytes.
pub uninterp spec fn sea_hash(bytes: Seq<u8>) -> u64;

/// Calls `seahash::hash`, whose result is a function of the bytes.
#[verifier::external_body]
pub(crate) fn hash_bytes(bytes: &Vec<u8>) -> (r: u64)
    ensures
        r == sea_hash(bytes@),
{
    seahash::hash(bytes)
}

/// The bytes of a text with a mark behind them that no text holds.
pub open spec fn marked(text: Seq<char>) -> Seq<u8> {
    encode_utf8(text).push(0xFF)
}

/// The bytes of several texts, each with a mark behind it.
pub open spec fn all_marked(texts: Seq<Seq<char>>) -> Seq<u8>
    decreases texts.len(),
{
    if texts.len() == 0 {
        Seq::empty()
    } else {
        all_marked(texts.drop_last()) + marked(texts.last())
    }
}

/// Puts the bytes of a text and the mark behind other bytes.
pub fn push_marked(out: &mut Vec<u8>, text: &str)
    ensures
        final(out)@ == old(out)@ + marked(text@),
{
    let bytes = text.as_bytes();
    let mut i: usize = 0;
    assert(old(out)@ + bytes@.take(0) =~= old(out)@);
    while i < bytes.len()
        invariant
            i <= bytes@.len(),
            bytes@ == encode_utf8(text@),
            out@ == old(out)@ + bytes@.take(i as int),
        decreases bytes@.len() - i,
    {
        out.push(bytes[i]);
        assert(out@ =~= old(out)@ + bytes@.take(i + 1));
        i += 1;
    }
    out.push(0xFF);
    assert(out@ =~= old(out)@ + marked(text@));
}

/// Puts the bytes of several texts, each with the mark, behind other bytes.
pub fn push_all_marked(out: &mut Vec<u8>, texts: &Vec<String>)
    ensures
        final(out)@ == old(out)@ + all_marked(strs(texts@)),
{
    let ghost all = strs(texts@);
    let mut i: usize = 0;
    assert(all.take(0) =~= Seq::empty());
    assert(old(out)@ + Seq::<u8>::empty() =~= old(out)@);
    while i < texts.len()
        invariant
            i <= texts@.len(),
            all == strs(texts@),
            out@ == old(out)@ + all_marked(all.take(i as int)),
        decreases texts@.len() - i,
    {
        assert(all.take(i + 1).drop_last() =~= all.take(i as int));
        assert(all.take(i + 1).last() == texts@[i as int]@);
        push_marked(out, texts[i].as_str());
        assert(out@ =~= old(out)@ + all_marked(all.take(i + 1)));
        i += 1;
    }
    assert(all.take(all.len() as int) =~= all);
}

// ---------------------------------------------------------------------------
// File keys
// ---------------------------------------------------------------------------

/// What tells whether a file was changed: when it was last modified, and its permissions.
#[derive(Clone, Copy, Debug)]
pub struct FileCacheKey {
    pub mtime_secs: i64,
    pub mtime_nanos: u32,
    pub permissions: u32,
}

impl FileCacheKey {
    /// The bytes that are hashed.
    pub open spec fn bytes(self) -> Seq<u8> {
        spec_u64_to_le_bytes(self.mtime_secs as u64) + spec_u32_to_le_bytes(self.mtime_nanos)
            + spec_u32_to_le_bytes(self.permissions)
    }

    /// The hash of the key.
    pub fn hash(&self) -> (r: u64)
        ensures
            r == sea_hash(self.bytes()),
    {
        let mut bytes = u64_to_le_bytes(self.mtime_secs as u64);
        let mut nanos = u32_to_le_bytes(self.mtime_nanos);
        let mut permissions = u32_to_le_bytes(self.permissions);
        bytes.append(&mut nanos);
        bytes.append(&mut permissions);
        assert(bytes@ =~= self.bytes());
        hash_bytes(&bytes)
    }
}

/// Keys that differ are hashed from different bytes.
pub proof fn law_keys_have_their_own_bytes(a: FileCacheKey, b: FileCacheKey)
    requires
        a.bytes() == b.bytes(),
    ensures
        a.mtime_secs as u64 == b.mtime_secs as u64,
        a.mtime_nanos == b.mtime_nanos,
        a.permissions == b.permissions,
{
    lemma_auto_spec_u64_to_from_le_bytes();
    lemma_auto_spec_u32_to_from_le_bytes();
    let x = spec_u64_to_le_bytes(a.mtime_secs as u64);
    let y = spec_u64_to_le_bytes(b.mtime_secs as u64);
    assert(x.len() == 8 && y.len() == 8);
    assert(a.bytes().subrange(0, 8) =~= x);
    assert(b.bytes().subrange(0, 8) =~= y);
    assert(a.bytes().subrange(8, 12) =~= spec_u32_to_le_bytes(a.mtime_nanos));
    assert(b.bytes().subrange(8, 12) =~= spec_u32_to_le_bytes(b.mtime_nanos));
    assert(a.bytes().subrange(12, 16) =~= spec_u32_to_le_bytes(a.permissions));
    assert(b.bytes().subrange(12, 16) =~= spec_u32_to_le_bytes(b.permissions));
}

// ---------------------------------------------------------------------------
// Settings
// ---------------------------------------------------------------------------

/// A text in quotes, with escapes.
pub uninterp spec fn quoted(text: Seq<char>) -> Seq<char>;

/// Calls `std::format!` with `{:?}`, which quotes the text and escapes what stands in it.
#[verifier::external_body]
pub(crate) fn quote(text: &str) -> (r: String)
    ensures
        r@ == quoted(text@),
{
    format!("{text:?}")
}

/// How a part of a path is written for hashing.
pub open spec fn part_label(part: Seq<char>) -> Seq<char> {
    if part == ".."@ {
        "ParentDir"@
    } else if part == "."@ {
        "CurDir"@
    } else {
        "Normal("@ + quoted(part) + ")"@
    }
}

fn write_label(part: &str) -> (r: String)
    ensures
        r@ == part_label(part@),
{
    if eq(part, "..") {
        "ParentDir".to_owned()
    } else if eq(part, ".") {
        "CurDir".to_owned()
    } else {
        let mut out = "Normal(".to_owned();
        out.append(quote(part).as_str());
        out.append(")");
        out
    }
}

/// The parts of the package root that are hashed.
pub open spec fn root_parts(root: Seq<char>) -> Seq<Seq<char>> {
    let parts = components(root).map_values(|p: Seq<char>| part_label(p));
    if is_absolute(root) {
        seq!["RootDir"@] + parts
    } else {
        parts
    }
}

fn write_root_parts(root: &str) -> (r: Vec<String>)
    ensures
        strs(r@) == root_parts(root@),
{
    let parts = split_path(root);
    let ghost labels = components(root@).map_values(|p: Seq<char>| part_label(p));
    let mut out: Vec<String> = Vec::new();
    if crate::paths::absolute(root) {
        out.push("RootDir".to_owned());
    }
    let ghost first = strs(out@);
    assert(first =~= if is_absolute(root@) {
        seq!["RootDir"@]
    } else {
        Seq::empty()
    });
    assert(strs(parts@).len() == parts@.len());
    assert(first + labels.take(0) =~= first);
    let mut i: usize = 0;
    while i < parts.len()
        invariant
            i <= parts@.len(),
            parts@.len() == labels.len(),
            strs(parts@) == components(root@),
            labels == components(root@).map_values(|p: Seq<char>| part_label(p)),
            strs(out@) == first + labels.take(i as int),
        decreases parts@.len() - i,
    {
        assert(strs(parts@)[i as int] == parts@[i as int]@);
        let ghost before = out@;
        let label = write_label(parts[i].as_str());
        assert(label@ == labels[i as int]);
        out.push(label);
        assert(strs(out@) =~= strs(before).push(label@));
        assert(first + labels.take(i + 1) =~= (first + labels.take(i as int)).push(label@));
        i += 1;
    }
    assert(labels.take(labels.len() as int) =~= labels);
    assert(first + labels =~= root_parts(root@));
    out
}

/// The bytes that stand for the settings: the package root, what is selected and ignored in
/// order, and the level.
pub open spec fn settings_bytes(
    root: Seq<char>,
    select: Seq<Seq<char>>,
    ignore: Seq<Seq<char>>,
    level: Seq<char>,
) -> Seq<u8> {
    all_marked(root_parts(root)) + marked(join_spec(in_order(select), ","@)) + marked(
        join_spec(in_order(ignore), ","@),
    ) + marked(level)
}

/// The hash of the settings.
pub fn settings_hash(
    package_root: &str,
    select: &Vec<String>,
    ignore: &Vec<String>,
    level: &str,
) -> (r: u64)
    ensures
        r == sea_hash(settings_bytes(package_root@, strs(select@), strs(ignore@), level@)),
{
    let parts = write_root_parts(package_root);
    let mut bytes: Vec<u8> = Vec::new();
    push_all_marked(&mut bytes, &parts);
    assert(bytes@ =~= all_marked(root_parts(package_root@)));
    let selected = join(&sort_texts(select), ",");
    let ignored = join(&sort_texts(ignore), ",");
    push_marked(&mut bytes, selected.as_str());
    push_marked(&mut bytes, ignored.as_str());
    push_marked(&mut bytes, level);
    hash_bytes(&bytes)
}

/// The order in which rules are selected and ignored does not matter for the cache.
pub proof fn law_settings_order_does_not_matter(
    root: Seq<char>,
    select: Seq<Seq<char>>,
    other_select: Seq<Seq<char>>,
    ignore: Seq<Seq<char>>,
    other_ignore: Seq<Seq<char>>,
    level: Seq<char>,
)
    requires
        select.to_multiset() == other_select.to_multiset(),
        ignore.to_multiset() == other_ignore.to_multiset(),
    ensures
        settings_bytes(root, select, ignore, level) == settings_bytes(
            root,
            other_select,
            other_ignore,
            level,
        ),
{
    crate::sorting::law_order_does_not_matter(select, other_select);
    crate::sorting::law_order_does_not_matter(ignore, other_ignore);
}

/// The digit of a number below sixteen.
pub open spec fn hex_digit(n: int) -> char {
    if n < 10 {
        ('0' as u32 + n) as u32 as char
    } else {
        ('a' as u32 + n - 10) as u32 as char
    }
}

/// The last `width` hexadecimal digits of a number.
pub open spec fn hex(n: nat, width: nat) -> Seq<char>
    decreases width,
{
    if width == 0 {
        Seq::empty()
    } else {
        hex(n / 16, (width - 1) as nat).push(hex_digit((n % 16) as int))
    }
}

fn write_hex_digit(n: u64) -> (c: char)
    requires
        n < 16,
    ensures
        c == hex_digit(n as int),
{
    match n {
        0 => '0',
        1 => '1',
        2 => '2',
        3 => '3',
        4 => '4',
        5 => '5',
        6 => '6',
        7 => '7',
        8 => '8',
        9 => '9',
        10 => 'a',
        11 => 'b',
        12 => 'c',
        13 => 'd',
        14 => 'e',
        _ => 'f',
    }
}

/// The last `width` hexadecimal digits of a number.
pub fn write_hex(n: u64, width: usize) -> (r: String)
    ensures
        r@ == hex(n as nat, width as nat),
    decreases width,
{
    if width == 0 {
        String::new()
    } else {
        let mut out = write_hex(n / 16, width - 1);
        out.push(write_hex_digit(n % 16));
        out
    }
}

/// The path of the cache file for a package root and its settings.
pub open spec fn cache_path(
    cache_root: Seq<char>,
    root: Seq<char>,
    select: Seq<Seq<char>>,
    ignore: Seq<Seq<char>>,
    level: Seq<char>,
) -> Seq<char> {
    let hash = sea_hash(settings_bytes(root, select, ignore, level));
    joined(joined(cache_root, VERSION@), hex(hash as nat, 16))
}

/// The level that results are kept for, with what they rest on besides the files: the state of the
/// Python environment.
pub fn level_in_environment(level: &str, fingerprint: u64) -> (r: String)
    ensures
        r@ == level@ + "-"@ + hex(fingerprint as nat, 16),
{
    let mut out = level.to_owned();
    out.append("-");
    out.append(write_hex(fingerprint, 16).as_str());
    out
}

/// The path of the cache file for a package root and its settings.
pub fn cache_file(
    cache_root: &str,
    package_root: &str,
    level: &str,
    select: &Vec<String>,
    ignore: &Vec<String>,
) -> (r: String)
    ensures
        r@ == cache_path(cache_root@, package_root@, strs(select@), strs(ignore@), level@),
{
    let hash: u64 = settings_hash(package_root, select, ignore, level);
    let dir = join_path(cache_root, VERSION);
    join_path(dir.as_str(), write_hex(hash, 16).as_str())
}

// ---------------------------------------------------------------------------
// Cached violations
// ---------------------------------------------------------------------------

/// What the cache keeps of a violation.
#[derive(Clone, Debug)]
pub struct CachedViolation {
    pub rule: String,
    pub line: u32,
    pub col: u32,
    pub end_line: u32,
    pub message: String,
    /// Empty where there is none.
    pub help: String,
    pub level: String,
    pub fixable: bool,
}

/// What a [`CachedViolation`] says.
#[verifier::ext_equal]
pub struct CachedView {
    pub rule: Seq<char>,
    pub line: u32,
    pub col: u32,
    pub end_line: u32,
    pub message: Seq<char>,
    pub help: Seq<char>,
    pub level: Seq<char>,
    pub fixable: bool,
}

impl View for CachedViolation {
    type V = CachedView;

    open spec fn view(&self) -> CachedView {
        CachedView {
            rule: self.rule@,
            line: self.line,
            col: self.col,
            end_line: self.end_line,
            message: self.message@,
            help: self.help@,
            level: self.level@,
            fixable: self.fixable,
        }
    }
}

/// What several cached violations say.
pub open spec fn cached_views(v: Seq<CachedViolation>) -> Seq<CachedView> {
    v.map_values(|c: CachedViolation| c@)
}

/// The record that a cached violation stands for.
pub open spec fn uncached(c: CachedView) -> RecordView {
    RecordView {
        rule: Some(c.rule),
        line: Some(c.line as u64),
        message: Some(c.message),
        level: Some(c.level),
        help: if c.help.len() == 0 {
            None
        } else {
            Some(c.help)
        },
        start_line: Some(c.line as u64),
        start_character: Some(c.col as u64),
        end_line: Some(c.end_line as u64),
        end_character: Some(0),
        fixable: Some(c.fixable),
    }
}

/// What the cache keeps of a record; nothing of one without a rule or a line.
pub open spec fn cached(r: RecordView) -> Option<CachedView> {
    if r.rule is Some && r.line is Some {
        Some(
            CachedView {
                rule: r.rule->0,
                line: r.line->0 as u32,
                col: or_number(r.start_character, 1) as u32,
                end_line: or_number(r.end_line, 1) as u32,
                message: or_text(r.message, Seq::empty()),
                help: or_text(r.help, Seq::empty()),
                level: or_text(r.level, "error"@),
                fixable: r.fixable == Some(true),
            },
        )
    } else {
        None
    }
}

impl CachedViolation {
    /// The record that the cached violation stands for.
    pub fn to_json(&self) -> (r: Record)
        ensures
            r@ == uncached(self@),
    {
        Record {
            rule: Some(self.rule.clone()),
            line: Some(self.line as u64),
            message: Some(self.message.clone()),
            level: Some(self.level.clone()),
            help: if self.help.as_str().is_empty() {
                None
            } else {
                Some(self.help.clone())
            },
            start_line: Some(self.line as u64),
            start_character: Some(self.col as u64),
            end_line: Some(self.end_line as u64),
            end_character: Some(0),
            fixable: Some(self.fixable),
        }
    }

    /// What the cache keeps of a record.
    pub fn from_json(r: &Record) -> (c: Option<CachedViolation>)
        ensures
            match c {
                Some(c) => cached(r@) == Some(c@),
                None => cached(r@) is None,
            },
    {
        let rule = match &r.rule {
            Some(rule) => rule.clone(),
            None => return None,
        };
        let line: u64 = match r.line {
            Some(line) => line,
            None => return None,
        };
        proof {
            reveal_strlit("");
            assert(""@ =~= Seq::<char>::empty());
        }
        Some(
            CachedViolation {
                rule,
                line: line as u32,
                col: crate::types::number_or(r.start_character, 1) as u32,
                end_line: crate::types::number_or(r.end_line, 1) as u32,
                message: crate::types::text_or(&r.message, ""),
                help: crate::types::text_or(&r.help, ""),
                level: crate::types::text_or(&r.level, "error"),
                fixable: match r.fixable {
                    Some(fixable) => fixable,
                    None => false,
                },
            },
        )
    }
}

/// A record from the cache is kept as it is when it is cached again.
pub proof fn law_cached_round_trip(c: CachedView)
    ensures
        cached(uncached(c)) == Some(c),
{
    assert(cached(uncached(c))->0.help =~= c.help);
}

// ---------------------------------------------------------------------------
// The cache
// ---------------------------------------------------------------------------

/// What is kept of a file.
pub struct FileCache {
    pub path: String,
    /// The hash of the file's key.
    pub key: u64,
    /// When the entry was last written, in milliseconds.
    pub last_seen: u64,
    pub violations: Vec<CachedViolation>,
}

/// What a [`FileCache`] says.
#[verifier::ext_equal]
pub struct EntryView {
    pub path: Seq<char>,
    pub key: u64,
    pub last_seen: u64,
    pub violations: Seq<CachedView>,
}

impl View for FileCache {
    type V = EntryView;

    open spec fn view(&self) -> EntryView {
        EntryView {
            path: self.path@,
            key: self.key,
            last_seen: self.last_seen,
            violations: cached_views(self.violations@),
        }
    }
}

/// What several entries say.
pub open spec fn entry_views(v: Seq<FileCache>) -> Seq<EntryView> {
    v.map_values(|e: FileCache| e@)
}

/// The entry of a file.
pub open spec fn entry_for(entries: Seq<EntryView>, path: Seq<char>) -> Option<EntryView>
    decreases entries.len(),
{
    if entries.len() == 0 {
        None
    } else if entries.last().path == path {
        Some(entries.last())
    } else {
        entry_for(entries.drop_last(), path)
    }
}

/// The entries of all files but one.
pub open spec fn without_file(entries: Seq<EntryView>, path: Seq<char>) -> Seq<EntryView>
    decreases entries.len(),
{
    if entries.len() == 0 {
        Seq::empty()
    } else {
        let before = without_file(entries.drop_last(), path);
        if entries.last().path == path {
            before
        } else {
            before.push(entries.last())
        }
    }
}

/// The entries seen at or after `cutoff`.
pub open spec fn seen_since(entries: Seq<EntryView>, cutoff: int) -> Seq<EntryView>
    decreases entries.len(),
{
    if entries.len() == 0 {
        Seq::empty()
    } else {
        let before = seen_since(entries.drop_last(), cutoff);
        if entries.last().last_seen >= cutoff {
            before.push(entries.last())
        } else {
            before
        }
    }
}

/// The entries with those of `pending` in place of what was kept of the same files.
pub open spec fn merged_with(
    entries: Seq<EntryView>,
    pending: Seq<EntryView>,
    now: u64,
) -> Seq<EntryView>
    decreases pending.len(),
{
    if pending.len() == 0 {
        entries
    } else {
        let before = merged_with(entries, pending.drop_last(), now);
        let e = pending.last();
        without_file(before, e.path).push(EntryView { last_seen: now, ..e })
    }
}

/// The time before which entries are dropped.
pub open spec fn cutoff_of(now: u64) -> int {
    if now >= EVICT_MILLIS {
        now - EVICT_MILLIS
    } else {
        0
    }
}

/// What the cache keeps of several records.
pub open spec fn all_cached(records: Seq<RecordView>) -> Seq<CachedView>
    decreases records.len(),
{
    if records.len() == 0 {
        Seq::empty()
    } else {
        let before = all_cached(records.drop_last());
        match cached(records.last()) {
            Some(c) => before.push(c),
            None => before,
        }
    }
}

/// The cache for one package root with one set of settings.
pub struct Cache {
    /// The path of the cache file.
    pub path: String,
    pub no_cache: bool,
    pub package_root: String,
    pub files: Vec<FileCache>,
    /// What was found since the cache was opened.
    pub pending: Vec<FileCache>,
}

/// What a cache file holds.
pub struct Package {
    pub package_root: String,
    pub files: Vec<FileCache>,
}

/// What a [`Package`] says.
#[verifier::ext_equal]
pub struct PackageView {
    pub root: Seq<char>,
    pub files: Seq<EntryView>,
}

impl View for Package {
    type V = PackageView;

    open spec fn view(&self) -> PackageView {
        PackageView { root: self.package_root@, files: entry_views(self.files@) }
    }
}

/// Why a cache could not be written.
#[derive(Clone, Copy, Debug, PartialEq, Eq, Structural)]
pub enum CacheError {
    /// The entries have no binary form.
    Encode,
}

/// The binary form of what a cache file holds.
pub uninterp spec fn encoded(root: Seq<char>, files: Seq<EntryView>) -> Option<Seq<u8>>;

/// What the bytes of a cache file hold.
pub uninterp spec fn decoded(bytes: Seq<u8>) -> Option<PackageView>;

/// How many bytes reading a cache file may claim.
pub const READ_LIMIT: usize = 0x7FFF_FFFF;

/// What reading a cached violation claims at most: the length of each text in eight bytes with the
/// bytes of the text, the numbers, and the place of the violation in a list.
pub open spec fn violation_claim(c: CachedView) -> nat {
    160 + byte_len(c.rule) + byte_len(c.message) + byte_len(c.help) + byte_len(c.level)
}

/// What reading several cached violations claims at most.
pub open spec fn violations_claim(v: Seq<CachedView>) -> nat
    decreases v.len(),
{
    if v.len() == 0 {
        0
    } else {
        violations_claim(v.drop_last()) + violation_claim(v.last())
    }
}

/// What reading several entries claims at most.
pub open spec fn entries_claim(v: Seq<EntryView>) -> nat
    decreases v.len(),
{
    if v.len() == 0 {
        0
    } else {
        entries_claim(v.drop_last()) + 96 + byte_len(v.last().path) + violations_claim(
            v.last().violations,
        )
    }
}

/// Whether what a cache file holds can be read within the limit.
pub open spec fn is_readable(root: Seq<char>, files: Seq<EntryView>) -> bool {
    16 + byte_len(root) + entries_claim(files) <= READ_LIMIT
}

/// Calls `bincode::encode_to_vec` with the standard configuration. The bytes are a function of
/// the value, and [`decode`] gives the value back where it can be read within the limit.
#[verifier::external_body]
fn encode(root: &String, files: &Vec<FileCache>) -> (r: Option<Vec<u8>>)
    ensures
        match r {
            Some(bytes) => encoded(root@, entry_views(files@)) == Some(bytes@) && (is_readable(
                root@,
                entry_views(files@),
            ) ==> decoded(bytes@) == Some(
                PackageView { root: root@, files: entry_views(files@) },
            )),
            None => encoded(root@, entry_views(files@)) is None,
        },
{
    let value: Vec<_> = files.iter().map(|f| (&f.path, f.key, f.last_seen, f.violations.iter().map(
        |c| (&c.rule, c.line, c.col, c.end_line, &c.message, &c.help, &c.level, c.fixable),
    ).collect::<Vec<_>>())).collect();
    bincode::encode_to_vec((root, value), bincode::config::standard()).ok()
}

/// Calls `bincode::decode_from_slice` with the standard configuration and a limit on what reading
/// may claim, so that a length in the bytes beyond it is an error before anything is allocated for
/// it. The result is a function of the bytes.
#[verifier::external_body]
fn decode(bytes: &Vec<u8>) -> (r: Option<Package>)
    ensures
        match r {
            Some(p) => decoded(bytes@) == Some(p@),
            None => decoded(bytes@) is None,
        },
{
    let config = bincode::config::standard().with_limit::<READ_LIMIT>();
    let ((package_root, files), _): ((String, Vec<(String, u64, u64, Vec<CachedFields>)>), usize) =
        bincode::decode_from_slice(bytes, config).ok()?;
    let files = files.into_iter().map(|(path, key, last_seen, v)| FileCache {
        path, key, last_seen, violations: v.into_iter().map(from_fields).collect(),
    }).collect();
    Some(Package { package_root, files })
}

/// The fields of a cached violation, in the order in which they are written.
type CachedFields = (String, u32, u32, u32, String, String, String, bool);

/// The cached violation with the given fields.
fn from_fields(f: CachedFields) -> (c: CachedViolation)
    ensures
        c@ == (CachedView {
            rule: f.0@,
            line: f.1,
            col: f.2,
            end_line: f.3,
            message: f.4@,
            help: f.5@,
            level: f.6@,
            fixable: f.7,
        }),
{
    let (rule, line, col, end_line, message, help, level, fixable) = f;
    CachedViolation { rule, line, col, end_line, message, help, level, fixable }
}

/// Entries, with only the last for each file.
pub open spec fn last_per_file(entries: Seq<EntryView>) -> Seq<EntryView>
    decreases entries.len(),
{
    if entries.len() == 0 {
        Seq::empty()
    } else {
        without_file(last_per_file(entries.drop_last()), entries.last().path).push(entries.last())
    }
}

/// Entries, with only the last for each file.
fn keep_last(files: &Vec<FileCache>) -> (r: Vec<FileCache>)
    ensures
        entry_views(r@) == last_per_file(entry_views(files@)),
{
    let ghost all = entry_views(files@);
    let mut out: Vec<FileCache> = Vec::new();
    let mut i: usize = 0;
    assert(entry_views(out@) =~= Seq::empty());
    assert(all.take(0) =~= Seq::empty());
    while i < files.len()
        invariant
            i <= files@.len(),
            all == entry_views(files@),
            entry_views(out@) == last_per_file(all.take(i as int)),
        decreases files@.len() - i,
    {
        assert(all.take(i + 1).drop_last() =~= all.take(i as int));
        assert(all.take(i + 1).last() == files@[i as int]@);
        let entry = copy_entry(&files[i]);
        drop_file(&mut out, files[i].path.as_str());
        let ghost before = out@;
        out.push(entry);
        assert(entry_views(out@) =~= entry_views(before).push(entry@));
        i += 1;
    }
    assert(all.take(all.len() as int) =~= all);
    out
}

/// The entries of a cache that is opened: those that the cache file holds, unless the cache is
/// not used, the file could not be read, or it belongs to another package.
pub open spec fn opened(root: Seq<char>, no_cache: bool, stored: Option<Seq<u8>>) -> Seq<EntryView> {
    if !no_cache && stored is Some && decoded(stored->0) is Some && decoded(stored->0)->0.root == root {
        last_per_file(decoded(stored->0)->0.files)
    } else {
        Seq::empty()
    }
}

impl Cache {
    /// An empty cache.
    fn empty(path: String, package_root: String, no_cache: bool) -> (r: Cache)
        ensures
            r.path@ == path@,
            r.package_root@ == package_root@,
            r.no_cache == no_cache,
            entry_views(r.files@) == Seq::<EntryView>::empty(),
            r.pending@.len() == 0,
    {
        let r = Cache { path, no_cache, package_root, files: Vec::new(), pending: Vec::new() };
        assert(entry_views(r.files@) =~= Seq::empty());
        r
    }

    /// Opens the cache of a package with its settings. `stored` holds the bytes of the file that
    /// [`cache_file`] names, where it could be read.
    pub fn open(
        package_root: String,
        cache_root: &str,
        no_cache: bool,
        level: &str,
        select: &Vec<String>,
        ignore: &Vec<String>,
        stored: Option<Vec<u8>>,
    ) -> (r: Cache)
        ensures
            r.path@ == cache_path(
                cache_root@,
                package_root@,
                strs(select@),
                strs(ignore@),
                level@,
            ),
            r.no_cache == no_cache,
            r.pending@.len() == 0,
            entry_views(r.files@) == opened(
                package_root@,
                no_cache,
                match stored {
                    Some(bytes) => Some(bytes@),
                    None => None,
                },
            ),
            r.package_root@ == match stored {
                Some(bytes) => if !no_cache && decoded(bytes@) is Some {
                    decoded(bytes@)->0.root
                } else {
                    package_root@
                },
                None => package_root@,
            },
    {
        let path = cache_file(cache_root, package_root.as_str(), level, select, ignore);
        if no_cache {
            return Self::empty(path, package_root, no_cache);
        }
        let bytes = match stored {
            Some(bytes) => bytes,
            None => return Self::empty(path, package_root, no_cache),
        };
        match decode(&bytes) {
            Some(package) => {
                let files = if package.package_root == package_root {
                    keep_last(&package.files)
                } else {
                    Vec::new()
                };
                let pending: Vec<FileCache> = Vec::new();
                let r = Cache {
                    path,
                    no_cache,
                    package_root: package.package_root,
                    files,
                    pending,
                };
                assert(package.package_root@ != package_root@ ==> entry_views(r.files@)
                    =~= Seq::empty());
                r
            },
            None => Self::empty(path, package_root, no_cache),
        }
    }

    /// What is kept of the file at `path`, where it has not changed since.
    pub open spec fn hit(self, path: Seq<char>, key: FileCacheKey) -> Option<Seq<RecordView>> {
        match entry_for(entry_views(self.files@), path) {
            Some(e) => if !self.no_cache && e.key == sea_hash(key.bytes()) {
                Some(e.violations.map_values(|c: CachedView| uncached(c)))
            } else {
                None
            },
            None => None,
        }
    }

    /// What is kept of the file at `path`, where it has not changed since.
    pub fn get(&self, path: &str, key: &FileCacheKey) -> (r: Option<Vec<Record>>)
        ensures
            match r {
                Some(records) => self.hit(path@, *key) == Some(record_views(records@)),
                None => self.hit(path@, *key) is None,
            },
    {
        if self.no_cache {
            return None;
        }
        let i: usize = match self.find(path) {
            Some(i) => i,
            None => return None,
        };
        if self.files[i].key != key.hash() {
            return None;
        }
        let ghost kept = cached_views(self.files@[i as int].violations@);
        let ghost give = |c: CachedView| uncached(c);
        let mut out: Vec<Record> = Vec::new();
        let mut k: usize = 0;
        assert(record_views(out@) =~= kept.take(0).map_values(give));
        while k < self.files[i].violations.len()
            invariant
                i < self.files@.len(),
                k <= self.files@[i as int].violations@.len(),
                kept == cached_views(self.files@[i as int].violations@),
                give == |c: CachedView| uncached(c),
                record_views(out@) == kept.take(k as int).map_values(give),
            decreases self.files@[i as int].violations@.len() - k,
        {
            let ghost before = out@;
            let record = self.files[i].violations[k].to_json();
            assert(record@ == give(kept[k as int]));
            out.push(record);
            assert(record_views(out@) =~= record_views(before).push(record@));
            assert(kept.take(k + 1).map_values(give) =~= kept.take(k as int).map_values(give).push(
                record@,
            ));
            k += 1;
        }
        assert(kept.take(kept.len() as int) =~= kept);
        Some(out)
    }

    /// The place of the entry of a file.
    fn find(&self, path: &str) -> (r: Option<usize>)
        ensures
            match r {
                Some(i) => i < self.files@.len() && entry_for(entry_views(self.files@), path@)
                    == Some(self.files@[i as int]@),
                None => entry_for(entry_views(self.files@), path@) is None,
            },
    {
        let ghost all = entry_views(self.files@);
        let mut i: usize = self.files.len();
        assert(all.take(i as int) =~= all);
        while i > 0
            invariant
                i <= self.files@.len(),
                all == entry_views(self.files@),
                entry_for(all, path@) == entry_for(all.take(i as int), path@),
            decreases i,
        {
            assert(all.take(i as int).last() == self.files@[i - 1]@);
            assert(all.take(i as int).drop_last() =~= all.take(i - 1));
            if eq(self.files[i - 1].path.as_str(), path) {
                return Some(i - 1);
            }
            i -= 1;
        }
        None
    }

    /// Keeps what was found in a file until the cache is written.
    pub fn set_linted(&mut self, path: &str, key: &FileCacheKey, records: &Vec<Record>)
        ensures
            final(self).path == old(self).path,
            final(self).no_cache == old(self).no_cache,
            final(self).package_root == old(self).package_root,
            final(self).files == old(self).files,
            entry_views(final(self).pending@) == entry_views(old(self).pending@).push(
                EntryView {
                    path: path@,
                    key: sea_hash(key.bytes()),
                    last_seen: 0,
                    violations: all_cached(record_views(records@)),
                },
            ),
    {
        let ghost all = record_views(records@);
        let mut violations: Vec<CachedViolation> = Vec::new();
        let mut i: usize = 0;
        assert(cached_views(violations@) =~= Seq::empty());
        assert(all.take(0) =~= Seq::empty());
        while i < records.len()
            invariant
                i <= records@.len(),
                all == record_views(records@),
                cached_views(violations@) == all_cached(all.take(i as int)),
            decreases records@.len() - i,
        {
            assert(all.take(i + 1).drop_last() =~= all.take(i as int));
            assert(all.take(i + 1).last() == records@[i as int]@);
            match CachedViolation::from_json(&records[i]) {
                Some(c) => {
                    let ghost before = violations@;
                    violations.push(c);
                    assert(cached_views(violations@) =~= cached_views(before).push(c@));
                },
                None => {},
            }
            i += 1;
        }
        assert(all.take(all.len() as int) =~= all);
        let entry = FileCache { path: path.to_owned(), key: key.hash(), last_seen: 0, violations };
        let ghost before = self.pending@;
        self.pending.push(entry);
        assert(entry_views(self.pending@) =~= entry_views(before).push(entry@));
    }

    /// Forgets a file.
    pub fn invalidate(&mut self, path: &str)
        ensures
            final(self).path == old(self).path,
            final(self).no_cache == old(self).no_cache,
            final(self).package_root == old(self).package_root,
            entry_views(final(self).files@) == without_file(entry_views(old(self).files@), path@),
            entry_views(final(self).pending@) == without_file(
                entry_views(old(self).pending@),
                path@,
            ),
    {
        drop_file(&mut self.files, path);
        drop_file(&mut self.pending, path);
    }

    /// Takes in what was found since the cache was opened and drops what was not seen for long,
    /// at the time `now_ms`. Gives the bytes to write to the cache file. A cache that is not used
    /// stays as it is, and there is nothing to write.
    pub fn persist(&mut self, now_ms: u64) -> (r: Result<Option<Vec<u8>>, CacheError>)
        ensures
            final(self).path == old(self).path,
            final(self).no_cache == old(self).no_cache,
            final(self).package_root == old(self).package_root,
            if old(self).no_cache {
                *final(self) == *old(self) && r == Ok::<Option<Vec<u8>>, CacheError>(None)
            } else {
                &&& match r {
                    Ok(bytes) => bytes is Some && encoded(
                        final(self).package_root@,
                        entry_views(final(self).files@),
                    ) == Some(bytes->0@) && (is_readable(
                        final(self).package_root@,
                        entry_views(final(self).files@),
                    ) ==> decoded(bytes->0@) == Some(
                        PackageView {
                            root: final(self).package_root@,
                            files: entry_views(final(self).files@),
                        },
                    )),
                    Err(_) => encoded(
                        final(self).package_root@,
                        entry_views(final(self).files@),
                    ) is None,
                }
                &&& final(self).pending@.len() == 0
                &&& entry_views(final(self).files@) == seen_since(
                    merged_with(
                        entry_views(old(self).files@),
                        entry_views(old(self).pending@),
                        now_ms,
                    ),
                    cutoff_of(now_ms),
                )
            },
    {
        if self.no_cache {
            return Ok(None);
        }
        let ghost all = entry_views(self.pending@);
        let ghost start = entry_views(self.files@);
        let mut i: usize = 0;
        assert(all.take(0) =~= Seq::empty());
        while i < self.pending.len()
            invariant
                i <= self.pending@.len(),
                !self.no_cache,
                self.path == old(self).path,
                self.no_cache == old(self).no_cache,
                self.package_root == old(self).package_root,
                all == entry_views(self.pending@),
                start == entry_views(old(self).files@),
                all == entry_views(old(self).pending@),
                entry_views(self.files@) == merged_with(start, all.take(i as int), now_ms),
            decreases self.pending@.len() - i,
        {
            assert(all.take(i + 1).drop_last() =~= all.take(i as int));
            assert(all.take(i + 1).last() == self.pending@[i as int]@);
            let path = self.pending[i].path.clone();
            let entry = FileCache {
                path: self.pending[i].path.clone(),
                key: self.pending[i].key,
                last_seen: now_ms,
                violations: copy_cached(&self.pending[i].violations),
            };
            drop_file(&mut self.files, path.as_str());
            let ghost before = self.files@;
            self.files.push(entry);
            assert(entry_views(self.files@) =~= entry_views(before).push(entry@));
            i += 1;
        }
        assert(all.take(all.len() as int) =~= all);
        self.pending = Vec::new();
        let cutoff: u64 = if now_ms >= EVICT_MILLIS {
            now_ms - EVICT_MILLIS
        } else {
            0
        };
        drop_old(&mut self.files, cutoff);
        match encode(&self.package_root, &self.files) {
            Some(bytes) => Ok(Some(bytes)),
            None => Err(CacheError::Encode),
        }
    }
}

/// Copies of cached violations.
fn copy_cached(v: &Vec<CachedViolation>) -> (r: Vec<CachedViolation>)
    ensures
        cached_views(r@) == cached_views(v@),
{
    let mut out: Vec<CachedViolation> = Vec::new();
    let mut i: usize = 0;
    assert(cached_views(out@) =~= cached_views(v@).take(0));
    while i < v.len()
        invariant
            i <= v@.len(),
            cached_views(out@) == cached_views(v@).take(i as int),
        decreases v@.len() - i,
    {
        let c = CachedViolation {
            rule: v[i].rule.clone(),
            line: v[i].line,
            col: v[i].col,
            end_line: v[i].end_line,
            message: v[i].message.clone(),
            help: v[i].help.clone(),
            level: v[i].level.clone(),
            fixable: v[i].fixable,
        };
        let ghost before = out@;
        out.push(c);
        assert(cached_views(out@) =~= cached_views(before).push(c@));
        assert(cached_views(v@).take(i + 1) =~= cached_views(v@).take(i as int).push(c@));
        i += 1;
    }
    assert(cached_views(v@).take(cached_views(v@).len() as int) =~= cached_views(v@));
    out
}

/// Drops the entries of a file.
fn drop_file(files: &mut Vec<FileCache>, path: &str)
    ensures
        entry_views(final(files)@) == without_file(entry_views(old(files)@), path@),
{
    let ghost all = entry_views(files@);
    let mut out: Vec<FileCache> = Vec::new();
    let mut i: usize = 0;
    assert(entry_views(out@) =~= Seq::empty());
    assert(all.take(0) =~= Seq::empty());
    while i < files.len()
        invariant
            i <= files@.len(),
            files@ == old(files)@,
            all == entry_views(files@),
            entry_views(out@) == without_file(all.take(i as int), path@),
        decreases files@.len() - i,
    {
        assert(all.take(i + 1).drop_last() =~= all.take(i as int));
        assert(all.take(i + 1).last() == files@[i as int]@);
        if !eq(files[i].path.as_str(), path) {
            let entry = copy_entry(&files[i]);
            let ghost before = out@;
            out.push(entry);
            assert(entry_views(out@) =~= entry_views(before).push(entry@));
        }
        i += 1;
    }
    assert(all.take(all.len() as int) =~= all);
    *files = out;
}

/// Drops the entries that were last seen before `cutoff`.
fn drop_old(files: &mut Vec<FileCache>, cutoff: u64)
    ensures
        entry_views(final(files)@) == seen_since(entry_views(old(files)@), cutoff as int),
{
    let ghost all = entry_views(files@);
    let mut out: Vec<FileCache> = Vec::new();
    let mut i: usize = 0;
    assert(entry_views(out@) =~= Seq::empty());
    assert(all.take(0) =~= Seq::empty());
    while i < files.len()
        invariant
            i <= files@.len(),
            files@ == old(files)@,
            all == entry_views(files@),
            entry_views(out@) == seen_since(all.take(i as int), cutoff as int),
        decreases files@.len() - i,
    {
        assert(all.take(i + 1).drop_last() =~= all.take(i as int));
        assert(all.take(i + 1).last() == files@[i as int]@);
        if files[i].last_seen >= cutoff {
            let entry = copy_entry(&files[i]);
            let ghost before = out@;
            out.push(entry);
            assert(entry_views(out@) =~= entry_views(before).push(entry@));
        }
        i += 1;
    }
    assert(all.take(all.len() as int) =~= all);
    *files = out;
}

fn copy_entry(e: &FileCache) -> (r: FileCache)
    ensures
        r@ == e@,
{
    FileCache {
        path: e.path.clone(),
        key: e.key,
        last_seen: e.last_seen,
        violations: copy_cached(&e.violations),
    }
}

// ---------------------------------------------------------------------------
// Laws
// ---------------------------------------------------------------------------

/// A file that is forgotten has no entry.
pub proof fn law_invalidated_file_is_gone(entries: Seq<EntryView>, path: Seq<char>)
    ensures
        entry_for(without_file(entries, path), path) is None,
    decreases entries.len(),
{
    if entries.len() > 0 {
        law_invalidated_file_is_gone(entries.drop_last(), path);
        let before = without_file(entries.drop_last(), path);
        if entries.last().path != path {
            assert(before.push(entries.last()).drop_last() =~= before);
        }
    }
}

/// Forgetting a file leaves the entries of the others.
pub proof fn law_invalidating_keeps_other_files(
    entries: Seq<EntryView>,
    path: Seq<char>,
    other: Seq<char>,
)
    requires
        path != other,
    ensures
        entry_for(without_file(entries, path), other) == entry_for(entries, other),
    decreases entries.len(),
{
    if entries.len() > 0 {
        law_invalidating_keeps_other_files(entries.drop_last(), path, other);
        let before = without_file(entries.drop_last(), path);
        if entries.last().path != path {
            assert(before.push(entries.last()).drop_last() =~= before);
        }
    }
}

proof fn lemma_seen_since_keeps(entries: Seq<EntryView>, cutoff: int, path: Seq<char>)
    requires
        entry_for(entries, path) is Some,
        entry_for(entries, path)->0.last_seen >= cutoff,
    ensures
        entry_for(seen_since(entries, cutoff), path) == entry_for(entries, path),
    decreases entries.len(),
{
    let e = entries.last();
    let before = seen_since(entries.drop_last(), cutoff);
    if e.last_seen >= cutoff {
        assert(before.push(e).drop_last() =~= before);
    }
    if e.path != path {
        lemma_seen_since_keeps(entries.drop_last(), cutoff, path);
    }
}

proof fn lemma_entry_in_last_per_file(entries: Seq<EntryView>, path: Seq<char>)
    ensures
        entry_for(last_per_file(entries), path) == entry_for(entries, path),
    decreases entries.len(),
{
    if entries.len() > 0 {
        let e = entries.last();
        let before = last_per_file(entries.drop_last());
        lemma_entry_in_last_per_file(entries.drop_last(), path);
        assert(without_file(before, e.path).push(e).drop_last() =~= without_file(before, e.path));
        if e.path != path {
            law_invalidating_keeps_other_files(before, e.path, path);
        }
    }
}

/// Whether the entry at `i` is the last of its file.
pub open spec fn is_last_of_file(pending: Seq<EntryView>, i: int) -> bool {
    0 <= i < pending.len() && forall|j: int|
        i < j < pending.len() ==> (#[trigger] pending[j]).path != pending[i].path
}

proof fn lemma_staged_is_merged(
    files: Seq<EntryView>,
    pending: Seq<EntryView>,
    i: int,
    now: u64,
)
    requires
        is_last_of_file(pending, i),
    ensures
        entry_for(merged_with(files, pending, now), pending[i].path) == Some(
            EntryView { last_seen: now, ..pending[i] },
        ),
    decreases pending.len(),
{
    let rest = pending.drop_last();
    let last = pending.last();
    let before = merged_with(files, rest, now);
    let kept = without_file(before, last.path);
    assert(kept.push(EntryView { last_seen: now, ..last }).drop_last() =~= kept);
    if i < rest.len() {
        assert(pending[pending.len() - 1].path != pending[i].path);
        assert(rest[i] == pending[i]);
        assert forall|j: int| i < j < rest.len() implies (#[trigger] rest[j]).path
            != rest[i].path by {
            assert(rest[j] == pending[j]);
        }
        lemma_staged_is_merged(files, rest, i, now);
        law_invalidating_keeps_other_files(before, last.path, pending[i].path);
    }
}

/// What was found in a file is what a cache gives back that is opened on the written bytes. This
/// holds of each entry of `pending`, which was taken in before the cache of the package `root` was
/// written, but for those that a later one of the same file replaced.
pub proof fn law_written_results_are_read_back(
    root: Seq<char>,
    files: Seq<EntryView>,
    pending: Seq<EntryView>,
    i: int,
    now: u64,
    bytes: Seq<u8>,
)
    requires
        decoded(bytes) == Some(
            PackageView {
                root,
                files: seen_since(merged_with(files, pending, now), cutoff_of(now)),
            },
        ),
        is_last_of_file(pending, i),
    ensures
        entry_for(opened(root, false, Some(bytes)), pending[i].path) == Some(
            EntryView { last_seen: now, ..pending[i] },
        ),
{
    let merged = merged_with(files, pending, now);
    lemma_staged_is_merged(files, pending, i, now);
    lemma_seen_since_keeps(merged, cutoff_of(now), pending[i].path);
    lemma_entry_in_last_per_file(seen_since(merged, cutoff_of(now)), pending[i].path);
}

/// What is taken in of a file leaves out no record that names its rule and its line.
pub proof fn law_no_record_is_left_out(records: Seq<RecordView>)
    requires
        forall|i: int| 0 <= i < records.len() ==> cached(#[trigger] records[i]) is Some,
    ensures
        all_cached(records).len() == records.len(),
        forall|i: int|
            0 <= i < records.len() ==> Some(#[trigger] all_cached(records)[i]) == cached(records[i]),
    decreases records.len(),
{
    if records.len() > 0 {
        let rest = records.drop_last();
        assert forall|i: int| 0 <= i < rest.len() implies cached(#[trigger] rest[i]) is Some by {
            assert(rest[i] == records[i]);
        }
        law_no_record_is_left_out(rest);
        assert(cached(records[records.len() - 1]) is Some);
        assert forall|i: int| 0 <= i < records.len() implies Some(#[trigger] all_cached(records)[i])
            == cached(records[i]) by {
            if i < rest.len() {
                assert(all_cached(records)[i] == all_cached(rest)[i]);
                assert(rest[i] == records[i]);
            }
        }
    }
}

/// Bytes that belong to another package give an empty cache.
pub proof fn law_other_package_is_not_read(root: Seq<char>, bytes: Seq<u8>)
    requires
        decoded(bytes) is Some,
        decoded(bytes)->0.root != root,
    ensures
        opened(root, false, Some(bytes)).len() == 0,
{
}

/// Every entry of a written cache was seen within the days that entries are kept.
pub proof fn law_old_entries_are_dropped(entries: Seq<EntryView>, now: u64, i: int)
    requires
        0 <= i < seen_since(entries, cutoff_of(now)).len(),
    ensures
        seen_since(entries, cutoff_of(now))[i].last_seen >= cutoff_of(now),
    decreases entries.len(),
{
    if entries.len() > 0 {
        let before = seen_since(entries.drop_last(), cutoff_of(now));
        if i < before.len() {
            law_old_entries_are_dropped(entries.drop_last(), now, i);
        }
    }
}

/// The days that entries are kept are the milliseconds that they are kept.
pub proof fn law_evict_millis()
    ensures
        EVICT_MILLIS == EVICT_DAYS * 24 * 3600 * 1000,
{
}

// ---------------------------------------------------------------------------
// Settings and files
// ---------------------------------------------------------------------------

/// How many numbers have at most `width` hexadecimal digits.
spec fn hex_limit(width: nat) -> nat
    decreases width,
{
    if width == 0 {
        1
    } else {
        16 * hex_limit((width - 1) as nat)
    }
}

proof fn lemma_hex_text(n: nat, width: nat)
    ensures
        hex(n, width).len() == width,
        forall|i: int| 0 <= i < width ==> #[trigger] hex(n, width)[i] != '/',
    decreases width,
{
    if width > 0 {
        lemma_hex_text(n / 16, (width - 1) as nat);
        let before = hex(n / 16, (width - 1) as nat);
        assert(hex_digit((n % 16) as int) != '/');
        assert forall|i: int| 0 <= i < width implies #[trigger] hex(n, width)[i] != '/' by {
            if i < width - 1 {
                assert(hex(n, width)[i] == before[i]);
            }
        }
    }
}

proof fn lemma_hex_tells_apart(a: nat, b: nat, width: nat)
    requires
        a < hex_limit(width),
        b < hex_limit(width),
        hex(a, width) == hex(b, width),
    ensures
        a == b,
    decreases width,
{
    if width > 0 {
        let x = hex(a / 16, (width - 1) as nat);
        let y = hex(b / 16, (width - 1) as nat);
        assert(hex(a, width).last() == hex_digit((a % 16) as int));
        assert(hex(b, width).last() == hex_digit((b % 16) as int));
        assert(a % 16 == b % 16);
        assert(x =~= hex(a, width).drop_last());
        assert(y =~= hex(b, width).drop_last());
        lemma_hex_tells_apart(a / 16, b / 16, (width - 1) as nat);
    }
}

/// Settings with different hashes have different cache files, so what was kept for the one is not
/// given for the other.
pub proof fn law_settings_have_their_own_file(
    cache_root: Seq<char>,
    root: Seq<char>,
    select: Seq<Seq<char>>,
    ignore: Seq<Seq<char>>,
    level: Seq<char>,
    other_root: Seq<char>,
    other_select: Seq<Seq<char>>,
    other_ignore: Seq<Seq<char>>,
    other_level: Seq<char>,
)
    requires
        sea_hash(settings_bytes(root, select, ignore, level)) != sea_hash(
            settings_bytes(other_root, other_select, other_ignore, other_level),
        ),
    ensures
        cache_path(cache_root, root, select, ignore, level) != cache_path(
            cache_root,
            other_root,
            other_select,
            other_ignore,
            other_level,
        ),
{
    let a = sea_hash(settings_bytes(root, select, ignore, level));
    let b = sea_hash(settings_bytes(other_root, other_select, other_ignore, other_level));
    let x = hex(a as nat, 16);
    let y = hex(b as nat, 16);
    let dir = joined(cache_root, VERSION@);
    lemma_hex_text(a as nat, 16);
    lemma_hex_text(b as nat, 16);
    reveal_with_fuel(hex_limit, 17);
    if x == y {
        lemma_hex_tells_apart(a as nat, b as nat, 16);
    }
    assert(x[0] != '/' && y[0] != '/');
    if joined(dir, x) == joined(dir, y) {
        let lead = joined(dir, x).len() - 16;
        assert(joined(dir, x).skip(lead) =~= x);
        assert(joined(dir, y).skip(lead) =~= y);
    }
}

/// A cache for which nothing is stored gives nothing.
pub proof fn law_nothing_stored_gives_nothing(
    c: Cache,
    root: Seq<char>,
    path: Seq<char>,
    key: FileCacheKey,
)
    requires
        entry_views(c.files@) == opened(root, c.no_cache, None),
    ensures
        c.hit(path, key) is None,
{
}

/// No entry is dropped or put in for a file that was never taken in.
proof fn lemma_unknown_stays_unknown(
    files: Seq<EntryView>,
    pending: Seq<EntryView>,
    now: u64,
    path: Seq<char>,
)
    requires
        entry_for(files, path) is None,
        forall|i: int| 0 <= i < pending.len() ==> (#[trigger] pending[i]).path != path,
    ensures
        entry_for(merged_with(files, pending, now), path) is None,
    decreases pending.len(),
{
    if pending.len() > 0 {
        let rest = pending.drop_last();
        assert forall|i: int| 0 <= i < rest.len() implies (#[trigger] rest[i]).path != path by {
            assert(pending[i].path != path);
        }
        lemma_unknown_stays_unknown(files, rest, now, path);
        let e = pending.last();
        assert(pending[pending.len() - 1].path != path);
        let before = merged_with(files, rest, now);
        law_invalidating_keeps_other_files(before, e.path, path);
        let kept = without_file(before, e.path);
        assert(kept.push(EntryView { last_seen: now, ..e }).drop_last() =~= kept);
    }
}

proof fn lemma_seen_since_adds_nothing(entries: Seq<EntryView>, cutoff: int, path: Seq<char>)
    requires
        entry_for(entries, path) is None,
    ensures
        entry_for(seen_since(entries, cutoff), path) is None,
    decreases entries.len(),
{
    if entries.len() > 0 {
        lemma_seen_since_adds_nothing(entries.drop_last(), cutoff, path);
        let before = seen_since(entries.drop_last(), cutoff);
        if entries.last().last_seen >= cutoff {
            assert(before.push(entries.last()).drop_last() =~= before);
        }
    }
}

/// What a cache gives that is opened on the written bytes: what was found in a file for the key
/// that it had, nothing for a key with another hash, and nothing for a file that was never taken
/// in. This holds of each entry of `pending`, which was taken in before the cache of the package
/// `root` was written, but for those that a later one of the same file replaced.
pub proof fn law_cache_gives_what_was_found(
    c: Cache,
    root: Seq<char>,
    files: Seq<EntryView>,
    pending: Seq<EntryView>,
    i: int,
    now: u64,
    bytes: Seq<u8>,
    key: FileCacheKey,
    other_key: FileCacheKey,
    other_path: Seq<char>,
)
    requires
        decoded(bytes) == Some(
            PackageView {
                root,
                files: seen_since(merged_with(files, pending, now), cutoff_of(now)),
            },
        ),
        !c.no_cache,
        entry_views(c.files@) == opened(root, false, Some(bytes)),
        is_last_of_file(pending, i),
        pending[i].key == sea_hash(key.bytes()),
        sea_hash(other_key.bytes()) != pending[i].key,
        entry_for(files, other_path) is None,
        forall|j: int| 0 <= j < pending.len() ==> (#[trigger] pending[j]).path != other_path,
    ensures
        c.hit(pending[i].path, key) == Some(
            pending[i].violations.map_values(|v: CachedView| uncached(v)),
        ),
        c.hit(pending[i].path, other_key) is None,
        c.hit(other_path, key) is None,
{
    law_written_results_are_read_back(root, files, pending, i, now, bytes);
    lemma_unknown_stays_unknown(files, pending, now, other_path);
    let merged = merged_with(files, pending, now);
    lemma_seen_since_adds_nothing(merged, cutoff_of(now), other_path);
    lemma_entry_in_last_per_file(seen_since(merged, cutoff_of(now)), other_path);
    assert(pending[i].violations.map_values(|v: CachedView| uncached(v))
        =~= pending[i].violations.map_values(|c: CachedView| uncached(c)));
}

/// An entry that was seen within the days that entries are kept is kept.
pub proof fn law_recent_entries_are_kept(entries: Seq<EntryView>, now: u64, e: EntryView)
    requires
        entries.contains(e),
        e.last_seen + EVICT_MILLIS >= now,
    ensures
        seen_since(entries, cutoff_of(now)).contains(e),
    decreases entries.len(),
{
    let rest = entries.drop_last();
    let i = choose|i: int| 0 <= i < entries.len() && entries[i] == e;
    if i < rest.len() {
        assert(rest[i] == e);
        law_recent_entries_are_kept(rest, now, e);
        let kept = seen_since(rest, cutoff_of(now));
        let j = choose|j: int| 0 <= j < kept.len() && kept[j] == e;
        assert(seen_since(entries, cutoff_of(now))[j] == e);
    } else {
        let all = seen_since(entries, cutoff_of(now));
        assert(all[all.len() - 1] == e);
    }
}

/// A record that the cache gives has the rule, the place, the message, the level and the help that
/// were kept.
pub proof fn law_cached_records_say_all(r: RecordView, rule: Seq<char>, line: u64, message: Seq<char>)
    requires
        r.rule == Some(rule),
        r.line == Some(line),
        line <= u32::MAX,
        r.message == Some(message),
        r.level is Some,
        r.start_character is Some,
        r.start_character->0 <= u32::MAX,
        r.help is None || r.help->0.len() > 0,
        r.fixable is Some,
    ensures
        ({
            let c = cached(r);
            &&& c is Some
            &&& uncached(c->0).rule == r.rule
            &&& uncached(c->0).line == r.line
            &&& uncached(c->0).message == r.message
            &&& uncached(c->0).level == r.level
            &&& uncached(c->0).help == r.help
            &&& uncached(c->0).start_character == r.start_character
            &&& uncached(c->0).fixable == r.fixable
        }),
{
}

/// Settings of which only the level differs are hashed from different bytes.
pub proof fn law_the_level_counts(
    root: Seq<char>,
    select: Seq<Seq<char>>,
    ignore: Seq<Seq<char>>,
    level: Seq<char>,
    other: Seq<char>,
)
    requires
        level != other,
    ensures
        settings_bytes(root, select, ignore, level) != settings_bytes(root, select, ignore, other),
{
    let front = all_marked(root_parts(root)) + marked(join_spec(in_order(select), ","@)) + marked(
        join_spec(in_order(ignore), ","@),
    );
    let a = settings_bytes(root, select, ignore, level);
    let b = settings_bytes(root, select, ignore, other);
    if a == b {
        assert(a.skip(front.len() as int) =~= marked(level));
        assert(b.skip(front.len() as int) =~= marked(other));
        lemma_marked_once(level, other);
    }
}

/// Settings of which only what is ignored differs are hashed from different bytes.
pub proof fn law_what_is_ignored_counts(
    root: Seq<char>,
    select: Seq<Seq<char>>,
    ignore: Seq<Seq<char>>,
    other: Seq<Seq<char>>,
    level: Seq<char>,
)
    requires
        join_spec(in_order(ignore), ","@) != join_spec(in_order(other), ","@),
    ensures
        settings_bytes(root, select, ignore, level) != settings_bytes(root, select, other, level),
{
    let front = all_marked(root_parts(root)) + marked(join_spec(in_order(select), ","@));
    let x = join_spec(in_order(ignore), ","@);
    let y = join_spec(in_order(other), ","@);
    let a = settings_bytes(root, select, ignore, level);
    let b = settings_bytes(root, select, other, level);
    if a == b {
        let n = front.len() as int;
        let m = marked(level).len() as int;
        assert(marked(x).len() == a.len() - n - m);
        assert(marked(y).len() == b.len() - n - m);
        assert(a.subrange(n, a.len() - m) =~= marked(x));
        assert(b.subrange(n, b.len() - m) =~= marked(y));
        lemma_marked_once(x, y);
    }
}

/// Settings of which only what is selected differs are hashed from different bytes.
pub proof fn law_what_is_selected_counts(
    root: Seq<char>,
    select: Seq<Seq<char>>,
    other: Seq<Seq<char>>,
    ignore: Seq<Seq<char>>,
    level: Seq<char>,
)
    requires
        join_spec(in_order(select), ","@) != join_spec(in_order(other), ","@),
    ensures
        settings_bytes(root, select, ignore, level) != settings_bytes(root, other, ignore, level),
{
    let front = all_marked(root_parts(root));
    let back = marked(join_spec(in_order(ignore), ","@)) + marked(level);
    let x = join_spec(in_order(select), ","@);
    let y = join_spec(in_order(other), ","@);
    let a = settings_bytes(root, select, ignore, level);
    let b = settings_bytes(root, other, ignore, level);
    if a == b {
        let n = front.len() as int;
        let m = back.len() as int;
        assert(marked(x).len() == a.len() - n - m);
        assert(marked(y).len() == b.len() - n - m);
        assert(a.subrange(n, a.len() - m) =~= marked(x));
        assert(b.subrange(n, b.len() - m) =~= marked(y));
        lemma_marked_once(x, y);
    }
}

proof fn lemma_marked_once(a: Seq<char>, b: Seq<char>)
    requires
        marked(a) == marked(b),
    ensures
        a == b,
{
    assert(marked(a).drop_last() =~= encode_utf8(a));
    assert(marked(b).drop_last() =~= encode_utf8(b));
    encode_utf8_decode_utf8(a);
    encode_utf8_decode_utf8(b);
}

/// A cache that is not used, or that nothing can be read of, holds nothing.
pub proof fn law_unused_caches_hold_nothing(root: Seq<char>, stored: Option<Seq<u8>>, bytes: Seq<u8>)
    ensures
        opened(root, true, stored).len() == 0,
        opened(root, false, None).len() == 0,
        decoded(bytes) is None ==> opened(root, false, Some(bytes)).len() == 0,
{
}

/// The last entry of each file in a cache file is among those that are opened.
pub proof fn law_stored_entries_are_opened(root: Seq<char>, bytes: Seq<u8>, i: int)
    requires
        decoded(bytes) is Some,
        decoded(bytes)->0.root == root,
        is_last_of_file(decoded(bytes)->0.files, i),
    ensures
        opened(root, false, Some(bytes)).contains(decoded(bytes)->0.files[i]),
{
    lemma_last_is_kept(decoded(bytes)->0.files, i);
}

proof fn lemma_last_is_kept(entries: Seq<EntryView>, i: int)
    requires
        is_last_of_file(entries, i),
    ensures
        last_per_file(entries).contains(entries[i]),
    decreases entries.len(),
{
    let rest = entries.drop_last();
    let kept = without_file(last_per_file(rest), entries.last().path);
    let all = last_per_file(entries);
    if i == entries.len() - 1 {
        assert(all[all.len() - 1] == entries[i]);
    } else {
        assert(rest[i] == entries[i]);
        assert forall|j: int| i < j < rest.len() implies (#[trigger] rest[j]).path != rest[i].path by {
            assert(rest[j] == entries[j]);
        }
        lemma_last_is_kept(rest, i);
        assert(entries[entries.len() - 1].path != entries[i].path);
        lemma_others_kept(last_per_file(rest), entries.last().path, entries[i]);
        let k = choose|k: int| 0 <= k < kept.len() && kept[k] == entries[i];
        assert(all[k] == entries[i]);
    }
}

proof fn lemma_others_kept(entries: Seq<EntryView>, path: Seq<char>, e: EntryView)
    requires
        entries.contains(e),
        e.path != path,
    ensures
        without_file(entries, path).contains(e),
    decreases entries.len(),
{
    let rest = entries.drop_last();
    let i = choose|i: int| 0 <= i < entries.len() && entries[i] == e;
    let all = without_file(entries, path);
    if i == entries.len() - 1 {
        assert(all[all.len() - 1] == e);
    } else {
        assert(rest[i] == e);
        lemma_others_kept(rest, path, e);
        let kept = without_file(rest, path);
        let k = choose|k: int| 0 <= k < kept.len() && kept[k] == e;
        assert(all[k] == e);
    }
}

/// The number that a hexadecimal digit in lower case stands for.
pub open spec fn hex_value(c: char) -> int {
    if '0' <= c <= '9' {
        c as u32 - '0' as u32
    } else {
        c as u32 - 'a' as u32 + 10
    }
}

/// Hexadecimal numbers have the width that is asked for, digits in lower case, and the last digit
/// is what is left of the number divided by sixteen, the others those of the quotient.
pub proof fn law_hexadecimal_digits_stand_for_the_number(n: nat, width: nat, i: int)
    requires
        0 <= i < width,
    ensures
        hex(n, width).len() == width,
        '0' <= hex(n, width)[i] <= '9' || 'a' <= hex(n, width)[i] <= 'f',
        hex_value(hex(n, width).last()) == n % 16,
        hex(n, width).drop_last() == hex(n / 16, (width - 1) as nat),
    decreases width,
{
    let front = hex(n / 16, (width - 1) as nat);
    if width > 1 {
        law_hexadecimal_digits_stand_for_the_number(
            n / 16,
            (width - 1) as nat,
            if i < width - 1 {
                i
            } else {
                0
            },
        );
    }
    assert(hex(n, width).drop_last() =~= front);
    if i < width - 1 {
        assert(hex(n, width)[i] == front[i]);
    }
}

} // verus!
