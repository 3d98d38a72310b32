//! Results that are kept from one run to the next.
use konform::cache::{
    cache_file, level_in_environment, settings_hash, write_hex, Cache, CachedViolation, FileCache, FileCacheKey,
    EVICT_MILLIS, VERSION,
};
use konform::types::Record;
use seahash::SeaHasher;
use std::hash::{Hash, Hasher};
use std::path::Path;

const NOW: u64 = 1_700_000_000_000;

fn texts(v: &[&str]) -> Vec<String> {
    v.iter().map(|t| t.to_string()).collect()
}

fn open_cache(ignore: &[&str], stored: Option<Vec<u8>>) -> Cache {
    Cache::open("/p".to_owned(), "/p/cache", false, "error", &vec![], &texts(ignore), stored)
}

fn key(mtime_secs: i64) -> FileCacheKey {
    FileCacheKey { mtime_secs, mtime_nanos: 7, permissions: 0o644 }
}

fn viols() -> Vec<Record> {
    vec![Record {
        rule: Some("KIS001".to_owned()),
        line: Some(1),
        message: Some("KIS001: m".to_owned()),
        level: Some("error".to_owned()),
        help: None,
        start_line: Some(1),
        start_character: Some(1),
        end_line: Some(1),
        end_character: Some(0),
        fixable: Some(false),
    }]
}

/// What a run that found `viols` in a file writes.
fn stored(path: &str, key: &FileCacheKey) -> Vec<u8> {
    let mut c = open_cache(&[], None);
    c.set_linted(path, key, &viols());
    c.persist(NOW).unwrap().unwrap()
}

// ── FileCacheKey ──────────────────────────────────────────────────────

#[test]
fn file_cache_key_changes_after_write() {
    let h1 = key(1_700_000_000).hash();
    let h2 = key(9_999_999).hash();
    assert_ne!(h1, h2, "hash must change when mtime changes");
    assert_eq!(h1, key(1_700_000_000).hash());
}

// ── Cache hit / miss ──────────────────────────────────────────────────

#[test]
fn cache_miss_on_unknown_file() {
    let cache = open_cache(&[], None);
    assert!(cache.get("/p/c.py", &key(1)).is_none());
}

#[test]
fn cache_hit_after_set_and_persist() {
    let c2 = open_cache(&[], Some(stored("/p/d.py", &key(1))));
    let hit = c2.get("/p/d.py", &key(1));
    assert!(hit.is_some(), "should be a cache hit after persist");
    let hit = hit.unwrap();
    assert_eq!(hit.len(), 1);
    assert_eq!(hit[0].rule.as_deref(), Some("KIS001"));
    assert_eq!(hit[0].message.as_deref(), Some("KIS001: m"));
    assert_eq!(hit[0].help, None);
    assert_eq!(hit[0].fixable, Some(false));
}

#[test]
fn cache_miss_after_mtime_change() {
    let c2 = open_cache(&[], Some(stored("/p/e.py", &key(1))));
    assert!(c2.get("/p/e.py", &key(1_000_000)).is_none(), "stale mtime must be a miss");
}

#[test]
fn cache_miss_on_settings_key_change() {
    // Different settings → different cache file → miss.
    let none = vec![];
    let before = cache_file("/p/cache", "/p", "error", &none, &none);
    let after = cache_file("/p/cache", "/p", "error", &none, &texts(&["KIS"]));
    assert_ne!(before, after, "different ignore list must be a miss");
    assert_eq!(open_cache(&[], None).path, before);
    assert_eq!(open_cache(&["KIS"], None).path, after);
}

#[test]
fn cache_file_stands_below_the_version() {
    let none = vec![];
    let path = cache_file("/p/cache", "/p", "error", &none, &none);
    let hash = settings_hash("/p", &none, &none, "error");
    assert_eq!(path, format!("/p/cache/{VERSION}/{hash:016x}"));
    assert_eq!(write_hex(0xab, 16), "00000000000000ab");
}

#[test]
fn order_of_settings_does_not_matter() {
    assert_eq!(
        settings_hash("/p", &texts(&["KIS", "KPT"]), &vec![], "error"),
        settings_hash("/p", &texts(&["KPT", "KIS"]), &vec![], "error")
    );
    assert_ne!(
        settings_hash("/p", &texts(&["KIS"]), &vec![], "error"),
        settings_hash("/p", &vec![], &texts(&["KIS"]), "error")
    );
}

// ── LRU eviction ─────────────────────────────────────────────────────

#[test]
fn persist_evicts_entries_older_than_30_days() {
    let mut c = open_cache(&[], None);
    c.files.push(FileCache {
        path: "/p/old.py".to_owned(),
        key: 0,
        last_seen: 0,
        violations: vec![],
    });
    let bytes = c.persist(NOW).unwrap().unwrap();
    let c2 = open_cache(&[], Some(bytes));
    assert!(c2.files.is_empty(), "entry must be evicted");
    assert_eq!(EVICT_MILLIS, 30 * 24 * 60 * 60 * 1000);
}

#[test]
fn entries_that_were_seen_lately_stay() {
    let mut c = open_cache(&[], Some(stored("/p/d.py", &key(1))));
    let bytes = c.persist(NOW + EVICT_MILLIS).unwrap().unwrap();
    assert!(open_cache(&[], Some(bytes)).get("/p/d.py", &key(1)).is_some());
    let mut c = open_cache(&[], Some(stored("/p/d.py", &key(1))));
    let bytes = c.persist(NOW + EVICT_MILLIS + 1).unwrap().unwrap();
    assert!(open_cache(&[], Some(bytes)).get("/p/d.py", &key(1)).is_none());
}

// ── what is not read or written ───────────────────────────────────────

#[test]
fn invalidated_file_is_a_miss() {
    let mut c = open_cache(&[], Some(stored("/p/d.py", &key(1))));
    c.set_linted("/p/other.py", &key(2), &viols());
    c.invalidate("/p/d.py");
    let bytes = c.persist(NOW).unwrap().unwrap();
    let c2 = open_cache(&[], Some(bytes));
    assert!(c2.get("/p/d.py", &key(1)).is_none());
    assert!(c2.get("/p/other.py", &key(2)).is_some());
}

#[test]
fn unreadable_cache_is_empty() {
    let c = open_cache(&[], Some(vec![1, 2, 3]));
    assert!(c.files.is_empty());
}

#[test]
fn cache_of_another_package_is_not_read() {
    let bytes = stored("/p/d.py", &key(1));
    let none = vec![];
    let c = Cache::open("/q".to_owned(), "/p/cache", false, "error", &none, &none, Some(bytes));
    assert!(c.get("/p/d.py", &key(1)).is_none());
}

#[test]
fn without_a_cache_nothing_is_read_or_written() {
    let bytes = stored("/p/d.py", &key(1));
    let none = vec![];
    let mut c =
        Cache::open("/p".to_owned(), "/p/cache", true, "error", &none, &none, Some(bytes));
    assert!(c.get("/p/d.py", &key(1)).is_none());
    c.set_linted("/p/d.py", &key(1), &viols());
    assert_eq!(c.persist(NOW), Ok(None));
}

#[test]
fn cached_finding_is_read_back() {
    let cached = CachedViolation::from_json(&viols()[0]).unwrap();
    let back = cached.to_json();
    assert_eq!(back.rule.as_deref(), Some("KIS001"));
    assert_eq!(back.line, Some(1));
    assert_eq!(back.level.as_deref(), Some("error"));
}

// ── hashes ────────────────────────────────────────────────────────────

#[test]
fn key_is_hashed_field_by_field() {
    let mut hasher = SeaHasher::new();
    5i64.hash(&mut hasher);
    7u32.hash(&mut hasher);
    0o644u32.hash(&mut hasher);
    assert_eq!(key(5).hash(), hasher.finish());
}

#[test]
fn settings_are_hashed_with_the_parts_of_the_root() {
    for root in ["/p/q r", "rel/../x", "/"] {
        let mut hasher = SeaHasher::new();
        for component in Path::new(root).components() {
            format!("{component:?}").hash(&mut hasher);
        }
        "KIS,KPT".hash(&mut hasher);
        "ZZ".hash(&mut hasher);
        "error".hash(&mut hasher);
        assert_eq!(
            settings_hash(root, &texts(&["KPT", "KIS"]), &texts(&["ZZ"]), "error"),
            hasher.finish(),
            "for {root}"
        );
    }
}

#[test]
fn environment_is_part_of_the_level() {
    assert_eq!(level_in_environment("error", 0xab), "error-00000000000000ab");
}

#[test]
fn bytes_that_claim_too_much_give_an_empty_cache() {
    for bytes in [
        vec![0xFD, 0xFF, 0xFF, 0xFF, 0xFF, 0xFF, 0xFF, 0xFF, 0xFF],
        vec![0, 0xFD, 0xFF, 0xFF, 0xFF, 0xFF, 0xFF, 0xFF, 0xFF, 0x7F],
        vec![0, 0xFC, 0xFF, 0xFF, 0xFF, 0xFF],
        vec![],
    ] {
        let c = open_cache(&[], Some(bytes));
        assert!(c.files.is_empty());
    }
}

#[test]
fn other_settings_have_another_file() {
    let none: Vec<String> = vec![];
    let one = cache_file("/c", "/p", "error", &none, &none);
    assert_ne!(one, cache_file("/c", "/p", "warning", &none, &none));
    assert_ne!(one, cache_file("/c", "/p", "error", &texts(&["KIS"]), &none));
    assert_ne!(one, cache_file("/c", "/p", "error", &none, &texts(&["KIS"])));
    assert_ne!(one, cache_file("/c", "/q", "error", &none, &none));
    assert!(open_cache(&["KIS"], None).get("/p/d.py", &key(1)).is_none());
}

#[test]
fn every_file_that_was_taken_in_is_read_back() {
    let mut c = open_cache(&[], None);
    c.set_linted("/p/a.py", &key(1), &vec![]);
    c.set_linted("/p/b.py", &key(2), &viols());
    c.set_linted("/p/a.py", &key(3), &viols());
    c.set_linted("/p/c.py", &key(4), &vec![]);
    let c2 = open_cache(&[], Some(c.persist(NOW).unwrap().unwrap()));
    assert!(c2.get("/p/a.py", &key(1)).is_none(), "a later result replaces an earlier one");
    assert_eq!(c2.get("/p/a.py", &key(3)).unwrap().len(), 1);
    assert_eq!(c2.get("/p/b.py", &key(2)).unwrap().len(), 1);
    assert_eq!(c2.get("/p/c.py", &key(4)).unwrap().len(), 0);
    assert!(c2.get("/p/d.py", &key(4)).is_none());
}
