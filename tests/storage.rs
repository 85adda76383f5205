use std::collections::{BTreeMap, BTreeSet};

use rhss::storage::{merge_listings, migration_step, plan_migration, settle_read, tier_for_size};
use rhss::{FileMetadata, FileSystem, FsError, HybridStorage, StorageLocation, VirtualFileSystem};

/// A backend held in memory; it can be told to fail every read or every delete.
#[derive(Debug, Default)]
struct MemFs {
    files: BTreeMap<String, Vec<u8>>,
    dirs: BTreeSet<String>,
    fail_reads: bool,
    fail_deletes: bool,
    size_skew: u64,
}

fn parent_dirs(path: &str) -> Vec<String> {
    let mut out = Vec::new();
    let parts: Vec<&str> = path.split('/').collect();
    for i in 1..parts.len() {
        out.push(parts[..i].join("/"));
    }
    out
}

fn below(q: &str, p: &str) -> bool {
    q == p || p.is_empty() || q.starts_with(&format!("{}/", p))
}

impl MemFs {
    fn holds(&self, p: &str) -> bool {
        p.is_empty() || self.files.contains_key(p) || self.dirs.contains(p)
    }
}

impl FileSystem for MemFs {
    fn list_directory(&self, path: &str) -> Result<Vec<String>, FsError> {
        if !self.holds(path) {
            return Ok(Vec::new());
        }
        let prefix = if path.is_empty() { String::new() } else { format!("{}/", path) };
        let mut names = BTreeSet::new();
        for key in self.files.keys().chain(self.dirs.iter()) {
            if let Some(rest) = key.strip_prefix(&prefix) {
                if !rest.is_empty() && !rest.contains('/') && key != path {
                    names.insert(rest.to_string());
                }
            }
        }
        Ok(names.into_iter().collect())
    }

    fn get_metadata(&self, path: &str) -> Result<FileMetadata, FsError> {
        if let Some(d) = self.files.get(path) {
            Ok(FileMetadata {
                size: d.len() as u64 + self.size_skew,
                is_dir: false,
                permissions: 0o644,
                modified: 0,
            })
        } else if self.dirs.contains(path) {
            Ok(FileMetadata { size: 4096, is_dir: true, permissions: 0o755, modified: 0 })
        } else {
            Err(FsError::NotFound(path.to_string()))
        }
    }

    fn read_file(&self, path: &str) -> Result<Vec<u8>, FsError> {
        if self.fail_reads {
            return Err(FsError::Io(path.to_string()));
        }
        self.files.get(path).cloned().ok_or_else(|| FsError::NotFound(path.to_string()))
    }

    fn write_file(&mut self, path: &str, data: &[u8]) -> Result<(), FsError> {
        if self.dirs.contains(path) {
            return Err(FsError::InvalidOperation(path.to_string()));
        }
        for d in parent_dirs(path) {
            self.dirs.insert(d);
        }
        self.files.insert(path.to_string(), data.to_vec());
        Ok(())
    }

    fn create_file(&mut self, path: &str) -> Result<(), FsError> {
        self.write_file(path, &[])
    }

    fn create_directory(&mut self, path: &str) -> Result<(), FsError> {
        if self.files.contains_key(path) {
            return Err(FsError::InvalidOperation(path.to_string()));
        }
        for d in parent_dirs(path) {
            self.dirs.insert(d);
        }
        self.dirs.insert(path.to_string());
        Ok(())
    }

    fn delete(&mut self, path: &str) -> Result<(), FsError> {
        if self.fail_deletes {
            return Err(FsError::Io(path.to_string()));
        }
        if !self.holds(path) {
            return Err(FsError::NotFound(path.to_string()));
        }
        self.files.retain(|k, _| !below(k, path));
        self.dirs.retain(|k| !below(k, path));
        Ok(())
    }

    fn path_exists(&self, path: &str) -> Result<bool, FsError> {
        Ok(self.holds(path))
    }
}

fn store(threshold: u64) -> HybridStorage<MemFs> {
    HybridStorage::new(MemFs::default(), MemFs::default(), threshold)
}

fn only_hot(s: &HybridStorage<MemFs>, p: &str) -> bool {
    s.hot_tier().files.contains_key(p) && !s.cold_tier().holds(p)
}

fn only_cold(s: &HybridStorage<MemFs>, p: &str) -> bool {
    s.cold_tier().files.contains_key(p) && !s.hot_tier().holds(p)
}

#[test]
fn small_write_goes_hot() {
    let mut s = store(1024);
    let data = vec![7u8; 500];
    s.write_file("a.txt", &data).unwrap();
    assert_eq!(s.read_file("a.txt").unwrap(), data);
    assert!(only_hot(&s, "a.txt"));
    assert_eq!(s.migrate_file("a.txt").unwrap(), false);
    let listing = s.list_directory("").unwrap();
    assert_eq!(listing, vec!["a.txt".to_string()]);
}

#[test]
fn large_write_goes_cold() {
    let mut s = store(1024);
    let data = vec![1u8; 2048];
    s.write_file("b.bin", &data).unwrap();
    assert_eq!(s.read_file("b.bin").unwrap(), data);
    assert!(only_cold(&s, "b.bin"));
    // A cold file of cold size needs no migration.
    assert_eq!(s.migrate_file("b.bin").unwrap(), false);
}

#[test]
fn second_write_wins_across_threshold() {
    let mut s = store(1024);
    s.write_file("c", &vec![1u8; 500]).unwrap();
    let big = vec![2u8; 4096];
    s.write_file("c", &big).unwrap();
    assert_eq!(s.read_file("c").unwrap(), big);
    assert!(only_cold(&s, "c"));
    let small = vec![3u8; 10];
    s.write_file("c", &small).unwrap();
    assert_eq!(s.read_file("c").unwrap(), small);
    assert_eq!(s.get_metadata("c").unwrap().size, 10);
    assert!(only_hot(&s, "c"));
}

#[test]
fn write_then_read_round_trip() {
    let mut s = store(16);
    for (i, len) in [0usize, 1, 15, 16, 17, 100].iter().enumerate() {
        let path = format!("dir/f{}", i);
        let data: Vec<u8> = (0..*len).map(|b| b as u8).collect();
        s.write_file(&path, &data).unwrap();
        assert_eq!(s.read_file(&path).unwrap(), data);
    }
}

#[test]
fn placement_boundaries() {
    let t = 1024u64;
    assert_eq!(tier_for_size(t - 1, t), StorageLocation::Hot);
    assert_eq!(tier_for_size(t, t), StorageLocation::Cold);
    assert_eq!(tier_for_size(t + 1, t), StorageLocation::Cold);
    assert_eq!(tier_for_size(0, 0), StorageLocation::Cold);

    let mut s = store(t);
    s.write_file("below", &vec![0u8; 1023]).unwrap();
    s.write_file("at", &vec![0u8; 1024]).unwrap();
    s.write_file("above", &vec![0u8; 1025]).unwrap();
    assert!(only_hot(&s, "below"));
    assert!(only_cold(&s, "at"));
    assert!(only_cold(&s, "above"));
    let stats = s.cache_stats();
    assert_eq!(stats, "cache: total=3, hot=1, cold=2, both=0, expired=0");
}

#[test]
fn migrate_hot_file_to_cold() {
    let mut hot = MemFs::default();
    let data = vec![9u8; 2048];
    hot.write_file("d", &data).unwrap();
    let mut s = HybridStorage::new(hot, MemFs::default(), 1024);
    assert_eq!(s.migrate_file("d").unwrap(), true);
    assert!(only_cold(&s, "d"));
    assert_eq!(s.read_file("d").unwrap(), data);
    assert_eq!(s.migrate_file("d").unwrap(), false);
    let listing = s.list_directory("").unwrap();
    assert_eq!(listing, vec!["d".to_string()]);
}

#[test]
fn migrate_directory_counts() {
    let mut hot = MemFs::default();
    hot.write_file("top/big", &vec![1u8; 50]).unwrap();
    hot.write_file("top/small", &vec![1u8; 5]).unwrap();
    let mut s = HybridStorage::new(hot, MemFs::default(), 10);
    assert_eq!(s.migrate_directory("top").unwrap(), (2, 1));
    assert_eq!(s.migrate_directory("top").unwrap(), (2, 0));
}

#[test]
fn read_prefers_hot_when_both_hold() {
    let mut hot = MemFs::default();
    let mut cold = MemFs::default();
    hot.write_file("e", b"hot bytes").unwrap();
    cold.write_file("e", b"cold bytes").unwrap();
    let mut s = HybridStorage::new(hot, cold, 1024);
    assert_eq!(s.read_file("e").unwrap(), b"hot bytes".to_vec());
    // Both tiers hold it: no migration.
    assert_eq!(s.migrate_file("e").unwrap(), false);
    let listing = s.list_directory("").unwrap();
    assert_eq!(listing, vec!["e".to_string()]);
    assert_eq!(s.cache_stats(), "cache: total=1, hot=0, cold=0, both=1, expired=0");
}

#[test]
fn read_falls_back_to_cold() {
    let mut hot = MemFs::default();
    let mut cold = MemFs::default();
    hot.write_file("f", b"hot").unwrap();
    cold.write_file("f", b"cold").unwrap();
    hot.fail_reads = true;
    let mut s = HybridStorage::new(hot, cold, 1024);
    assert_eq!(s.read_file("f").unwrap(), b"cold".to_vec());
}

#[test]
fn read_of_absent_path_is_not_found() {
    let mut s = store(1024);
    assert!(matches!(s.read_file("nope"), Err(FsError::NotFound(_))));
}

#[test]
fn listing_is_deduplicated_union() {
    let mut hot = MemFs::default();
    let mut cold = MemFs::default();
    hot.write_file("d/x", b"1").unwrap();
    hot.write_file("d/y", b"1").unwrap();
    hot.write_file("d/._meta", b"1").unwrap();
    cold.write_file("d/y", b"2").unwrap();
    cold.write_file("d/z", b"2").unwrap();
    let mut s = HybridStorage::new(hot, cold, 1024);
    let mut listing = s.list_directory("d").unwrap();
    listing.sort();
    assert_eq!(listing, vec!["x".to_string(), "y".to_string(), "z".to_string()]);
}

#[test]
fn empty_listing_for_absent_directory() {
    let mut s = store(1024);
    assert!(s.list_directory("missing").unwrap().is_empty());
}

#[test]
fn merge_listings_dedups_and_filters() {
    let hot = vec!["a".to_string(), "b".to_string(), "._a".to_string(), "a".to_string()];
    let cold = vec!["b".to_string(), "c".to_string()];
    assert_eq!(
        merge_listings(&hot, &cold),
        vec!["a".to_string(), "b".to_string(), "c".to_string()]
    );
    assert!(merge_listings(&vec![], &vec![]).is_empty());
}

#[test]
fn mkdir_then_delete_leaves_nothing() {
    let mut s = store(1024);
    s.create_directory("p").unwrap();
    assert!(s.path_exists("p").unwrap());
    assert!(s.get_metadata("p").unwrap().is_dir);
    assert!(s.hot_tier().dirs.contains("p") && !s.cold_tier().holds("p"));
    s.delete("p").unwrap();
    assert!(!s.path_exists("p").unwrap());
}

#[test]
fn delete_succeeds_if_either_tier_does() {
    let mut hot = MemFs::default();
    hot.fail_deletes = true;
    let mut cold = MemFs::default();
    cold.write_file("g", &vec![0u8; 10]).unwrap();
    let mut s = HybridStorage::new(hot, cold, 4);
    assert!(s.delete("g").is_ok());
    assert!(s.delete("g").is_err());
}

#[test]
fn metadata_files_are_never_found() {
    let mut hot = MemFs::default();
    hot.write_file("dir/._x", b"meta").unwrap();
    let s = HybridStorage::new(hot, MemFs::default(), 1024);
    assert!(matches!(s.get_metadata("dir/._x"), Err(FsError::NotFound(_))));
    assert!(matches!(s.get_file_metadata("._y"), Err(FsError::NotFound(_))));
}

#[test]
fn create_file_is_empty_and_hot() {
    let mut s = store(1);
    s.create_file("new").unwrap();
    assert_eq!(s.get_metadata("new").unwrap().size, 0);
    assert_eq!(s.read_file("new").unwrap(), Vec::<u8>::new());
}

#[test]
fn migration_plans() {
    let t = 100;
    assert_eq!(plan_migration(150, true, false, t), Some((StorageLocation::Hot, StorageLocation::Cold)));
    assert_eq!(plan_migration(50, false, true, t), Some((StorageLocation::Cold, StorageLocation::Hot)));
    assert_eq!(plan_migration(150, false, true, t), None);
    assert_eq!(plan_migration(50, true, false, t), None);
    assert_eq!(plan_migration(150, true, true, t), None);
    assert_eq!(plan_migration(150, false, false, t), None);
}

#[test]
fn virtual_filesystem_forwards() {
    let mut v = VirtualFileSystem::new(MemFs::default());
    v.write_file("a/b", b"xy").unwrap();
    assert_eq!(v.read_file("a/b").unwrap(), b"xy".to_vec());
    assert!(v.path_exists("a").unwrap());
    assert_eq!(v.list_directory("a").unwrap(), vec!["b".to_string()]);
    v.delete("a").unwrap();
    assert!(!v.path_exists("a/b").unwrap());
}

#[test]
fn error_messages_name_the_kind() {
    assert_eq!(FsError::NotFound("x".to_string()).message(), "File not found: x");
    assert_eq!(FsError::Io("disk".to_string()).message(), "IO error: disk");
}

#[test]
fn migration_refuses_inconsistent_size() {
    let mut hot = MemFs::default();
    hot.write_file("s", &vec![1u8; 5]).unwrap();
    hot.size_skew = 100;
    let mut s = HybridStorage::new(hot, MemFs::default(), 50);
    assert!(matches!(s.migrate_file("s"), Err(FsError::Metadata(_))));
    assert!(only_hot(&s, "s"));
}

#[test]
fn failed_write_after_removal_loses_the_file() {
    let mut hot = MemFs::default();
    let mut cold = MemFs::default();
    hot.create_directory("q").unwrap();
    cold.write_file("q", &vec![1u8; 100]).unwrap();
    let mut s = HybridStorage::new(hot, cold, 50);
    assert!(matches!(s.write_file("q", b"small"), Err(FsError::InvalidOperation(_))));
    assert!(!s.cold_tier().holds("q"));
    assert!(matches!(s.read_file("q"), Err(FsError::NotFound(_))));
}

#[test]
fn probe_failure_is_propagated_by_write() {
    let mut cold = MemFs::default();
    cold.write_file("w", &vec![1u8; 100]).unwrap();
    cold.fail_deletes = true;
    let mut s = HybridStorage::new(MemFs::default(), cold, 50);
    assert!(matches!(s.write_file("w", b"tiny"), Err(FsError::Io(_))));
    assert!(!s.hot_tier().holds("w"));
    assert_eq!(s.read_file("w").unwrap(), vec![1u8; 100]);
}

#[test]
fn read_decisions() {
    let hot = Some(b"hot".to_vec());
    let cold = Some(b"cold".to_vec());
    let hit = settle_read(Some(StorageLocation::Cold), Some(b"c".to_vec()), None, None);
    assert_eq!((hit.data, hit.drop_record, hit.record), (Some(b"c".to_vec()), false, None));
    let miss = settle_read(Some(StorageLocation::Cold), None, hot.clone(), cold.clone());
    assert_eq!(
        (miss.data, miss.drop_record, miss.record),
        (hot.clone(), true, Some(StorageLocation::Hot))
    );
    let cold_only = settle_read(None, None, None, cold.clone());
    assert_eq!(
        (cold_only.data, cold_only.drop_record, cold_only.record),
        (cold, false, Some(StorageLocation::Cold))
    );
    let nothing = settle_read(Some(StorageLocation::Hot), None, None, None);
    assert_eq!((nothing.data, nothing.drop_record, nothing.record), (None, true, None));
}

#[test]
fn stale_record_is_replaced_after_failed_cached_read() {
    let mut cold = MemFs::default();
    cold.write_file("r", b"bytes").unwrap();
    let mut s = HybridStorage::new(MemFs::default(), cold, 100);
    // A listing records nothing for a file in the cold tier alone but `Cold`; a record
    // pointing at the wrong tier is dropped on the first failed read.
    s.write_file("r2", b"x").unwrap();
    assert_eq!(s.read_file("r").unwrap(), b"bytes".to_vec());
    assert_eq!(s.cache_stats(), "cache: total=2, hot=1, cold=1, both=0, expired=0");
    assert!(matches!(s.read_file("none"), Err(FsError::NotFound(_))));
}

#[test]
fn migration_step_answers() {
    let t = 10;
    assert_eq!(migration_step(None, Some(true), Some(false), t), None);
    assert_eq!(
        migration_step(Some(20), Some(true), None, t),
        Some((StorageLocation::Hot, StorageLocation::Cold))
    );
    assert_eq!(migration_step(Some(20), None, None, t), None);
    assert_eq!(migration_step(Some(5), Some(true), Some(true), t), None);
}

#[test]
fn stat_prefers_hot_answer() {
    let mut hot = MemFs::default();
    let mut cold = MemFs::default();
    hot.write_file("m", b"12").unwrap();
    cold.write_file("m", b"123456").unwrap();
    let s = HybridStorage::new(hot, cold, 100);
    assert_eq!(s.get_metadata("m").unwrap().size, 2);
    let mut cold_only = MemFs::default();
    cold_only.write_file("n", b"123").unwrap();
    let s2 = HybridStorage::new(MemFs::default(), cold_only, 100);
    assert_eq!(s2.get_metadata("n").unwrap().size, 3);
    assert!(s2.get_metadata("none").is_err());
}
