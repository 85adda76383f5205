use std::collections::{BTreeMap, BTreeSet};

use rhss::adapter::FuseState;
use rhss::fuse::{ReplyError, ROOT_INO};
use rhss::{FileMetadata, FileSystem, FsError, FuseConfig, HybridStorage};

/// A backend held in memory.
#[derive(Debug, Default)]
struct Mem {
    files: BTreeMap<String, Vec<u8>>,
    dirs: BTreeSet<String>,
}

impl Mem {
    fn holds(&self, p: &str) -> bool {
        p.is_empty() || self.files.contains_key(p) || self.dirs.contains(p)
    }
}

impl FileSystem for Mem {
    fn list_directory(&self, path: &str) -> Result<Vec<String>, FsError> {
        let prefix = if path.is_empty() { String::new() } else { format!("{}/", path) };
        let mut names = BTreeSet::new();
        for key in self.files.keys().chain(self.dirs.iter()) {
            if let Some(rest) = key.strip_prefix(&prefix) {
                if !rest.is_empty() && !rest.contains('/') {
                    names.insert(rest.to_string());
                }
            }
        }
        Ok(names.into_iter().collect())
    }

    fn get_metadata(&self, path: &str) -> Result<FileMetadata, FsError> {
        match self.files.get(path) {
            Some(d) => Ok(FileMetadata { size: d.len() as u64, is_dir: false, permissions: 0o640, modified: 0 }),
            None if self.dirs.contains(path) => {
                Ok(FileMetadata { size: 0, is_dir: true, permissions: 0o750, modified: 0 })
            }
            None => Err(FsError::NotFound(path.to_string())),
        }
    }

    fn read_file(&self, path: &str) -> Result<Vec<u8>, FsError> {
        self.files.get(path).cloned().ok_or_else(|| FsError::NotFound(path.to_string()))
    }

    fn write_file(&mut self, path: &str, data: &[u8]) -> Result<(), FsError> {
        self.files.insert(path.to_string(), data.to_vec());
        Ok(())
    }

    fn create_file(&mut self, path: &str) -> Result<(), FsError> {
        self.write_file(path, &[])
    }

    fn create_directory(&mut self, path: &str) -> Result<(), FsError> {
        self.dirs.insert(path.to_string());
        Ok(())
    }

    fn delete(&mut self, path: &str) -> Result<(), FsError> {
        if !self.holds(path) {
            return Err(FsError::NotFound(path.to_string()));
        }
        let prefix = format!("{}/", path);
        self.files.retain(|k, _| k != path && !k.starts_with(&prefix));
        self.dirs.retain(|k| k != path && !k.starts_with(&prefix));
        Ok(())
    }

    fn path_exists(&self, path: &str) -> Result<bool, FsError> {
        Ok(self.holds(path))
    }
}

fn state(threshold: u64) -> FuseState<Mem> {
    FuseState::new(HybridStorage::new(Mem::default(), Mem::default(), threshold), FuseConfig::new())
}

#[test]
fn root_attributes_are_fixed() {
    let s = state(10);
    let a = s.getattr(ROOT_INO).unwrap();
    assert!(a.is_dir);
    assert_eq!((a.ino, a.size, a.perm), (1, 0, 0o755));
    assert_eq!(s.getattr(42).unwrap_err(), ReplyError::NoEntry);
}

#[test]
fn create_write_read_through_handles() {
    let mut s = state(8);
    let (a, fh) = s.create(ROOT_INO, "f", 0o600).unwrap();
    assert_eq!((a.ino, a.size, a.perm, a.is_dir), (2, 0, 0o600, false));
    assert_eq!(fh, 1);
    assert_eq!(s.write(fh, b"hello world").unwrap(), 11);
    assert_eq!(s.read(fh, 0, 5).unwrap(), b"hello".to_vec());
    assert_eq!(s.read(fh, 6, 100).unwrap(), b"world".to_vec());
    assert_eq!(s.read(fh, 11, 1).unwrap_err(), ReplyError::NoEntry);
    // A second write replaces the file, whatever the offset the kernel meant.
    assert_eq!(s.write(fh, b"hi").unwrap(), 2);
    assert_eq!(s.read(fh, 0, 100).unwrap(), b"hi".to_vec());
    assert_eq!(s.getattr(a.ino).unwrap().size, 2);
    s.release(fh);
    assert_eq!(s.read(fh, 0, 1).unwrap_err(), ReplyError::NoEntry);
    assert_eq!(s.open_handles(), 0);
}

#[test]
fn lookup_gives_stable_inodes() {
    let mut s = state(100);
    assert_eq!(s.lookup(ROOT_INO, "missing").unwrap_err(), ReplyError::NoEntry);
    let d = s.mkdir(ROOT_INO, "d", 0o700).unwrap();
    assert!(d.is_dir);
    assert_eq!(d.perm, 0o700);
    let again = s.lookup(ROOT_INO, "d").unwrap();
    assert_eq!(again.ino, d.ino);
    assert_eq!(again.perm, 0o750);
    let (f, fh) = s.create(d.ino, "x", 0o644).unwrap();
    s.release(fh);
    assert_eq!(s.lookup(d.ino, "x").unwrap().ino, f.ino);
    assert_eq!(s.lookup(99, "x").unwrap_err(), ReplyError::NoEntry);
}

#[test]
fn unlink_forgets_the_inode() {
    let mut s = state(100);
    let (f, fh) = s.create(ROOT_INO, "gone", 0o644).unwrap();
    s.release(fh);
    s.unlink(ROOT_INO, "gone").unwrap();
    assert_eq!(s.getattr(f.ino).unwrap_err(), ReplyError::NoEntry);
    assert_eq!(s.unlink(ROOT_INO, "gone").unwrap_err(), ReplyError::NoEntry);
    let d = s.mkdir(ROOT_INO, "dir", 0o755).unwrap();
    s.rmdir(ROOT_INO, "dir").unwrap();
    assert_eq!(s.open(d.ino).unwrap_err(), ReplyError::NoEntry);
    // Inodes are not reused.
    let (again, _) = s.create(ROOT_INO, "gone", 0o644).unwrap();
    assert!(again.ino > d.ino);
}

#[test]
fn readdir_lists_both_tiers() {
    let mut s = state(4);
    let (_, fh) = s.create(ROOT_INO, "small", 0o644).unwrap();
    s.write(fh, b"ab").unwrap();
    let (_, fh2) = s.create(ROOT_INO, "big", 0o644).unwrap();
    s.write(fh2, b"abcdefgh").unwrap();
    s.mkdir(ROOT_INO, "sub", 0o755).unwrap();
    let entries = s.readdir(ROOT_INO, 0).unwrap();
    let mut names: Vec<String> = entries.iter().map(|e| e.name.clone()).collect();
    assert_eq!(&names[..2], &[".".to_string(), "..".to_string()]);
    names.sort();
    assert_eq!(names, vec![".", "..", "big", "small", "sub"]);
    for e in entries.iter() {
        let expect_dir = e.name == "." || e.name == ".." || e.name == "sub";
        assert_eq!(e.kind == rhss::fuse::EntryKind::Directory, expect_dir);
    }
    let rest = s.readdir(ROOT_INO, 4).unwrap();
    assert_eq!(rest.len(), 1);
    assert_eq!(rest[0].offset, 5);
}

#[test]
fn setattr_reports_current_attributes() {
    let mut s = state(100);
    let (a, fh) = s.create(ROOT_INO, "f", 0o600).unwrap();
    s.write(fh, b"1234").unwrap();
    let by_handle = s.setattr(a.ino, Some(fh)).unwrap();
    assert_eq!(by_handle.size, 4);
    let by_inode = s.setattr(a.ino, None).unwrap();
    assert_eq!(by_inode.perm, 0o640);
    assert_eq!(s.setattr(77, Some(99)).unwrap_err(), ReplyError::NoEntry);
}

#[test]
fn stopping_refuses_new_work_but_drains() {
    let mut s = state(100);
    let (_, fh) = s.create(ROOT_INO, "f", 0o600).unwrap();
    s.write(fh, b"data").unwrap();
    s.stop_requests();
    assert!(!s.is_running());
    assert_eq!(s.lookup(ROOT_INO, "f").unwrap_err(), ReplyError::NotImplemented);
    assert_eq!(s.getattr(ROOT_INO).unwrap_err(), ReplyError::NotImplemented);
    assert_eq!(s.write(fh, b"x").unwrap_err(), ReplyError::NotImplemented);
    assert_eq!(s.mkdir(ROOT_INO, "d", 0o755).unwrap_err(), ReplyError::NotImplemented);
    assert_eq!(s.read(fh, 0, 4).unwrap(), b"data".to_vec());
    assert_eq!(s.open_handles(), 1);
    s.release(fh);
    assert_eq!(s.open_handles(), 0);
    s.clear_tables();
    assert_eq!(s.readdir(ROOT_INO, 0).unwrap_err(), ReplyError::NoEntry);
}

#[test]
fn ignored_names() {
    let s = state(1);
    assert!(s.should_ignore(".DS_Store"));
    assert!(!s.should_ignore("notes"));
}

#[test]
fn unknown_inodes_and_stopped_stats() {
    let mut s = state(10);
    assert_eq!(s.readdir(77, 0).unwrap_err(), ReplyError::NoEntry);
    assert_eq!(s.open(77).unwrap_err(), ReplyError::NoEntry);
    assert_eq!(s.setattr(77, None).unwrap_err(), ReplyError::NoEntry);
    let (a, fh) = s.create(ROOT_INO, "f", 0o600).unwrap();
    assert_eq!(s.open(a.ino).unwrap(), fh + 1);
    s.stop_requests();
    assert_eq!(s.getattr(a.ino).unwrap_err(), ReplyError::NotImplemented);
    assert_eq!(s.setattr(a.ino, None).unwrap_err(), ReplyError::NotImplemented);
}
