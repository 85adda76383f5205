use rhss::fs::FileMetadata;
use rhss::fuse::{
    admits, make_file_attr, read_reply, read_window, readdir_entries, reply_error, root_attr,
    EntryKind, Operation, ReplyError, ROOT_INO,
};
use rhss::path::{file_name, join_path};
use rhss::{FsError, FuseConfig, HandleTable, InodeTable};

#[test]
fn default_filter_names() {
    let config = FuseConfig::new();
    assert!(config.should_ignore(".DS_Store"));
    assert!(config.should_ignore("some/dir/.git"));
    assert!(config.should_ignore("@executable_path"));
    assert!(config.should_ignore("dir/._resource"));
    assert!(config.should_ignore("x"));
    assert!(config.should_ignore("dir/é"));
    assert!(!config.should_ignore("notes.txt"));
    assert!(!config.should_ignore(""));
    assert!(!config.should_ignore(".gitignore"));
    let default = FuseConfig::default();
    assert!(default.should_ignore(".hidden"));
}

#[test]
fn filter_can_be_extended() {
    let config = FuseConfig::new()
        .with_ignore_paths(vec!["Thumbs.db".to_string()])
        .with_ignore_patterns(vec!["~$*".to_string(), "plain".to_string()]);
    assert!(config.should_ignore("a/Thumbs.db"));
    assert!(config.should_ignore("~$report.docx"));
    assert!(!config.should_ignore("plainly"));
    assert!(!config.should_ignore("report.docx"));
}

#[test]
fn paths_join_and_split() {
    assert_eq!(join_path("", "a"), "a");
    assert_eq!(join_path("a", "b"), "a/b");
    assert_eq!(file_name("a/b/c.txt"), "c.txt");
    assert_eq!(file_name("c.txt"), "c.txt");
    assert_eq!(file_name(""), "");
    assert_eq!(file_name("a/b/"), "b");
    assert_eq!(file_name("a/b/."), "b");
    assert_eq!(file_name("a/./"), "a");
    assert_eq!(file_name("."), "");
    assert_eq!(file_name("a/.."), "");
    assert_eq!(file_name("/"), "");
}

#[test]
fn filter_names_follow_the_last_component() {
    let config = FuseConfig::new();
    assert!(config.should_ignore("a/b/"));
    assert!(!config.should_ignore("."));
    assert!(!config.should_ignore("x/.."));
    assert!(config.should_ignore("dir/.git/"));
}

#[test]
fn inodes_are_allocated_once_and_never_reused() {
    let mut table = InodeTable::new();
    assert_eq!(table.get_path(ROOT_INO, None), Some(String::new()));
    assert_eq!(table.get_path(ROOT_INO, Some("a")), Some("a".to_string()));
    let a = table.allocate_ino("a");
    assert_eq!(a, 2);
    assert_eq!(table.allocate_ino("a"), 2);
    let b = table.allocate_ino("a/b");
    assert_eq!(b, 3);
    assert_eq!(table.get_path(a, Some("b")), Some("a/b".to_string()));
    assert_eq!(table.get_path(99, None), None);
    assert_eq!(table.remove_path("a"), Some(2));
    assert_eq!(table.remove_path("a"), None);
    assert_eq!(table.get_path(2, None), None);
    assert_eq!(table.allocate_ino("a"), 4);
    assert_eq!(table.len(), 3);
    table.clear();
    assert_eq!(table.len(), 0);
    assert_eq!(table.allocate_ino("z"), 5);
}

#[test]
fn handles_are_allocated_and_released() {
    let mut handles = HandleTable::new();
    let f1 = handles.allocate_fh("a");
    let f2 = handles.allocate_fh("a");
    assert_eq!((f1, f2), (1, 2));
    assert_eq!(handles.get_path_from_fh(2), Some("a".to_string()));
    handles.release_fh(1);
    assert_eq!(handles.get_path_from_fh(1), None);
    assert_eq!(handles.len(), 1);
    handles.release_fh(7);
    assert_eq!(handles.len(), 1);
    assert_eq!(handles.allocate_fh("b"), 3);
    handles.clear();
    assert_eq!(handles.len(), 0);
}

#[test]
fn read_windows() {
    assert_eq!(read_window(10, 0, 4), Some((0, 4)));
    assert_eq!(read_window(10, 8, 4), Some((8, 10)));
    assert_eq!(read_window(10, 9, 0), Some((9, 9)));
    assert_eq!(read_window(10, 10, 4), None);
    assert_eq!(read_window(10, -1, 4), None);
    assert_eq!(read_window(0, 0, 4), None);
    let data = b"hello world".to_vec();
    assert_eq!(read_reply(&data, 6, 100), Some(b"world".to_vec()));
    assert_eq!(read_reply(&data, 0, 5), Some(b"hello".to_vec()));
    assert_eq!(read_reply(&data, 11, 1), None);
}

#[test]
fn readdir_offsets() {
    let children = vec![
        (5, EntryKind::RegularFile, "f".to_string()),
        (6, EntryKind::Directory, "d".to_string()),
    ];
    let all = readdir_entries(1, children.clone(), 0);
    let names: Vec<&str> = all.iter().map(|e| e.name.as_str()).collect();
    assert_eq!(names, vec![".", "..", "f", "d"]);
    let offsets: Vec<i64> = all.iter().map(|e| e.offset).collect();
    assert_eq!(offsets, vec![1, 2, 3, 4]);
    assert_eq!(all[0].ino, 1);
    assert_eq!(all[3].kind, EntryKind::Directory);
    let rest = readdir_entries(1, children.clone(), 3);
    assert_eq!(rest.len(), 1);
    assert_eq!(rest[0].name, "d");
    assert_eq!(rest[0].offset, 4);
    assert!(readdir_entries(1, children.clone(), 4).is_empty());
    assert!(readdir_entries(1, children, -1).is_empty());
}

#[test]
fn attributes() {
    let a = make_file_attr(9, 0, 0o644, false);
    assert_eq!((a.ino, a.blocks, a.perm, a.nlink, a.blksize), (9, 0, 0o644, 1, 512));
    assert_eq!(make_file_attr(9, 1, 0, false).blocks, 1);
    assert_eq!(make_file_attr(9, 512, 0, false).blocks, 1);
    assert_eq!(make_file_attr(9, 513, 0, false).blocks, 2);
    assert_eq!(make_file_attr(9, u64::MAX, 0, false).blocks, u64::MAX / 512 + 1);
    assert_eq!(make_file_attr(9, 0, 0o100644, false).perm, 0o100644u32 as u16);
    let root = root_attr();
    assert!(root.is_dir);
    assert_eq!((root.ino, root.perm, root.size), (1, 0o755, 0));
}

#[test]
fn gating_and_error_codes() {
    assert!(admits(Operation::Lookup, true));
    assert!(!admits(Operation::Lookup, false));
    assert!(!admits(Operation::Getattr, false));
    assert!(!admits(Operation::Write, false));
    assert!(!admits(Operation::Mkdir, false));
    assert!(admits(Operation::Release, false));
    assert!(admits(Operation::Read, false));
    let missing = FsError::NotFound("x".to_string());
    let broken = FsError::Io("x".to_string());
    assert_eq!(reply_error(Operation::Mkdir, &missing), ReplyError::NoEntry);
    assert_eq!(reply_error(Operation::Mkdir, &broken), ReplyError::NotImplemented);
    assert_eq!(reply_error(Operation::Write, &broken), ReplyError::NoEntry);
    assert_eq!(reply_error(Operation::Readdir, &broken), ReplyError::NotImplemented);
    assert_eq!(reply_error(Operation::Lookup, &broken), ReplyError::NoEntry);
    let m = FileMetadata { size: 1, is_dir: false, permissions: 0o600, modified: 0 };
    assert_eq!(make_file_attr(3, m.size, m.permissions, m.is_dir).perm, 0o600);
}
