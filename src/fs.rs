use vstd::prelude::*;

use crate::error::FsError;
use crate::path::{is_metadata_name, is_name, joined, within};

verus! {

/// What a backend reports of a path. `modified` is in seconds since the Unix epoch.
#[derive(Debug, Clone, Copy)]
pub struct FileMetadata {
    pub size: u64,
    pub is_dir: bool,
    pub permissions: u32,
    pub modified: u64,
}

/// Listing `v` holds the name `n`.
pub open spec fn lists(v: Seq<String>, n: Seq<char>) -> bool {
    exists|i: int| 0 <= i < v.len() && #[trigger] v[i]@ == n
}

/// `files` and `dirs` with everything at or below `p` taken out.
pub open spec fn files_without(files: Map<Seq<char>, Seq<u8>>, p: Seq<char>) -> Map<
    Seq<char>,
    Seq<u8>,
> {
    files.restrict(files.dom().filter(|q: Seq<char>| !within(q, p)))
}

pub open spec fn dirs_without(dirs: Set<Seq<char>>, p: Seq<char>) -> Set<Seq<char>> {
    dirs.filter(|q: Seq<char>| !within(q, p))
}

/// A path-keyed store: the backend interface of the tiered store.
///
/// A store is modelled by the regular files it holds, with their bytes, and by its
/// directories. A failed operation leaves the store as it was. Nothing here promises
/// that an operation succeeds: that is the backend's affair.
pub trait FileSystem {
    /// The regular files held, by path, with their contents. An implementation that
    /// is verified states its own; for one that is not, the model is left unknown.
    closed spec fn files(&self) -> Map<Seq<char>, Seq<u8>> {
        arbitrary()
    }

    /// The directories held (left unknown, as `files` is, where not stated).
    closed spec fn dirs(&self) -> Set<Seq<char>> {
        arbitrary()
    }

    /// Names found in directory `path`. Each is a single component of something
    /// held there; every entry held there is named, but for `._` names, which a
    /// backend may leave out. Where `path` holds nothing, the listing is empty.
    fn list_directory(&self, path: &str) -> (r: Result<Vec<String>, FsError>)
        ensures
            r matches Ok(v) ==> {
                &&& !self.files().contains_key(path@) && !self.dirs().contains(path@) ==> v@.len() == 0
                &&& forall|i: int|
                    0 <= i < v@.len() ==> is_name(#[trigger] v@[i]@) && (self.files().contains_key(
                        joined(path@, v@[i]@),
                    ) || self.dirs().contains(joined(path@, v@[i]@)))
                &&& forall|n: Seq<char>|
                    is_name(n) && !is_metadata_name(n) && (self.files().contains_key(
                        #[trigger] joined(path@, n),
                    ) || self.dirs().contains(joined(path@, n))) ==> lists(v@, n)
            },
    ;

    /// What is held at `path`.
    fn get_metadata(&self, path: &str) -> (r: Result<FileMetadata, FsError>)
        ensures
            r matches Ok(m) ==> {
                &&& m.is_dir ==> self.dirs().contains(path@) && !self.files().contains_key(path@)
                &&& !m.is_dir ==> self.files().contains_key(path@) && m.size == self.files()[path@].len()
            },
    ;

    /// The whole content of the file at `path`.
    fn read_file(&self, path: &str) -> (r: Result<Vec<u8>, FsError>)
        ensures
            r matches Ok(d) ==> self.files().contains_key(path@) && d@ == self.files()[path@],
    ;

    /// Replaces the file at `path` by `data`, creating missing parent directories.
    fn write_file(&mut self, path: &str, data: &[u8]) -> (r: Result<(), FsError>)
        ensures
            r is Ok ==> final(self).files() == old(self).files().insert(path@, data@),
            r is Ok ==> !final(self).dirs().contains(path@),
            r is Ok ==> old(self).dirs().subset_of(final(self).dirs()),
            r is Err ==> final(self).files() == old(self).files() && final(self).dirs() == old(
                self,
            ).dirs(),
    ;

    /// Creates an empty file at `path`, creating missing parent directories.
    fn create_file(&mut self, path: &str) -> (r: Result<(), FsError>)
        ensures
            r is Ok ==> final(self).files() == old(self).files().insert(path@, Seq::empty()),
            r is Ok ==> !final(self).dirs().contains(path@),
            r is Ok ==> old(self).dirs().subset_of(final(self).dirs()),
            r is Err ==> final(self).files() == old(self).files() && final(self).dirs() == old(
                self,
            ).dirs(),
    ;

    /// Creates directory `path` and its missing parents.
    fn create_directory(&mut self, path: &str) -> (r: Result<(), FsError>)
        ensures
            r is Ok ==> final(self).files() == old(self).files(),
            r is Ok ==> final(self).dirs().contains(path@),
            r is Ok ==> old(self).dirs().subset_of(final(self).dirs()),
            r is Err ==> final(self).files() == old(self).files() && final(self).dirs() == old(
                self,
            ).dirs(),
    ;

    /// Removes `path` and everything below it.
    fn delete(&mut self, path: &str) -> (r: Result<(), FsError>)
        ensures
            r is Ok ==> final(self).files() == files_without(old(self).files(), path@),
            r is Ok ==> final(self).dirs() == dirs_without(old(self).dirs(), path@),
            r is Err ==> final(self).files() == old(self).files() && final(self).dirs() == old(
                self,
            ).dirs(),
    ;

    /// Whether anything is held at `path`.
    fn path_exists(&self, path: &str) -> (r: Result<bool, FsError>)
        ensures
            r matches Ok(b) ==> b == (self.files().contains_key(path@) || self.dirs().contains(
                path@,
            )),
    ;
}

/// `after` is `before` with everything at or below `p` taken out.
pub open spec fn removed_from<F: FileSystem>(before: F, after: F, p: Seq<char>) -> bool {
    after.files() == files_without(before.files(), p) && after.dirs() == dirs_without(before.dirs(), p)
}

/// `a` and `b` hold the same files and directories.
pub open spec fn same_content<F: FileSystem>(a: F, b: F) -> bool {
    a.files() == b.files() && a.dirs() == b.dirs()
}

/// Something, a file or a directory, is held at `p`.
pub open spec fn holds<F: FileSystem>(fs: F, p: Seq<char>) -> bool {
    fs.files().contains_key(p) || fs.dirs().contains(p)
}

/// A filesystem that hands every operation to the store it wraps.
#[derive(Debug)]
pub struct VirtualFileSystem<F> {
    storage: F,
}

impl<F: FileSystem> VirtualFileSystem<F> {
    pub fn new(storage: F) -> (r: Self)
        ensures
            r.inner() == storage,
    {
        VirtualFileSystem { storage }
    }

    pub closed spec fn inner(&self) -> F {
        self.storage
    }
}

impl<F: FileSystem> FileSystem for VirtualFileSystem<F> {
    open spec fn files(&self) -> Map<Seq<char>, Seq<u8>> {
        self.inner().files()
    }

    open spec fn dirs(&self) -> Set<Seq<char>> {
        self.inner().dirs()
    }

    fn list_directory(&self, path: &str) -> (r: Result<Vec<String>, FsError>) {
        self.storage.list_directory(path)
    }

    fn get_metadata(&self, path: &str) -> (r: Result<FileMetadata, FsError>) {
        self.storage.get_metadata(path)
    }

    fn read_file(&self, path: &str) -> (r: Result<Vec<u8>, FsError>) {
        self.storage.read_file(path)
    }

    fn write_file(&mut self, path: &str, data: &[u8]) -> (r: Result<(), FsError>) {
        self.storage.write_file(path, data)
    }

    fn create_file(&mut self, path: &str) -> (r: Result<(), FsError>) {
        self.storage.create_file(path)
    }

    fn create_directory(&mut self, path: &str) -> (r: Result<(), FsError>) {
        self.storage.create_directory(path)
    }

    fn delete(&mut self, path: &str) -> (r: Result<(), FsError>) {
        self.storage.delete(path)
    }

    fn path_exists(&self, path: &str) -> (r: Result<bool, FsError>) {
        self.storage.path_exists(path)
    }
}

} // verus!
