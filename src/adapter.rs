use vstd::prelude::*;

use crate::error::FsError;
use crate::fs::{FileMetadata, FileSystem};
use crate::fuse::{
    admits, admitted, attributes, ignored, reply_code, lemma_number_for_push_keeps, listing_window, has_path, lemma_number_for_push, make_file_attr, number_for, path_for,
    read_reply, read_window_of, readdir_entries, root_attr, DirEntry, EntryKind, FileAttributes,
    FuseConfig, HandleTable, InodeTable, Operation, RecordsView, ReplyError, ROOT_INO,
};
use crate::path::{final_name, join_path, joined};
use crate::fs::{removed_from, same_content};
use crate::storage::{answer_of, listing_result, read_gives, stat_gives, write_done, write_failed, HybridStorage};

verus! {

/// The path that inode `parent` stands for in `inodes`, with `name` appended if given.
pub open spec fn resolve(inodes: RecordsView, parent: u64, name: Option<Seq<char>>) -> Option<
    Seq<char>,
> {
    match path_for(inodes, parent) {
        Some(base) => Some(
            match name {
                Some(n) => joined(base, n),
                None => base,
            },
        ),
        None => None,
    }
}

/// `m` is what a stat of `p` in `store` may report.
pub open spec fn stat_of<B: FileSystem>(store: HybridStorage<B>, p: Seq<char>, m: FileMetadata) -> bool {
    stat_gives(store.hot(), p, m) || stat_gives(store.cold(), p, m)
}

/// The path that a request names by handle `fh`, if given and known, else by inode
/// `ino`.
pub open spec fn target_of(handles: RecordsView, inodes: RecordsView, ino: u64, fh: Option<u64>) -> Option<
    Seq<char>,
> {
    match fh {
        Some(h) if path_for(handles, h) is Some => path_for(handles, h),
        _ => resolve(inodes, ino, None),
    }
}

/// `a` reports what a stat of `p` in `store` may report, under inode `ino`.
pub open spec fn attributes_of<B: FileSystem>(
    store: HybridStorage<B>,
    p: Seq<char>,
    ino: u64,
    a: FileAttributes,
) -> bool {
    exists|m: FileMetadata|
        stat_of(store, p, m) && a == #[trigger] attributes(ino, m.size, m.permissions, m.is_dir)
}

/// The state after a removal of `p` that succeeded: a tier lost `p` and what lies
/// below it, the other lost it too or stayed as it was, and the inode table forgot
/// `p` while keeping every other record.
pub open spec fn removal_done<B: FileSystem>(before: FuseState<B>, after: FuseState<B>, p: Seq<char>) -> bool {
    &&& removed_from(before.store().hot(), after.store().hot(), p) || removed_from(
        before.store().cold(),
        after.store().cold(),
        p,
    )
    &&& removed_from(before.store().hot(), after.store().hot(), p) || same_content(
        before.store().hot(),
        after.store().hot(),
    )
    &&& removed_from(before.store().cold(), after.store().cold(), p) || same_content(
        before.store().cold(),
        after.store().cold(),
    )
    &&& !has_path(after.inode_table()@, p)
    &&& forall|i: int|
        0 <= i < before.inode_table()@.len() && before.inode_table()@[i].1 != p
            ==> after.inode_table()@.contains(#[trigger] before.inode_table()@[i])
    &&& forall|i: int|
        0 <= i < after.inode_table()@.len() ==> before.inode_table()@.contains(
            #[trigger] after.inode_table()@[i],
        )
}

/// `v` is the listing of directory `ino` from `offset` on, built from a listing
/// `names` that the store may give of its path: each child has the inode that the
/// table `after` records for its path.
pub open spec fn readdir_done<B: FileSystem>(
    before: FuseState<B>,
    after: FuseState<B>,
    ino: u64,
    offset: i64,
    v: Seq<DirEntry>,
) -> bool {
    let p = resolve(before.inode_table()@, ino, None)->Some_0;
    exists|
        names: Seq<String>,
        children: Seq<(u64, EntryKind, String)>,
        kinds: Seq<Option<FileMetadata>>,
    |
        {
            &&& #[trigger] listing_result(before.store(), p, names)
            &&& #[trigger] children_fit(before.store(), after.inode_table()@, p, names, children, kinds)
            &&& #[trigger] listing_window(v, ino, children, offset)
        }
}

/// Each entry of `children` fits the name listed at its position, with the stat
/// answer at that position.
pub open spec fn children_fit<B: FileSystem>(
    store: HybridStorage<B>,
    inodes: RecordsView,
    p: Seq<char>,
    names: Seq<String>,
    children: Seq<(u64, EntryKind, String)>,
    kinds: Seq<Option<FileMetadata>>,
) -> bool {
    &&& children.len() == names.len()
    &&& kinds.len() == names.len()
    &&& forall|k: int|
        0 <= k < children.len() ==> child_fits(store, inodes, p, names[k], #[trigger] children[k], kinds[k])
}

/// Entry `child` of directory `p` stands for the listed name `name`: it has the
/// inode that `inodes` records for its path, and it is a directory exactly when the
/// stat of its path, answered `kind`, said so.
pub open spec fn child_fits<B: FileSystem>(
    store: HybridStorage<B>,
    inodes: RecordsView,
    p: Seq<char>,
    name: String,
    child: (u64, EntryKind, String),
    kind: Option<FileMetadata>,
) -> bool {
    &&& child.2@ == name@
    &&& number_for(inodes, joined(p, name@)) == Some(child.0)
    &&& stat_reply(store, joined(p, name@), kind)
    &&& (child.1 == EntryKind::Directory <==> (kind is Some && kind->Some_0.is_dir))
}

/// What a lookup of `p` answers, given the stat answer: none gives `NoEntry`; one
/// gives the entry with the inode that the table now records for `p`, unless no
/// inode is left.
pub open spec fn lookup_answered<B: FileSystem>(
    before: FuseState<B>,
    after: FuseState<B>,
    p: Seq<char>,
    stat: Option<FileMetadata>,
    r: Result<FileAttributes, ReplyError>,
) -> bool {
    &&& stat_reply(before.store(), p, stat)
    &&& stat is None ==> r == Err::<FileAttributes, _>(ReplyError::NoEntry)
    &&& stat is Some && before.inode_table().next() < u64::MAX ==> r == Ok::<_, ReplyError>(
        attributes(
            number_for(after.inode_table()@, p)->Some_0,
            stat->Some_0.size,
            stat->Some_0.permissions,
            stat->Some_0.is_dir,
        ),
    )
    &&& stat is Some && before.inode_table().next() == u64::MAX ==> r == Err::<FileAttributes, _>(
        ReplyError::NoSpace,
    )
}

/// What a stat request on inode `ino`, path `p`, answers given the store's stat
/// answer: none gives `NoEntry`; one gives its attributes under `ino`.
pub open spec fn stat_answered<B: FileSystem>(
    store: HybridStorage<B>,
    p: Seq<char>,
    ino: u64,
    stat: Option<FileMetadata>,
    r: Result<FileAttributes, ReplyError>,
) -> bool {
    &&& stat_reply(store, p, stat)
    &&& stat is None ==> r == Err::<FileAttributes, _>(ReplyError::NoEntry)
    &&& stat is Some ==> r == Ok::<_, ReplyError>(
        attributes(ino, stat->Some_0.size, stat->Some_0.permissions, stat->Some_0.is_dir),
    )
}

/// What an open of path `p` answers given the stat answer: none gives `NoEntry`;
/// one gives the next handle, unless no handle is left.
pub open spec fn open_answered<B: FileSystem>(
    before: FuseState<B>,
    p: Seq<char>,
    stat: Option<FileMetadata>,
    r: Result<u64, ReplyError>,
) -> bool {
    &&& stat_reply(before.store(), p, stat)
    &&& stat is None ==> r == Err::<u64, _>(ReplyError::NoEntry)
    &&& stat is Some && before.handle_table().next() < u64::MAX ==> r == Ok::<_, ReplyError>(
        before.handle_table().next(),
    )
    &&& stat is Some && before.handle_table().next() == u64::MAX ==> r == Err::<u64, _>(
        ReplyError::NoSpace,
    )
}

/// The listing that a result carries, as names, or its error.
pub open spec fn listing_answer(r: Result<Vec<String>, FsError>) -> Result<Seq<String>, FsError> {
    match r {
        Ok(v) => Ok(v@),
        Err(e) => Err(e),
    }
}

/// An answer that a stat of `p` in `store` may give; `None` for a failure.
pub open spec fn stat_reply<B: FileSystem>(store: HybridStorage<B>, p: Seq<char>, a: Option<FileMetadata>) -> bool {
    a matches Some(m) ==> stat_of(store, p, m)
}

/// What a listing of directory `ino` answers, given the store's listing answer: a
/// failed listing gives its error code; a listing with room in the inode table for
/// every name gives entries.
pub open spec fn readdir_answered<B: FileSystem>(
    before: FuseState<B>,
    ino: u64,
    listing: Result<Seq<String>, FsError>,
    r: Result<Vec<DirEntry>, ReplyError>,
) -> bool {
    let p = resolve(before.inode_table()@, ino, None)->Some_0;
    &&& listing matches Ok(v) ==> listing_result(before.store(), p, v)
    &&& listing matches Err(e) ==> r == Err::<Vec<DirEntry>, _>(reply_code(Operation::Readdir, e))
    &&& listing matches Ok(v) ==> (before.inode_table().next() + v.len() < u64::MAX && v.len() < i64::MAX - 2
        ==> r is Ok)
}

/// The state that the kernel callbacks share: the store, the inode and handle
/// tables, the ignore filter, and whether new callbacks are still served. Each
/// callback answers with a value or the error code to reply with.
pub struct FuseState<B> {
    fs: HybridStorage<B>,
    inodes: InodeTable,
    handles: HandleTable,
    config: FuseConfig,
    running: bool,
}

impl<B: FileSystem> FuseState<B> {
    pub closed spec fn store(&self) -> HybridStorage<B> {
        self.fs
    }

    pub closed spec fn inode_table(&self) -> InodeTable {
        self.inodes
    }

    pub closed spec fn handle_table(&self) -> HandleTable {
        self.handles
    }

    pub closed spec fn serving(&self) -> bool {
        self.running
    }

    pub open spec fn wf(&self) -> bool {
        &&& self.store().wf()
        &&& self.inode_table().wf()
        &&& self.handle_table().wf()
    }

    pub fn new(fs: HybridStorage<B>, config: FuseConfig) -> (r: Self)
        requires
            fs.wf(),
        ensures
            r.wf(),
            r.store() == fs,
            r.inode_table()@ == seq![(ROOT_INO, Seq::<char>::empty())],
            r.handle_table()@.len() == 0,
            r.serving(),
            r.filter() == config,
    {
        FuseState { fs, inodes: InodeTable::new(), handles: HandleTable::new(), config, running: true }
    }

    pub fn is_running(&self) -> (r: bool)
        ensures
            r == self.serving(),
    {
        self.running
    }

    /// Refuses new callbacks from now on, but for those that let open handles drain.
    pub fn stop_requests(&mut self)
        ensures
            !final(self).serving(),
            final(self).store() == old(self).store(),
            final(self).inode_table() == old(self).inode_table(),
            final(self).handle_table() == old(self).handle_table(),
    {
        self.running = false;
    }

    pub fn open_handles(&self) -> (r: usize)
        ensures
            r == self.handle_table()@.len(),
    {
        self.handles.len()
    }

    /// Drops every open handle.
    pub fn clear_handles(&mut self)
        requires
            old(self).wf(),
        ensures
            final(self).wf(),
            final(self).handle_table()@.len() == 0,
            final(self).store() == old(self).store(),
            final(self).inode_table() == old(self).inode_table(),
            final(self).serving() == old(self).serving(),
    {
        self.handles.clear();
    }

    /// Empties the inode and handle tables and the store's location cache.
    pub fn clear_tables(&mut self)
        requires
            old(self).wf(),
        ensures
            final(self).wf(),
            final(self).inode_table()@.len() == 0,
            final(self).handle_table()@.len() == 0,
            final(self).store().locations()@.len() == 0,
            final(self).store().hot() == old(self).store().hot(),
            final(self).store().cold() == old(self).store().cold(),
            final(self).serving() == old(self).serving(),
    {
        self.inodes.clear();
        self.handles.clear();
        self.fs.clear_cache();
    }

    pub closed spec fn filter(&self) -> FuseConfig {
        self.config
    }

    /// Whether failed lookups of `path` are expected noise.
    pub fn should_ignore(&self, path: &str) -> (r: bool)
        ensures
            r == ignored(self.filter().paths(), self.filter().patterns(), final_name(path@)),
    {
        self.config.should_ignore(path)
    }

    fn resolve_path(&self, parent: u64, name: Option<&str>) -> (r: Option<String>)
        requires
            self.wf(),
        ensures
            r is Some <==> resolve(
                self.inode_table()@,
                parent,
                match name {
                    Some(n) => Some(n@),
                    None => None,
                },
            ) is Some,
            r matches Some(p) ==> Some(p@) == resolve(
                self.inode_table()@,
                parent,
                match name {
                    Some(n) => Some(n@),
                    None => None,
                },
            ),
    {
        self.inodes.get_path(parent, name)
    }

    /// The inode of `path`, handed out if it has none; the table must have room.
    fn ino_for(&mut self, path: &str) -> (r: u64)
        requires
            old(self).wf(),
            old(self).inode_table().next() < u64::MAX,
        ensures
            final(self).wf(),
            number_for(final(self).inode_table()@, path@) == Some(r),
            final(self).store() == old(self).store(),
            final(self).handle_table() == old(self).handle_table(),
            final(self).serving() == old(self).serving(),
            final(self).inode_table().next() <= old(self).inode_table().next() + 1,
            forall|q: Seq<char>|
                #[trigger] number_for(old(self).inode_table()@, q) is Some ==> number_for(
                    final(self).inode_table()@,
                    q,
                ) == number_for(old(self).inode_table()@, q),
    {
        let ghost before = self.inodes@;
        let ino = self.inodes.allocate_ino(path);
        proof {
            if number_for(before, path@) is None {
                if has_path(before, path@) {
                    let j = choose|j: int| 0 <= j < before.len() && #[trigger] before[j].1 == path@;
                    assert(has_path(before, path@));
                }
                lemma_number_for_push(before, ino, path@);
                assert forall|q: Seq<char>| #[trigger] number_for(before, q) is Some implies number_for(
                    self.inodes@,
                    q,
                ) == number_for(before, q) by {
                    lemma_number_for_push_keeps(before, ino, path@, q);
                }
            }
        }
        ino
    }

    /// Looks `name` up in directory `parent`, giving it an inode if found.
    pub fn lookup(&mut self, parent: u64, name: &str) -> (r: Result<FileAttributes, ReplyError>)
        requires
            old(self).wf(),
        ensures
            final(self).wf(),
            final(self).store() == old(self).store(),
            final(self).handle_table() == old(self).handle_table(),
            final(self).serving() == old(self).serving(),
            !admitted(Operation::Lookup, old(self).serving()) ==> r == Err::<FileAttributes, _>(
                ReplyError::NotImplemented,
            ),
            admitted(Operation::Lookup, old(self).serving()) && resolve(
                old(self).inode_table()@,
                parent,
                Some(name@),
            ) is None ==> r == Err::<FileAttributes, _>(ReplyError::NoEntry),
            r matches Err(e) ==> (e == ReplyError::NotImplemented <==> !admitted(
                Operation::Lookup,
                old(self).serving(),
            )),
            r matches Err(e) ==> (e == ReplyError::NoSpace ==> old(self).inode_table().next()
                == u64::MAX),
            r is Err ==> final(self).inode_table() == old(self).inode_table(),
            r matches Ok(a) ==> ({
                let p = resolve(old(self).inode_table()@, parent, Some(name@))->Some_0;
                &&& resolve(old(self).inode_table()@, parent, Some(name@)) is Some
                &&& number_for(final(self).inode_table()@, p) == Some(a.ino)
                &&& attributes_of(old(self).store(), p, a.ino, a)
            }),
            admitted(Operation::Lookup, old(self).serving()) && resolve(old(self).inode_table()@, parent, Some(name@)) is Some ==> exists|
                stat: Option<FileMetadata>,
            |
                #[trigger] lookup_answered(*old(self), *final(self), resolve(old(self).inode_table()@, parent, Some(name@))->Some_0, stat, r),
    {
        if !admits(Operation::Lookup, self.running) {
            return Err(ReplyError::NotImplemented);
        }
        let path = match self.resolve_path(parent, Some(name)) {
            Some(p) => p,
            None => {
                return Err(ReplyError::NoEntry);
            },
        };
        let answer = self.fs.get_metadata(path.as_str());
        let ghost stat = answer_of(answer);
        let meta = match answer {
            Ok(m) => m,
            Err(_) => {
                let r = Err(ReplyError::NoEntry);
                assert(lookup_answered(*old(self), *self, path@, stat, r));
                return r;
            },
        };
        if !self.inodes.can_allocate() {
            let r = Err(ReplyError::NoSpace);
            assert(lookup_answered(*old(self), *self, path@, stat, r));
            return r;
        }
        let ino = self.ino_for(path.as_str());
        let a = make_file_attr(ino, meta.size, meta.permissions, meta.is_dir);
        assert(lookup_answered(*old(self), *self, path@, stat, Ok::<_, ReplyError>(a)));
        Ok(a)
    }

    /// The attributes of inode `ino`; the root's are fixed.
    pub fn getattr(&self, ino: u64) -> (r: Result<FileAttributes, ReplyError>)
        requires
            self.wf(),
        ensures
            !admitted(Operation::Getattr, self.serving()) ==> r == Err::<FileAttributes, _>(
                ReplyError::NotImplemented,
            ),
            admitted(Operation::Getattr, self.serving()) && ino == ROOT_INO ==> r == Ok::<
                _,
                ReplyError,
            >(attributes(ROOT_INO, 0, 0o755, true)),
            resolve(self.inode_table()@, ino, None) is None && ino != ROOT_INO ==> r is Err,
            r matches Err(e) ==> (e == ReplyError::NotImplemented <==> !admitted(
                Operation::Getattr,
                self.serving(),
            )),
            admitted(Operation::Getattr, self.serving()) && ino != ROOT_INO && resolve(
                self.inode_table()@,
                ino,
                None,
            ) is None ==> r == Err::<FileAttributes, _>(ReplyError::NoEntry),
            admitted(Operation::Getattr, self.serving()) && ino != ROOT_INO && resolve(
                self.inode_table()@,
                ino,
                None,
            ) is Some ==> exists|stat: Option<FileMetadata>|
                #[trigger] stat_answered(
                    self.store(),
                    resolve(self.inode_table()@, ino, None)->Some_0,
                    ino,
                    stat,
                    r,
                ),
            r matches Ok(a) ==> (ino != ROOT_INO ==> attributes_of(
                self.store(),
                resolve(self.inode_table()@, ino, None)->Some_0,
                ino,
                a,
            )),
    {
        if !admits(Operation::Getattr, self.running) {
            return Err(ReplyError::NotImplemented);
        }
        if ino == ROOT_INO {
            return Ok(root_attr());
        }
        let path = match self.resolve_path(ino, None) {
            Some(p) => p,
            None => {
                return Err(ReplyError::NoEntry);
            },
        };
        self.stat_reply_for(path.as_str(), ino)
    }

    /// The attributes of `path` under inode `ino`, or `NoEntry` when its stat fails.
    fn stat_reply_for(&self, path: &str, ino: u64) -> (r: Result<FileAttributes, ReplyError>)
        ensures
            exists|stat: Option<FileMetadata>| #[trigger] stat_answered(self.store(), path@, ino, stat, r),
            r matches Ok(a) ==> attributes_of(self.store(), path@, ino, a),
            r matches Err(e) ==> e == ReplyError::NoEntry,
    {
        let answer = self.fs.get_metadata(path);
        let ghost stat = answer_of(answer);
        match answer {
            Ok(m) => {
                let a = make_file_attr(ino, m.size, m.permissions, m.is_dir);
                assert(attributes_of(self.store(), path@, ino, a));
                assert(stat_answered(self.store(), path@, ino, stat, Ok::<_, ReplyError>(a)));
                Ok(a)
            },
            Err(_) => {
                let r = Err(ReplyError::NoEntry);
                assert(stat_answered(self.store(), path@, ino, stat, r));
                r
            },
        }
    }

    /// Answers a request to change attributes with the current ones, unchanged. The
    /// path is taken from handle `fh` if given and known, else from inode `ino`.
    pub fn setattr(&self, ino: u64, fh: Option<u64>) -> (r: Result<FileAttributes, ReplyError>)
        requires
            self.wf(),
        ensures
            !admitted(Operation::Setattr, self.serving()) ==> r == Err::<FileAttributes, _>(
                ReplyError::NotImplemented,
            ),
            target_of(self.handle_table()@, self.inode_table()@, ino, fh) is None ==> r is Err,
            r matches Err(e) ==> (e == ReplyError::NotImplemented <==> !admitted(
                Operation::Setattr,
                self.serving(),
            )),
            admitted(Operation::Setattr, self.serving()) && target_of(
                self.handle_table()@,
                self.inode_table()@,
                ino,
                fh,
            ) is None ==> r == Err::<FileAttributes, _>(ReplyError::NoEntry),
            admitted(Operation::Setattr, self.serving()) && target_of(
                self.handle_table()@,
                self.inode_table()@,
                ino,
                fh,
            ) is Some ==> exists|stat: Option<FileMetadata>|
                #[trigger] stat_answered(
                    self.store(),
                    target_of(self.handle_table()@, self.inode_table()@, ino, fh)->Some_0,
                    ino,
                    stat,
                    r,
                ),
            r matches Ok(a) ==> attributes_of(
                self.store(),
                target_of(self.handle_table()@, self.inode_table()@, ino, fh)->Some_0,
                ino,
                a,
            ),
    {
        if !admits(Operation::Setattr, self.running) {
            return Err(ReplyError::NotImplemented);
        }
        let from_handle = match fh {
            Some(h) => self.handles.get_path_from_fh(h),
            None => None,
        };
        let path = match from_handle {
            Some(p) => p,
            None => match self.resolve_path(ino, None) {
                Some(p) => p,
                None => {
                    return Err(ReplyError::NoEntry);
                },
            },
        };
        assert(target_of(self.handle_table()@, self.inode_table()@, ino, fh) == Some(path@));
        self.stat_reply_for(path.as_str(), ino)
    }

    /// Makes directory `name` in directory `parent`.
    pub fn mkdir(&mut self, parent: u64, name: &str, mode: u32) -> (r: Result<
        FileAttributes,
        ReplyError,
    >)
        requires
            old(self).wf(),
        ensures
            final(self).wf(),
            final(self).handle_table() == old(self).handle_table(),
            final(self).serving() == old(self).serving(),
            !admitted(Operation::Mkdir, old(self).serving()) ==> r == Err::<FileAttributes, _>(
                ReplyError::NotImplemented,
            ),
            admitted(Operation::Mkdir, old(self).serving()) && resolve(
                old(self).inode_table()@,
                parent,
                Some(name@),
            ) is None ==> r == Err::<FileAttributes, _>(ReplyError::NoEntry),
            r matches Err(e) ==> (e == ReplyError::NoSpace ==> old(self).inode_table().next()
                == u64::MAX),
            r is Err ==> final(self).inode_table() == old(self).inode_table(),
            r is Err ==> same_content(old(self).store().hot(), final(self).store().hot())
                && final(self).store().cold() == old(self).store().cold(),
            r matches Ok(a) ==> ({
                let p = resolve(old(self).inode_table()@, parent, Some(name@))->Some_0;
                &&& final(self).store().hot().dirs().contains(p)
                &&& final(self).store().hot().files() == old(self).store().hot().files()
                &&& final(self).store().cold() == old(self).store().cold()
                &&& number_for(final(self).inode_table()@, p) == Some(a.ino)
                &&& a == attributes(a.ino, 0, mode, true)
            }),
    {
        if !admits(Operation::Mkdir, self.running) {
            return Err(ReplyError::NotImplemented);
        }
        let path = match self.resolve_path(parent, Some(name)) {
            Some(p) => p,
            None => {
                return Err(ReplyError::NoEntry);
            },
        };
        if !self.inodes.can_allocate() {
            return Err(ReplyError::NoSpace);
        }
        match self.fs.create_directory(path.as_str()) {
            Ok(()) => {},
            Err(e) => {
                return Err(crate::fuse::reply_error(Operation::Mkdir, &e));
            },
        }
        let ino = self.ino_for(path.as_str());
        Ok(make_file_attr(ino, 0, mode, true))
    }

    /// Creates the empty file `name` in directory `parent` and opens it.
    pub fn create(&mut self, parent: u64, name: &str, mode: u32) -> (r: Result<
        (FileAttributes, u64),
        ReplyError,
    >)
        requires
            old(self).wf(),
        ensures
            final(self).wf(),
            final(self).serving() == old(self).serving(),
            !admitted(Operation::Create, old(self).serving()) ==> r == Err::<
                (FileAttributes, u64),
                _,
            >(ReplyError::NotImplemented),
            admitted(Operation::Create, old(self).serving()) && resolve(
                old(self).inode_table()@,
                parent,
                Some(name@),
            ) is None ==> r == Err::<(FileAttributes, u64), _>(ReplyError::NoEntry),
            r matches Err(e) ==> (e == ReplyError::NoSpace ==> old(self).inode_table().next()
                == u64::MAX || old(self).handle_table().next() == u64::MAX),
            r is Err ==> final(self).inode_table() == old(self).inode_table()
                && final(self).handle_table() == old(self).handle_table(),
            r is Err ==> same_content(old(self).store().hot(), final(self).store().hot())
                && final(self).store().cold() == old(self).store().cold(),
            r matches Ok((a, fh)) ==> ({
                let p = resolve(old(self).inode_table()@, parent, Some(name@))->Some_0;
                &&& final(self).store().hot().files() == old(self).store().hot().files().insert(
                    p,
                    Seq::empty(),
                )
                &&& final(self).store().cold() == old(self).store().cold()
                &&& number_for(final(self).inode_table()@, p) == Some(a.ino)
                &&& a == attributes(a.ino, 0, mode, false)
                &&& final(self).handle_table()@ == old(self).handle_table()@.push((fh, p))
            }),
    {
        if !admits(Operation::Create, self.running) {
            return Err(ReplyError::NotImplemented);
        }
        let path = match self.resolve_path(parent, Some(name)) {
            Some(p) => p,
            None => {
                return Err(ReplyError::NoEntry);
            },
        };
        if !self.inodes.can_allocate() || !self.handles.can_allocate() {
            return Err(ReplyError::NoSpace);
        }
        match self.fs.create_file(path.as_str()) {
            Ok(()) => {},
            Err(e) => {
                return Err(crate::fuse::reply_error(Operation::Create, &e));
            },
        }
        let ino = self.ino_for(path.as_str());
        let fh = self.handles.allocate_fh(path.as_str());
        Ok((make_file_attr(ino, 0, mode, false), fh))
    }

    /// Opens inode `ino`, which must be found in the store.
    pub fn open(&mut self, ino: u64) -> (r: Result<u64, ReplyError>)
        requires
            old(self).wf(),
        ensures
            final(self).wf(),
            final(self).store() == old(self).store(),
            final(self).inode_table() == old(self).inode_table(),
            final(self).serving() == old(self).serving(),
            resolve(old(self).inode_table()@, ino, None) is None ==> r == Err::<u64, _>(
                ReplyError::NoEntry,
            ),
            resolve(old(self).inode_table()@, ino, None) is Some ==> exists|stat: Option<FileMetadata>|
                #[trigger] open_answered(
                    *old(self),
                    resolve(old(self).inode_table()@, ino, None)->Some_0,
                    stat,
                    r,
                ),
            r is Err ==> final(self).handle_table() == old(self).handle_table(),
            r matches Ok(fh) ==> ({
                let p = resolve(old(self).inode_table()@, ino, None)->Some_0;
                &&& final(self).handle_table()@ == old(self).handle_table()@.push((fh, p))
                &&& exists|m: FileMetadata| #[trigger] stat_of(old(self).store(), p, m)
            }),
    {
        let path = match self.resolve_path(ino, None) {
            Some(p) => p,
            None => {
                return Err(ReplyError::NoEntry);
            },
        };
        let answer = self.fs.get_metadata(path.as_str());
        let ghost stat = answer_of(answer);
        match answer {
            Ok(m) => {
                assert(stat_of(self.fs, path@, m));
            },
            Err(_) => {
                let r = Err(ReplyError::NoEntry);
                assert(open_answered(*old(self), path@, stat, r));
                return r;
            },
        }
        if !self.handles.can_allocate() {
            let r = Err(ReplyError::NoSpace);
            assert(open_answered(*old(self), path@, stat, r));
            return r;
        }
        let fh = self.handles.allocate_fh(path.as_str());
        assert(open_answered(*old(self), path@, stat, Ok::<_, ReplyError>(fh)));
        Ok(fh)
    }

    /// Reads `size` bytes at `offset` of the file open under `fh`.
    pub fn read(&mut self, fh: u64, offset: i64, size: u32) -> (r: Result<Vec<u8>, ReplyError>)
        requires
            old(self).wf(),
        ensures
            final(self).wf(),
            final(self).store().hot() == old(self).store().hot(),
            final(self).store().cold() == old(self).store().cold(),
            final(self).inode_table() == old(self).inode_table(),
            final(self).handle_table() == old(self).handle_table(),
            final(self).serving() == old(self).serving(),
            r matches Err(e) ==> e == ReplyError::NoEntry,
            path_for(old(self).handle_table()@, fh) is None ==> r is Err,
            r matches Ok(bytes) ==> exists|d: Seq<u8>|
                {
                    &&& #[trigger] read_gives(
                        old(self).store(),
                        path_for(old(self).handle_table()@, fh)->Some_0,
                        d,
                    )
                    &&& read_window_of(d.len(), offset as int, size as nat) matches Some((a, b))
                    &&& bytes@ == d.subrange(a, b)
                },
    {
        let path = match self.handles.get_path_from_fh(fh) {
            Some(p) => p,
            None => {
                return Err(ReplyError::NoEntry);
            },
        };
        let data = match self.fs.read_file(path.as_str()) {
            Ok(d) => d,
            Err(_) => {
                return Err(ReplyError::NoEntry);
            },
        };
        match read_reply(&data, offset, size) {
            Some(bytes) => Ok(bytes),
            None => Err(ReplyError::NoEntry),
        }
    }

    /// Replaces the whole content of the file open under `fh` by `data`; the offset
    /// of the request plays no part. Returns the number of bytes written.
    pub fn write(&mut self, fh: u64, data: &[u8]) -> (r: Result<u32, ReplyError>)
        requires
            old(self).wf(),
        ensures
            final(self).wf(),
            final(self).inode_table() == old(self).inode_table(),
            final(self).handle_table() == old(self).handle_table(),
            final(self).serving() == old(self).serving(),
            !admitted(Operation::Write, old(self).serving()) ==> r == Err::<u32, _>(
                ReplyError::NotImplemented,
            ),
            r matches Err(e) ==> (e == ReplyError::NotImplemented <==> !admitted(
                Operation::Write,
                old(self).serving(),
            )),
            r matches Err(e) ==> e != ReplyError::NoSpace,
            admitted(Operation::Write, old(self).serving()) && path_for(
                old(self).handle_table()@,
                fh,
            ) is None ==> r == Err::<u32, _>(ReplyError::NoEntry),
            r is Err && (!admitted(Operation::Write, old(self).serving()) || path_for(
                old(self).handle_table()@,
                fh,
            ) is None) ==> final(self).store() == old(self).store(),
            r is Err && admitted(Operation::Write, old(self).serving()) && path_for(
                old(self).handle_table()@,
                fh,
            ) is Some ==> write_failed(
                old(self).store(),
                final(self).store(),
                path_for(old(self).handle_table()@, fh)->Some_0,
                data@,
            ),
            r matches Ok(n) ==> n == data@.len() as u32 && write_done(
                old(self).store(),
                final(self).store(),
                path_for(old(self).handle_table()@, fh)->Some_0,
                data@,
            ),
    {
        if !admits(Operation::Write, self.running) {
            return Err(ReplyError::NotImplemented);
        }
        let path = match self.handles.get_path_from_fh(fh) {
            Some(p) => p,
            None => {
                return Err(ReplyError::NoEntry);
            },
        };
        match self.fs.write_file(path.as_str(), data) {
            Ok(()) => Ok(data.len() as u32),
            Err(_) => Err(ReplyError::NoEntry),
        }
    }

    /// Releases handle `fh`.
    pub fn release(&mut self, fh: u64)
        requires
            old(self).wf(),
        ensures
            final(self).wf(),
            final(self).store() == old(self).store(),
            final(self).inode_table() == old(self).inode_table(),
            final(self).serving() == old(self).serving(),
            path_for(final(self).handle_table()@, fh) is None,
    {
        self.handles.release_fh(fh);
    }

    /// Removes file `name` from directory `parent`, and forgets its inode.
    pub fn unlink(&mut self, parent: u64, name: &str) -> (r: Result<(), ReplyError>)
        requires
            old(self).wf(),
        ensures
            final(self).wf(),
            final(self).handle_table() == old(self).handle_table(),
            final(self).serving() == old(self).serving(),
            !admitted(Operation::Unlink, old(self).serving()) ==> r == Err::<(), _>(
                ReplyError::NotImplemented,
            ),
            admitted(Operation::Unlink, old(self).serving()) && resolve(old(self).inode_table()@, parent, Some(name@)) is None
                ==> r == Err::<(), _>(ReplyError::NoEntry),
            r matches Err(e) ==> e != ReplyError::NoSpace,
            r is Ok ==> removal_done(
                *old(self),
                *final(self),
                resolve(old(self).inode_table()@, parent, Some(name@))->Some_0,
            ),
            r is Err ==> final(self).inode_table() == old(self).inode_table(),
            r is Err ==> same_content(old(self).store().hot(), final(self).store().hot())
                && same_content(old(self).store().cold(), final(self).store().cold()),
    {
        self.remove(Operation::Unlink, parent, name)
    }

    /// Removes directory `name` from directory `parent`, and forgets its inode.
    pub fn rmdir(&mut self, parent: u64, name: &str) -> (r: Result<(), ReplyError>)
        requires
            old(self).wf(),
        ensures
            final(self).wf(),
            final(self).handle_table() == old(self).handle_table(),
            final(self).serving() == old(self).serving(),
            !admitted(Operation::Rmdir, old(self).serving()) ==> r == Err::<(), _>(
                ReplyError::NotImplemented,
            ),
            admitted(Operation::Rmdir, old(self).serving()) && resolve(old(self).inode_table()@, parent, Some(name@)) is None
                ==> r == Err::<(), _>(ReplyError::NoEntry),
            r matches Err(e) ==> e != ReplyError::NoSpace,
            r is Ok ==> removal_done(
                *old(self),
                *final(self),
                resolve(old(self).inode_table()@, parent, Some(name@))->Some_0,
            ),
            r is Err ==> final(self).inode_table() == old(self).inode_table(),
            r is Err ==> same_content(old(self).store().hot(), final(self).store().hot())
                && same_content(old(self).store().cold(), final(self).store().cold()),
    {
        self.remove(Operation::Rmdir, parent, name)
    }

    fn remove(&mut self, op: Operation, parent: u64, name: &str) -> (r: Result<(), ReplyError>)
        requires
            old(self).wf(),
        ensures
            final(self).wf(),
            final(self).handle_table() == old(self).handle_table(),
            final(self).serving() == old(self).serving(),
            !admitted(op, old(self).serving()) ==> r == Err::<(), _>(ReplyError::NotImplemented),
            admitted(op, old(self).serving()) && resolve(old(self).inode_table()@, parent, Some(name@)) is None
                ==> r == Err::<(), _>(ReplyError::NoEntry),
            r matches Err(e) ==> e != ReplyError::NoSpace,
            r is Ok ==> removal_done(
                *old(self),
                *final(self),
                resolve(old(self).inode_table()@, parent, Some(name@))->Some_0,
            ),
            r is Err ==> final(self).inode_table() == old(self).inode_table(),
            r is Err ==> same_content(old(self).store().hot(), final(self).store().hot())
                && same_content(old(self).store().cold(), final(self).store().cold()),
    {
        if !admits(op, self.running) {
            return Err(ReplyError::NotImplemented);
        }
        let path = match self.resolve_path(parent, Some(name)) {
            Some(p) => p,
            None => {
                return Err(ReplyError::NoEntry);
            },
        };
        match self.fs.delete(path.as_str()) {
            Ok(()) => {
                let _ = self.inodes.remove_path(path.as_str());
                Ok(())
            },
            Err(e) => Err(crate::fuse::reply_error(op, &e)),
        }
    }

    /// The entries of directory `ino` from position `offset` on: itself as `.` and
    /// `..`, then each name that the store lists, with an inode and its kind.
    pub fn readdir(&mut self, ino: u64, offset: i64) -> (r: Result<Vec<DirEntry>, ReplyError>)
        requires
            old(self).wf(),
        ensures
            final(self).wf(),
            final(self).store().hot() == old(self).store().hot(),
            final(self).store().cold() == old(self).store().cold(),
            final(self).handle_table() == old(self).handle_table(),
            final(self).serving() == old(self).serving(),
            resolve(old(self).inode_table()@, ino, None) is None ==> r == Err::<Vec<DirEntry>, _>(
                ReplyError::NoEntry,
            ),
            r matches Ok(v) ==> readdir_done(*old(self), *final(self), ino, offset, v@),
            resolve(old(self).inode_table()@, ino, None) is Some ==> exists|
                listing: Result<Seq<String>, FsError>,
            | #[trigger] readdir_answered(*old(self), ino, listing, r),
    {
        let path = match self.resolve_path(ino, None) {
            Some(p) => p,
            None => {
                return Err(ReplyError::NoEntry);
            },
        };
        let listed = self.fs.list_directory(path.as_str());
        let ghost listing = listing_answer(listed);
        let names = match listed {
            Ok(v) => v,
            Err(e) => {
                let r = Err(crate::fuse::reply_error(Operation::Readdir, &e));
                assert(readdir_answered(*old(self), ino, listing, r));
                return r;
            },
        };
        if names.len() as u64 >= (i64::MAX - 2) as u64 {
            let r = Err(ReplyError::NoSpace);
            assert(readdir_answered(*old(self), ino, listing, r));
            return r;
        }
        let ghost p = path@;
        let mut children: Vec<(u64, EntryKind, String)> = Vec::new();
        let ghost mut kinds: Seq<Option<FileMetadata>> = Seq::empty();
        let mut i: usize = 0;
        while i < names.len()
            invariant
                self.wf(),
                0 <= i <= names@.len(),
                children@.len() == i,
                kinds.len() == i,
                listing == Ok::<Seq<String>, FsError>(names@),
                self.inode_table().next() <= old(self).inode_table().next() + i,
                forall|k: int|
                    0 <= k < i ==> child_fits(
                        old(self).store(),
                        self.inode_table()@,
                        p,
                        names@[k],
                        #[trigger] children@[k],
                        kinds[k],
                    ),
                p == path@,
                resolve(old(self).inode_table()@, ino, None) == Some(p),
                listing_result(old(self).store(), p, names@),
                names@.len() < i64::MAX - 2,
                self.store().hot() == old(self).store().hot(),
                self.store().cold() == old(self).store().cold(),
                self.handle_table() == old(self).handle_table(),
                self.serving() == old(self).serving(),
            decreases names@.len() - i,
        {
            let child = join_path(path.as_str(), names[i].as_str());
            if !self.inodes.can_allocate() {
                let r = Err(ReplyError::NoSpace);
                assert(readdir_answered(*old(self), ino, listing, r));
                return r;
            }
            let ghost before_children = children@;
            let ghost before_inodes = self.inode_table()@;
            let child_ino = self.ino_for(child.as_str());
            let answer = self.fs.get_metadata(child.as_str());
            let ghost stat = answer_of(answer);
            let kind = match answer {
                Ok(m) => if m.is_dir {
                    EntryKind::Directory
                } else {
                    EntryKind::RegularFile
                },
                Err(_) => EntryKind::RegularFile,
            };
            children.push((child_ino, kind, names[i].clone()));
            proof {
                kinds = kinds.push(stat);
                assert forall|k: int| 0 <= k < i + 1 implies child_fits(
                    old(self).store(),
                    self.inode_table()@,
                    p,
                    names@[k],
                    #[trigger] children@[k],
                    kinds[k],
                ) by {
                    if k < i {
                        assert(children@[k] == before_children[k]);
                        assert(child_fits(
                            old(self).store(),
                            before_inodes,
                            p,
                            names@[k],
                            before_children[k],
                            kinds[k],
                        ));
                    }
                }
            }
            i += 1;
        }
        let ghost kids = children@;
        let entries = readdir_entries(ino, children, offset);
        proof {
            assert(listing_window(entries@, ino, kids, offset));
            assert(p == resolve(old(self).inode_table()@, ino, None)->Some_0);
            assert(children_fit(old(self).store(), self.inode_table()@, p, names@, kids, kinds));
            assert(readdir_done(*old(self), *self, ino, offset, entries@));
            assert(readdir_answered(*old(self), ino, listing, Ok::<Vec<DirEntry>, ReplyError>(entries)));
        }
        Ok(entries)
    }
}

} // verus!
