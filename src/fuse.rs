use vstd::prelude::*;

use crate::error::FsError;
use crate::path::{file_name, final_name, join_path, joined, starts_with};

verus! {

/// `name` matches `pattern`, a prefix followed by `*`.
pub open spec fn matches_pattern(name: Seq<char>, pattern: Seq<char>) -> bool {
    &&& pattern.len() > 0
    &&& pattern.last() == '*'
    &&& pattern.len() - 1 <= name.len()
    &&& name.subrange(0, pattern.len() - 1) == pattern.drop_last()
}

/// A name that the filter ignores: a listed name, a name that matches a pattern, or
/// a name of one character. The root, with no name, is never ignored.
pub open spec fn ignored(paths: Seq<Seq<char>>, patterns: Seq<Seq<char>>, name: Seq<char>) -> bool {
    &&& name.len() > 0
    &&& {
        ||| paths.contains(name)
        ||| exists|i: int| 0 <= i < patterns.len() && matches_pattern(name, #[trigger] patterns[i])
        ||| name.len() == 1
    }
}

pub open spec fn strings_view(v: Seq<String>) -> Seq<Seq<char>> {
    v.map_values(|s: String| s@)
}

/// Names whose failed lookups are expected and not worth an error in the log.
#[derive(Debug)]
pub struct FuseConfig {
    ignore_paths: Vec<String>,
    ignore_patterns: Vec<String>,
}

impl FuseConfig {
    /// The names ignored as they stand.
    pub closed spec fn paths(&self) -> Seq<Seq<char>> {
        strings_view(self.ignore_paths@)
    }

    /// The patterns, each a prefix followed by `*`.
    pub closed spec fn patterns(&self) -> Seq<Seq<char>> {
        strings_view(self.ignore_patterns@)
    }

    /// The default filter: host metadata names, and the `._` family.
    pub fn new() -> (r: Self)
        ensures
            r.paths() == seq![".DS_Store"@, ".hidden"@, ".git"@, "@executable_path"@],
            r.patterns() == seq!["._*"@],
    {
        let mut ignore_paths: Vec<String> = Vec::new();
        ignore_paths.push(String::from_str(".DS_Store"));
        ignore_paths.push(String::from_str(".hidden"));
        ignore_paths.push(String::from_str(".git"));
        ignore_paths.push(String::from_str("@executable_path"));
        let mut ignore_patterns: Vec<String> = Vec::new();
        ignore_patterns.push(String::from_str("._*"));
        let r = FuseConfig { ignore_paths, ignore_patterns };
        assert(r.paths() =~= seq![".DS_Store"@, ".hidden"@, ".git"@, "@executable_path"@]);
        assert(r.patterns() =~= seq!["._*"@]);
        r
    }

    /// This filter with `paths` added to its names.
    pub fn with_ignore_paths(self, paths: Vec<String>) -> (r: Self)
        ensures
            r.paths() == self.paths() + strings_view(paths@),
            r.patterns() == self.patterns(),
    {
        let mut r = self;
        let mut more = paths;
        let ghost before = r.ignore_paths@;
        let ghost added = more@;
        r.ignore_paths.append(&mut more);
        assert(strings_view(r.ignore_paths@) =~= strings_view(before) + strings_view(added));
        r
    }

    /// This filter with `patterns` added to its patterns.
    pub fn with_ignore_patterns(self, patterns: Vec<String>) -> (r: Self)
        ensures
            r.paths() == self.paths(),
            r.patterns() == self.patterns() + strings_view(patterns@),
    {
        let mut r = self;
        let mut more = patterns;
        let ghost before = r.ignore_patterns@;
        let ghost added = more@;
        r.ignore_patterns.append(&mut more);
        assert(strings_view(r.ignore_patterns@) =~= strings_view(before) + strings_view(added));
        r
    }

    /// Whether the last component of `path` is ignored.
    pub fn should_ignore(&self, path: &str) -> (r: bool)
        ensures
            r == ignored(self.paths(), self.patterns(), final_name(path@)),
    {
        let name = file_name(path);
        let n = name.as_str().unicode_len();
        assert(n == name@.len());
        if n == 0 {
            return false;
        }
        let mut i: usize = 0;
        while i < self.ignore_paths.len()
            invariant
                0 <= i <= self.ignore_paths@.len(),
                name@ == final_name(path@),
                n == name@.len(),
                n > 0,
                forall|j: int| 0 <= j < i ==> self.ignore_paths@[j]@ != name@,
            decreases self.ignore_paths@.len() - i,
        {
            if self.ignore_paths[i] == name {
                proof {
                    assert(self.paths()[i as int] == name@);
                    assert(self.paths().contains(name@));
                    assert(name@.len() > 0);
                }
                return true;
            }
            i += 1;
        }
        proof {
            assert(!self.paths().contains(name@)) by {
                if self.paths().contains(name@) {
                    let j = choose|j: int| 0 <= j < self.paths().len() && self.paths()[j] == name@;
                    assert(self.ignore_paths@[j]@ == name@);
                }
            }
        }
        let mut k: usize = 0;
        while k < self.ignore_patterns.len()
            invariant
                0 <= k <= self.ignore_patterns@.len(),
                name@ == final_name(path@),
                n == name@.len(),
                n > 0,
                !self.paths().contains(name@),
                forall|j: int| 0 <= j < k ==> !matches_pattern(name@, #[trigger] self.patterns()[j]),
            decreases self.ignore_patterns@.len() - k,
        {
            let pattern = self.ignore_patterns[k].as_str();
            let m = pattern.unicode_len();
            if m > 0 && pattern.get_char(m - 1) == '*' {
                let prefix = pattern.substring_char(0, m - 1);
                if starts_with(name.as_str(), prefix) {
                    proof {
                        assert(self.patterns()[k as int] == pattern@);
                        assert(prefix@ =~= pattern@.drop_last());
                        assert(matches_pattern(name@, self.patterns()[k as int]));
                        assert(name@.len() > 0);
                    }
                    return true;
                }
                proof {
                    assert(self.patterns()[k as int] == pattern@);
                    assert(prefix@ =~= pattern@.drop_last());
                }
            } else {
                proof {
                    assert(self.patterns()[k as int] == pattern@);
                }
            }
            k += 1;
        }
        n == 1
    }
}

impl Default for FuseConfig {
    fn default() -> (r: Self)
        ensures
            r.paths() == seq![".DS_Store"@, ".hidden"@, ".git"@, "@executable_path"@],
            r.patterns() == seq!["._*"@],
    {
        FuseConfig::new()
    }
}

/// The inode that the root of the filesystem always has.
pub const ROOT_INO: u64 = 1;

/// A table of records keyed by number, each with a path.
pub type RecordsView = Seq<(u64, Seq<char>)>;

pub open spec fn records_view(v: Seq<(u64, String)>) -> RecordsView {
    v.map_values(|r: (u64, String)| (r.0, r.1@))
}

pub open spec fn numbers_distinct(s: RecordsView) -> bool {
    forall|i: int, j: int| 0 <= i < j < s.len() ==> s[i].0 != s[j].0
}

pub open spec fn paths_distinct(s: RecordsView) -> bool {
    forall|i: int, j: int| 0 <= i < j < s.len() ==> s[i].1 != s[j].1
}

pub open spec fn has_number(s: RecordsView, k: u64) -> bool {
    exists|i: int| 0 <= i < s.len() && #[trigger] s[i].0 == k
}

pub open spec fn has_path(s: RecordsView, p: Seq<char>) -> bool {
    exists|i: int| 0 <= i < s.len() && #[trigger] s[i].1 == p
}

/// The path recorded under number `k`, if any.
pub open spec fn path_for(s: RecordsView, k: u64) -> Option<Seq<char>> {
    if has_number(s, k) {
        Some(s[choose|i: int| 0 <= i < s.len() && #[trigger] s[i].0 == k].1)
    } else {
        None
    }
}

/// The number recorded for path `p`, if any.
pub open spec fn number_for(s: RecordsView, p: Seq<char>) -> Option<u64> {
    if has_path(s, p) {
        Some(s[choose|i: int| 0 <= i < s.len() && #[trigger] s[i].1 == p].0)
    } else {
        None
    }
}

/// The index of the record numbered `k`.
fn find_number(v: &Vec<(u64, String)>, k: u64) -> (r: Option<usize>)
    requires
        numbers_distinct(records_view(v@)),
    ensures
        match r {
            Some(i) => i < v@.len() && v@[i as int].0 == k && path_for(records_view(v@), k) == Some(
                v@[i as int].1@,
            ),
            None => !has_number(records_view(v@), k) && path_for(records_view(v@), k) is None,
        },
{
    let ghost s = records_view(v@);
    let mut i: usize = 0;
    while i < v.len()
        invariant
            0 <= i <= v@.len(),
            s == records_view(v@),
            numbers_distinct(s),
            forall|j: int| 0 <= j < i ==> v@[j].0 != k,
        decreases v@.len() - i,
    {
        if v[i].0 == k {
            proof {
                assert(s[i as int].0 == k);
                let c = choose|c: int| 0 <= c < s.len() && #[trigger] s[c].0 == k;
                assert(0 <= c < s.len());
                if c < i {
                    assert(s[c].0 != s[i as int].0);
                } else if i < c {
                    assert(0 <= i < c < s.len());
                    assert(s[i as int].0 != s[c].0);
                }
            }
            return Some(i);
        }
        i += 1;
    }
    proof {
        assert forall|j: int| 0 <= j < s.len() implies #[trigger] s[j].0 != k by {
            assert(s[j].0 == v@[j].0);
        }
    }
    None
}

/// The index of the record with path `p`.
fn find_path(v: &Vec<(u64, String)>, p: &String) -> (r: Option<usize>)
    requires
        paths_distinct(records_view(v@)),
    ensures
        match r {
            Some(i) => i < v@.len() && v@[i as int].1@ == p@ && number_for(records_view(v@), p@)
                == Some(v@[i as int].0),
            None => !has_path(records_view(v@), p@) && number_for(records_view(v@), p@) is None,
        },
{
    let ghost s = records_view(v@);
    let mut i: usize = 0;
    while i < v.len()
        invariant
            0 <= i <= v@.len(),
            s == records_view(v@),
            paths_distinct(s),
            forall|j: int| 0 <= j < i ==> v@[j].1@ != p@,
        decreases v@.len() - i,
    {
        if v[i].1 == *p {
            proof {
                assert(s[i as int].1 == p@);
                let c = choose|c: int| 0 <= c < s.len() && #[trigger] s[c].1 == p@;
                assert(0 <= c < s.len());
                if c < i {
                    assert(s[c].1 != s[i as int].1);
                } else if i < c {
                    assert(0 <= i < c < s.len());
                    assert(s[i as int].1 != s[c].1);
                }
            }
            return Some(i);
        }
        i += 1;
    }
    proof {
        assert forall|j: int| 0 <= j < s.len() implies #[trigger] s[j].1 != p@ by {
            assert(s[j].1 == v@[j].1@);
        }
    }
    None
}

/// The two-way map between inodes and paths of one mount session. Inodes are handed
/// out in increasing order and never reused.
pub struct InodeTable {
    records: Vec<(u64, String)>,
    next_ino: u64,
}

impl View for InodeTable {
    type V = RecordsView;

    closed spec fn view(&self) -> RecordsView {
        records_view(self.records@)
    }
}

impl InodeTable {
    /// The inode that the next new path gets.
    pub closed spec fn next(&self) -> u64 {
        self.next_ino
    }

    /// Each inode names one path and each path has one inode; all inodes lie below
    /// the next one.
    pub open spec fn wf(&self) -> bool {
        &&& numbers_distinct(self@)
        &&& paths_distinct(self@)
        &&& self.next() > ROOT_INO
        &&& forall|i: int| 0 <= i < self@.len() ==> #[trigger] self@[i].0 < self.next()
    }

    /// A table that knows the root alone, as inode 1 with the empty path.
    pub fn new() -> (r: Self)
        ensures
            r.wf(),
            r@ == seq![(ROOT_INO, Seq::<char>::empty())],
            r.next() == ROOT_INO + 1,
    {
        let mut records: Vec<(u64, String)> = Vec::new();
        records.push((ROOT_INO, String::new()));
        let r = InodeTable { records, next_ino: ROOT_INO + 1 };
        assert(r@ =~= seq![(ROOT_INO, Seq::<char>::empty())]);
        r
    }

    pub fn len(&self) -> (r: usize)
        ensures
            r == self@.len(),
    {
        self.records.len()
    }

    /// Whether a new inode can still be handed out.
    pub fn can_allocate(&self) -> (r: bool)
        ensures
            r == (self.next() < u64::MAX),
    {
        self.next_ino < u64::MAX
    }

    /// The path of inode `parent`, with `name` appended if given.
    pub fn get_path(&self, parent: u64, name: Option<&str>) -> (r: Option<String>)
        requires
            self.wf(),
        ensures
            r is Some <==> path_for(self@, parent) is Some,
            r matches Some(p) ==> p@ == match name {
                Some(n) => joined(path_for(self@, parent)->Some_0, n@),
                None => path_for(self@, parent)->Some_0,
            },
    {
        match find_number(&self.records, parent) {
            Some(i) => {
                let base = self.records[i].1.as_str();
                match name {
                    Some(n) => Some(join_path(base, n)),
                    None => Some(base.to_owned()),
                }
            },
            None => None,
        }
    }

    /// The inode of `path`, handing out the next one if it has none.
    pub fn allocate_ino(&mut self, path: &str) -> (r: u64)
        requires
            old(self).wf(),
            old(self).next() < u64::MAX,
        ensures
            final(self).wf(),
            match number_for(old(self)@, path@) {
                Some(k) => r == k && final(self)@ == old(self)@ && final(self).next() == old(
                    self,
                ).next(),
                None => r == old(self).next() && final(self)@ == old(self)@.push((r, path@))
                    && final(self).next() == old(self).next() + 1,
            },
    {
        let key = path.to_owned();
        match find_path(&self.records, &key) {
            Some(i) => self.records[i].0,
            None => {
                let ino = self.next_ino;
                let ghost before = self@;
                self.records.push((ino, key));
                self.next_ino = ino + 1;
                proof {
                    assert(self@ =~= before.push((ino, path@)));
                    assert forall|a: int, b: int| 0 <= a < b < self@.len() implies self@[a].0
                        != self@[b].0 && self@[a].1 != self@[b].1 by {
                        assert(self@[a] == before[a]);
                        if b < before.len() {
                            assert(self@[b] == before[b]);
                        } else {
                            assert(before[a].0 < ino);
                            if before[a].1 == path@ {
                                assert(has_path(before, path@));
                            }
                        }
                    }
                    assert forall|i: int| 0 <= i < self@.len() implies #[trigger] self@[i].0
                        < self.next() by {
                        if i < before.len() {
                            assert(self@[i] == before[i]);
                        }
                    }
                }
                ino
            },
        }
    }

    /// Forgets `path` and its inode; returns the inode it had.
    pub fn remove_path(&mut self, path: &str) -> (r: Option<u64>)
        requires
            old(self).wf(),
        ensures
            final(self).wf(),
            final(self).next() == old(self).next(),
            r == number_for(old(self)@, path@),
            !has_path(final(self)@, path@),
            r matches Some(k) ==> !has_number(final(self)@, k),
            forall|i: int|
                0 <= i < old(self)@.len() && old(self)@[i].1 != path@ ==> final(self)@.contains(
                    #[trigger] old(self)@[i],
                ),
            forall|i: int|
                0 <= i < final(self)@.len() ==> old(self)@.contains(#[trigger] final(self)@[i]),
    {
        let key = path.to_owned();
        let ghost before = self@;
        match find_path(&self.records, &key) {
            Some(i) => {
                let removed = self.records.remove(i);
                proof {
                    assert(self@ =~= before.remove(i as int));
                    assert forall|a: int, b: int| 0 <= a < b < self@.len() implies self@[a].0
                        != self@[b].0 && self@[a].1 != self@[b].1 by {
                        let sa = if a < i {
                            a
                        } else {
                            a + 1
                        };
                        let sb = if b < i {
                            b
                        } else {
                            b + 1
                        };
                        assert(self@[a] == before[sa]);
                        assert(self@[b] == before[sb]);
                    }
                    assert forall|j: int| 0 <= j < self@.len() implies #[trigger] self@[j].0
                        < self.next() by {
                        let sj = if j < i {
                            j
                        } else {
                            j + 1
                        };
                        assert(self@[j] == before[sj]);
                    }
                    assert forall|j: int| 0 <= j < before.len() && before[j].1 != path@ implies self@.contains(
                        #[trigger] before[j],
                    ) by {
                        if j < i {
                            assert(self@[j] == before[j]);
                        } else {
                            assert(j != i);
                            assert(self@[j - 1] == before[j]);
                        }
                    }
                    assert forall|j: int| 0 <= j < self@.len() implies before.contains(
                        #[trigger] self@[j],
                    ) by {
                        let sj = if j < i {
                            j
                        } else {
                            j + 1
                        };
                        assert(self@[j] == before[sj]);
                    }
                    if has_path(self@, path@) {
                        let j = choose|j: int| 0 <= j < self@.len() && #[trigger] self@[j].1 == path@;
                        let sj = if j < i {
                            j
                        } else {
                            j + 1
                        };
                        assert(self@[j] == before[sj]);
                        if sj < i {
                            assert(before[sj].1 != before[i as int].1);
                        } else {
                            assert(before[i as int].1 != before[sj].1);
                        }
                    }
                    if has_number(self@, removed.0) {
                        let j = choose|j: int| 0 <= j < self@.len() && #[trigger] self@[j].0 == removed.0;
                        let sj = if j < i {
                            j
                        } else {
                            j + 1
                        };
                        assert(self@[j] == before[sj]);
                        assert(removed.0 == before[i as int].0);
                        if sj < i {
                            assert(before[sj].0 != before[i as int].0);
                        } else {
                            assert(before[i as int].0 != before[sj].0);
                        }
                    }
                }
                Some(removed.0)
            },
            None => {
                proof {
                    assert forall|j: int| 0 <= j < before.len() && before[j].1 != path@ implies self@.contains(
                        #[trigger] before[j],
                    ) by {
                        assert(self@[j] == before[j]);
                    }
                    assert forall|j: int| 0 <= j < self@.len() implies before.contains(
                        #[trigger] self@[j],
                    ) by {
                        assert(self@[j] == before[j]);
                    }
                }
                None
            },
        }
    }

    /// Forgets every record; inodes already handed out stay used.
    pub fn clear(&mut self)
        requires
            old(self).wf(),
        ensures
            final(self).wf(),
            final(self)@.len() == 0,
            final(self).next() == old(self).next(),
    {
        self.records.clear();
        assert(self@ =~= Seq::<(u64, Seq<char>)>::empty());
    }
}

/// Within a session, distinct live records have distinct inodes and distinct paths.
pub proof fn lemma_inodes_injective(t: InodeTable, i: int, j: int)
    requires
        t.wf(),
        0 <= i < t@.len(),
        0 <= j < t@.len(),
        i != j,
    ensures
        t@[i].0 != t@[j].0,
        t@[i].1 != t@[j].1,
{
}

/// The open file handles of a session, each with its path. Handles are handed out in
/// increasing order and never reused.
pub struct HandleTable {
    records: Vec<(u64, String)>,
    next_fh: u64,
}

impl View for HandleTable {
    type V = RecordsView;

    closed spec fn view(&self) -> RecordsView {
        records_view(self.records@)
    }
}

impl HandleTable {
    /// The handle that the next open gets.
    pub closed spec fn next(&self) -> u64 {
        self.next_fh
    }

    pub open spec fn wf(&self) -> bool {
        &&& numbers_distinct(self@)
        &&& self.next() >= 1
        &&& forall|i: int| 0 <= i < self@.len() ==> #[trigger] self@[i].0 < self.next()
    }

    pub fn new() -> (r: Self)
        ensures
            r.wf(),
            r@.len() == 0,
            r.next() == 1,
    {
        let r = HandleTable { records: Vec::new(), next_fh: 1 };
        assert(r@ =~= Seq::<(u64, Seq<char>)>::empty());
        r
    }

    /// The number of open handles.
    pub fn len(&self) -> (r: usize)
        ensures
            r == self@.len(),
    {
        self.records.len()
    }

    /// Whether a new handle can still be handed out.
    pub fn can_allocate(&self) -> (r: bool)
        ensures
            r == (self.next() < u64::MAX),
    {
        self.next_fh < u64::MAX
    }

    /// A new handle for `path`.
    pub fn allocate_fh(&mut self, path: &str) -> (r: u64)
        requires
            old(self).wf(),
            old(self).next() < u64::MAX,
        ensures
            final(self).wf(),
            r == old(self).next(),
            final(self)@ == old(self)@.push((r, path@)),
            final(self).next() == old(self).next() + 1,
    {
        let fh = self.next_fh;
        let ghost before = self@;
        self.records.push((fh, path.to_owned()));
        self.next_fh = fh + 1;
        proof {
            assert(self@ =~= before.push((fh, path@)));
            assert forall|a: int, b: int| 0 <= a < b < self@.len() implies self@[a].0 != self@[b].0 by {
                assert(self@[a] == before[a]);
                if b < before.len() {
                    assert(self@[b] == before[b]);
                }
            }
            assert forall|i: int| 0 <= i < self@.len() implies #[trigger] self@[i].0 < self.next() by {
                if i < before.len() {
                    assert(self@[i] == before[i]);
                }
            }
        }
        fh
    }

    /// The path that handle `fh` was opened on.
    pub fn get_path_from_fh(&self, fh: u64) -> (r: Option<String>)
        requires
            self.wf(),
        ensures
            r is Some <==> path_for(self@, fh) is Some,
            r matches Some(p) ==> p@ == path_for(self@, fh)->Some_0,
    {
        match find_number(&self.records, fh) {
            Some(i) => Some(self.records[i].1.clone()),
            None => None,
        }
    }

    /// Releases handle `fh`.
    pub fn release_fh(&mut self, fh: u64)
        requires
            old(self).wf(),
        ensures
            final(self).wf(),
            final(self).next() == old(self).next(),
            !has_number(final(self)@, fh),
            forall|i: int|
                0 <= i < old(self)@.len() && old(self)@[i].0 != fh ==> final(self)@.contains(
                    #[trigger] old(self)@[i],
                ),
            forall|i: int|
                0 <= i < final(self)@.len() ==> old(self)@.contains(#[trigger] final(self)@[i]),
    {
        let ghost before = self@;
        match find_number(&self.records, fh) {
            Some(i) => {
                self.records.remove(i);
                proof {
                    assert(self@ =~= before.remove(i as int));
                    assert forall|a: int, b: int| 0 <= a < b < self@.len() implies self@[a].0
                        != self@[b].0 by {
                        let sa = if a < i {
                            a
                        } else {
                            a + 1
                        };
                        let sb = if b < i {
                            b
                        } else {
                            b + 1
                        };
                        assert(self@[a] == before[sa]);
                        assert(self@[b] == before[sb]);
                    }
                    assert forall|j: int| 0 <= j < self@.len() implies #[trigger] self@[j].0
                        < self.next() by {
                        let sj = if j < i {
                            j
                        } else {
                            j + 1
                        };
                        assert(self@[j] == before[sj]);
                    }
                    assert forall|j: int| 0 <= j < before.len() && before[j].0 != fh implies self@.contains(
                        #[trigger] before[j],
                    ) by {
                        if j < i {
                            assert(self@[j] == before[j]);
                        } else {
                            assert(self@[j - 1] == before[j]);
                        }
                    }
                    assert forall|j: int| 0 <= j < self@.len() implies before.contains(
                        #[trigger] self@[j],
                    ) by {
                        let sj = if j < i {
                            j
                        } else {
                            j + 1
                        };
                        assert(self@[j] == before[sj]);
                    }
                    if has_number(self@, fh) {
                        let j = choose|j: int| 0 <= j < self@.len() && #[trigger] self@[j].0 == fh;
                        let sj = if j < i {
                            j
                        } else {
                            j + 1
                        };
                        assert(self@[j] == before[sj]);
                        if sj < i {
                            assert(before[sj].0 != before[i as int].0);
                        } else {
                            assert(before[i as int].0 != before[sj].0);
                        }
                    }
                }
            },
            None => {
                proof {
                    assert forall|j: int| 0 <= j < before.len() && before[j].0 != fh implies self@.contains(
                        #[trigger] before[j],
                    ) by {
                        assert(self@[j] == before[j]);
                    }
                    assert forall|j: int| 0 <= j < self@.len() implies before.contains(
                        #[trigger] self@[j],
                    ) by {
                        assert(self@[j] == before[j]);
                    }
                }
            },
        }
    }

    /// Releases every handle.
    pub fn clear(&mut self)
        requires
            old(self).wf(),
        ensures
            final(self).wf(),
            final(self)@.len() == 0,
            final(self).next() == old(self).next(),
    {
        self.records.clear();
        assert(self@ =~= Seq::<(u64, Seq<char>)>::empty());
    }
}

/// The kernel callbacks that the adapter serves.
#[derive(Clone, Copy, Debug, PartialEq, Eq, Structural)]
pub enum Operation {
    Lookup,
    Getattr,
    Mkdir,
    Create,
    Open,
    Read,
    Write,
    Release,
    Unlink,
    Rmdir,
    Readdir,
    Setattr,
}

/// The error codes that the adapter replies with.
#[derive(Clone, Copy, Debug, PartialEq, Eq, Structural)]
pub enum ReplyError {
    /// No such file or directory.
    NoEntry,
    /// Function not implemented; also the answer once the adapter stops.
    NotImplemented,
    /// No inode or file handle is left to hand out.
    NoSpace,
}

/// Callbacks refused once the adapter stops: lookups and every one that changes
/// something. Reads, opens, listings and releases still run, so that open handles
/// can drain.
pub open spec fn gated(op: Operation) -> bool {
    !(op is Read || op is Open || op is Readdir || op is Release)
}

/// A callback may run while the adapter runs, and ungated ones always.
pub open spec fn admitted(op: Operation, running: bool) -> bool {
    running || !gated(op)
}

/// Whether a callback may run, given whether the adapter is running.
pub fn admits(op: Operation, running: bool) -> (r: bool)
    ensures
        r == admitted(op, running),
{
    running || matches!(op, Operation::Read | Operation::Open | Operation::Readdir | Operation::Release)
}

/// The code that answers a callback whose store call failed with `e`. Lookups, stats,
/// opens, reads and writes answer `NoEntry` whatever the failure; the others answer
/// `NoEntry` for an absent path and `NotImplemented` otherwise.
pub open spec fn reply_code(op: Operation, e: FsError) -> ReplyError {
    if op is Lookup || op is Getattr || op is Open || op is Read || op is Write || op is Setattr
        || e is NotFound {
        ReplyError::NoEntry
    } else {
        ReplyError::NotImplemented
    }
}

/// The code that answers a callback whose store call failed with `e`.
pub fn reply_error(op: Operation, e: &FsError) -> (r: ReplyError)
    ensures
        r == reply_code(op, *e),
{
    match op {
        Operation::Lookup | Operation::Getattr | Operation::Open | Operation::Read | Operation::Write
        | Operation::Setattr => ReplyError::NoEntry,
        _ => match e {
            FsError::NotFound(_) => ReplyError::NoEntry,
            _ => ReplyError::NotImplemented,
        },
    }
}

/// The part `[start, end)` of a file of `len` bytes that a read of `size` bytes at
/// `offset` returns; none when `offset` is negative or not below `len`.
pub open spec fn read_window_of(len: nat, offset: int, size: nat) -> Option<(int, int)> {
    if offset < 0 || offset >= len {
        None
    } else if offset + size < len {
        Some((offset, offset + size))
    } else {
        Some((offset, len as int))
    }
}

/// The part of a file of `len` bytes that a read of `size` bytes at `offset` returns.
pub fn read_window(len: usize, offset: i64, size: u32) -> (r: Option<(usize, usize)>)
    ensures
        match read_window_of(len as nat, offset as int, size as nat) {
            Some((a, b)) => r matches Some((x, y)) && x == a && y == b,
            None => r is None,
        },
{
    if offset < 0 || offset as u64 >= len as u64 {
        return None;
    }
    let start = offset as usize;
    if (size as usize) < len - start {
        Some((start, start + size as usize))
    } else {
        Some((start, len))
    }
}

/// The bytes of `data` that a read of `size` bytes at `offset` returns.
pub fn read_reply(data: &Vec<u8>, offset: i64, size: u32) -> (r: Option<Vec<u8>>)
    ensures
        match read_window_of(data@.len(), offset as int, size as nat) {
            Some((a, b)) => r matches Some(v) && v@ == data@.subrange(a, b),
            None => r is None,
        },
{
    match read_window(data.len(), offset, size) {
        None => None,
        Some((start, end)) => {
            let mut out: Vec<u8> = Vec::new();
            let mut i: usize = start;
            while i < end
                invariant
                    start <= i <= end <= data@.len(),
                    out@ == data@.subrange(start as int, i as int),
                decreases end - i,
            {
                out.push(data[i]);
                assert(out@ =~= data@.subrange(start as int, i + 1));
                i += 1;
            }
            Some(out)
        },
    }
}

/// The kind of a directory entry.
#[derive(Clone, Copy, Debug, PartialEq, Eq, Structural)]
pub enum EntryKind {
    Directory,
    RegularFile,
}

/// One entry of a directory listing as the kernel receives it; `offset` is where
/// the next read of the listing resumes.
#[derive(Debug)]
pub struct DirEntry {
    pub ino: u64,
    pub offset: i64,
    pub kind: EntryKind,
    pub name: String,
}

/// The full listing of a directory: itself as `.` and `..`, then its children.
pub open spec fn full_listing(dir_ino: u64, children: Seq<(u64, EntryKind, String)>) -> Seq<
    (u64, EntryKind, Seq<char>),
> {
    seq![(dir_ino, EntryKind::Directory, "."@), (dir_ino, EntryKind::Directory, ".."@)]
        + children.map_values(|c: (u64, EntryKind, String)| (c.0, c.1, c.2@))
}

/// `r` is the full listing of directory `dir_ino` from position `offset` on (none
/// for an offset outside it), each entry with the position that follows it.
pub open spec fn listing_window(
    r: Seq<DirEntry>,
    dir_ino: u64,
    children: Seq<(u64, EntryKind, String)>,
    offset: i64,
) -> bool {
    let full = full_listing(dir_ino, children);
    let start = if offset < 0 || offset > full.len() {
        full.len() as int
    } else {
        offset as int
    };
    &&& r.len() == full.len() - start
    &&& forall|k: int|
        0 <= k < r.len() ==> (#[trigger] r[k]).ino == full[start + k].0 && r[k].kind == full[start
            + k].1 && r[k].name@ == full[start + k].2 && r[k].offset == start + k + 1
}

/// The entries of the listing of directory `dir_ino` from position `offset` on, each
/// with the position that follows it.
pub fn readdir_entries(dir_ino: u64, children: Vec<(u64, EntryKind, String)>, offset: i64) -> (r: Vec<
    DirEntry,
>)
    requires
        children@.len() < i64::MAX - 2,
    ensures
        listing_window(r@, dir_ino, children@, offset),
{
    let ghost full = full_listing(dir_ino, children@);
    let mut all: Vec<(u64, EntryKind, String)> = Vec::new();
    all.push((dir_ino, EntryKind::Directory, String::from_str(".")));
    all.push((dir_ino, EntryKind::Directory, String::from_str("..")));
    let mut more = children;
    let ghost kids = more@;
    all.append(&mut more);
    assert(all@.map_values(|c: (u64, EntryKind, String)| (c.0, c.1, c.2@)) =~= full);
    let total = all.len();
    let start: usize = if offset < 0 || offset as u64 > total as u64 {
        total
    } else {
        offset as usize
    };
    let mut r: Vec<DirEntry> = Vec::new();
    let mut i: usize = start;
    while i < total
        invariant
            start <= i <= total,
            total == all@.len(),
            total == full.len(),
            total < i64::MAX,
            all@.map_values(|c: (u64, EntryKind, String)| (c.0, c.1, c.2@)) == full,
            r@.len() == i - start,
            forall|k: int|
                0 <= k < r@.len() ==> (#[trigger] r@[k]).ino == full[start + k].0 && r@[k].kind
                    == full[start + k].1 && r@[k].name@ == full[start + k].2 && r@[k].offset
                    == start + k + 1,
        decreases total - i,
    {
        let entry = DirEntry {
            ino: all[i].0,
            offset: (i + 1) as i64,
            kind: all[i].1,
            name: all[i].2.clone(),
        };
        proof {
            assert(full[i as int] == (all@[i as int].0, all@[i as int].1, all@[i as int].2@));
        }
        r.push(entry);
        i += 1;
    }
    r
}

/// The attributes reported for an entry; times and owners are the host's own.
#[derive(Clone, Copy, Debug)]
pub struct FileAttributes {
    pub ino: u64,
    pub size: u64,
    /// Number of 512-byte blocks that `size` bytes need.
    pub blocks: u64,
    pub perm: u16,
    pub is_dir: bool,
    pub nlink: u32,
    pub blksize: u32,
}

/// The attributes of an entry of `size` bytes with permission bits `mode`.
pub open spec fn attributes(ino: u64, size: u64, mode: u32, is_dir: bool) -> FileAttributes {
    FileAttributes {
        ino,
        size,
        blocks: (size / 512 + if size % 512 == 0 {
            0int
        } else {
            1int
        }) as u64,
        perm: mode as u16,
        is_dir,
        nlink: 1,
        blksize: 512,
    }
}

/// The attributes of an entry of `size` bytes with permission bits `mode`.
pub fn make_file_attr(ino: u64, size: u64, mode: u32, is_dir: bool) -> (r: FileAttributes)
    ensures
        r == attributes(ino, size, mode, is_dir),
        r.ino == ino,
        r.size == size,
        r.blocks == size / 512 + if size % 512 == 0 {
            0int
        } else {
            1int
        },
        r.perm == mode as u16,
        r.is_dir == is_dir,
        r.nlink == 1,
        r.blksize == 512,
{
    let blocks = size / 512 + if size % 512 == 0 {
        0
    } else {
        1
    };
    FileAttributes { ino, size, blocks, perm: mode as u16, is_dir, nlink: 1, blksize: 512 }
}

/// The attributes of the root: an empty directory with mode 0o755.
pub fn root_attr() -> (r: FileAttributes)
    ensures
        r == attributes(ROOT_INO, 0, 0o755, true),
        r.ino == ROOT_INO,
        r.size == 0,
        r.blocks == 0,
        r.perm == 0o755,
        r.is_dir,
{
    make_file_attr(ROOT_INO, 0, 0o755, true)
}

/// A push of a record for a new path keeps the number of every other path.
pub proof fn lemma_number_for_push_keeps(s: RecordsView, k: u64, p: Seq<char>, q: Seq<char>)
    requires
        paths_distinct(s),
        !has_path(s, p),
        has_path(s, q),
    ensures
        number_for(s.push((k, p)), q) == number_for(s, q),
{
    let t = s.push((k, p));
    let i = choose|i: int| 0 <= i < s.len() && #[trigger] s[i].1 == q;
    assert(t[i] == s[i]);
    assert(has_path(t, q));
    let j = choose|j: int| 0 <= j < t.len() && #[trigger] t[j].1 == q;
    if j == s.len() {
        assert(t[j].1 == p);
    } else {
        assert(t[j] == s[j]);
        if i < j {
            assert(s[i].1 != s[j].1);
        } else if j < i {
            assert(s[j].1 != s[i].1);
        }
    }
}

/// After a push of a record for a path that had none, the path has the pushed number.
pub proof fn lemma_number_for_push(s: RecordsView, k: u64, p: Seq<char>)
    requires
        !has_path(s, p),
    ensures
        number_for(s.push((k, p)), p) == Some(k),
{
    let t = s.push((k, p));
    assert(t[s.len() as int].1 == p);
    let j = choose|j: int| 0 <= j < t.len() && #[trigger] t[j].1 == p;
    if j < s.len() {
        assert(t[j] == s[j]);
        assert(has_path(s, p));
    }
}

} // verus!
