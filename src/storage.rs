use vstd::prelude::*;

use crate::cache::{
    after_batch, after_move, after_set, batch_view, index_of_key, CacheView, lemma_lookup_after_set, lookup, count_location, has_key, stats_text, BatchView, CacheEntry,
    CacheStats, FileLocationCache, StorageLocation,
};
use crate::error::FsError;
use crate::fs::{
    dirs_without, files_without, holds, lists, removed_from, same_content, FileMetadata, FileSystem,
};
use crate::path::{
    file_name, final_name, is_metadata_name, is_name, join_path, joined, starts_with, within,
};

verus! {

/// A class of storage medium.
#[derive(Clone, Copy, Debug, PartialEq, Eq, Structural)]
pub enum StorageTier {
    /// Fast storage (SSD).
    Hot,
    /// Mixed storage.
    Warm,
    /// Bulk storage (HDD).
    Cold,
}

/// A minimal path-keyed store of whole files.
pub trait Storage {
    fn read(&self, path: &str) -> Result<Vec<u8>, FsError>;

    fn write(&mut self, path: &str, data: &[u8]) -> Result<(), FsError>;

    fn delete(&mut self, path: &str) -> Result<(), FsError>;

    fn contains(&self, path: &str) -> Result<bool, FsError>;
}

/// The tier where content of `size` bytes belongs: cold at or above the threshold.
pub open spec fn placement(size: int, threshold: u64) -> StorageLocation {
    if size >= threshold {
        StorageLocation::Cold
    } else {
        StorageLocation::Hot
    }
}

/// The tier where content of `size` bytes belongs.
pub fn tier_for_size(size: u64, threshold: u64) -> (r: StorageLocation)
    ensures
        r == placement(size as int, threshold),
{
    if size >= threshold {
        StorageLocation::Cold
    } else {
        StorageLocation::Hot
    }
}

/// Whether `name` is of the `._` family.
pub fn is_metadata_file_name(name: &str) -> (r: bool)
    ensures
        r == is_metadata_name(name@),
{
    let r = starts_with(name, "._");
    proof {
        reveal_strlit("._");
        if r {
            assert(name@[0] == name@.subrange(0, 2)[0]);
            assert(name@[1] == name@.subrange(0, 2)[1]);
        } else if is_metadata_name(name@) {
            assert(name@.subrange(0, 2) =~= "._"@);
        }
    }
    r
}

fn listed(v: &Vec<String>, name: &String) -> (r: bool)
    ensures
        r == lists(v@, name@),
{
    let mut i: usize = 0;
    while i < v.len()
        invariant
            0 <= i <= v@.len(),
            forall|j: int| 0 <= j < i ==> v@[j]@ != name@,
        decreases v@.len() - i,
    {
        if v[i] == *name {
            return true;
        }
        i += 1;
    }
    false
}

/// No name is listed twice.
pub open spec fn names_distinct(v: Seq<String>) -> bool {
    forall|i: int, j: int| 0 <= i < j < v.len() ==> v[i]@ != v[j]@
}

proof fn lemma_lists_push(v: Seq<String>, s: String, n: Seq<char>)
    ensures
        lists(v.push(s), n) <==> lists(v, n) || n == s@,
{
    let w = v.push(s);
    if lists(w, n) {
        let i = choose|i: int| 0 <= i < w.len() && #[trigger] w[i]@ == n;
        if i < v.len() {
            assert(v[i]@ == n);
        }
    }
    if lists(v, n) {
        let i = choose|i: int| 0 <= i < v.len() && #[trigger] v[i]@ == n;
        assert(w[i]@ == n);
    }
    if n == s@ {
        assert(w[v.len() as int]@ == n);
    }
}

/// Appends to `r` each name of `src` that it lacks, but for names of the `._` family.
fn add_names(start: Vec<String>, src: &Vec<String>) -> (r: Vec<String>)
    requires
        names_distinct(start@),
    ensures
        names_distinct(r@),
        forall|n: Seq<char>|
            #![trigger lists(r@, n)]
            lists(r@, n) <==> lists(start@, n) || (lists(src@, n) && !is_metadata_name(n)),
{
    let mut r = start;
    let ghost r0 = r@;
    let mut i: usize = 0;
    while i < src.len()
        invariant
            0 <= i <= src@.len(),
            names_distinct(r@),
            forall|n: Seq<char>|
                #![trigger lists(r@, n)]
                lists(r@, n) <==> lists(r0, n) || (lists(src@.take(i as int), n)
                    && !is_metadata_name(n)),
        decreases src@.len() - i,
    {
        let name = &src[i];
        let ghost before = r@;
        let meta = is_metadata_file_name(name.as_str());
        let present = listed(&r, name);
        if !meta && !present {
            r.push(name.clone());
            proof {
                assert(r@ == before.push(src@[i as int]));
                assert forall|a: int, b: int| 0 <= a < b < r@.len() implies r@[a]@ != r@[b]@ by {
                    if b == before.len() {
                        assert(r@[a] == before[a]);
                    } else {
                        assert(r@[a] == before[a]);
                        assert(r@[b] == before[b]);
                    }
                }
            }
        }
        proof {
            assert(src@.take(i + 1) =~= src@.take(i as int).push(src@[i as int]));
            assert forall|n: Seq<char>|
                #![trigger lists(r@, n)]
                lists(r@, n) <==> lists(r0, n) || (lists(src@.take(i + 1), n) && !is_metadata_name(
                    n,
                )) by {
                lemma_lists_push(src@.take(i as int), src@[i as int], n);
                lemma_lists_push(before, src@[i as int], n);
                assert(lists(before, n) <==> lists(r0, n) || (lists(src@.take(i as int), n)
                    && !is_metadata_name(n)));
                if !meta && !present {
                    assert(r@ == before.push(src@[i as int]));
                } else {
                    assert(r@ == before);
                    if n == src@[i as int]@ && !is_metadata_name(n) {
                        assert(lists(before, n));
                    }
                }
            }
        }
        i += 1;
    }
    assert(src@.take(i as int) =~= src@);
    r
}

/// The union of two listings, each name once, without names of the `._` family.
pub fn merge_listings(hot: &Vec<String>, cold: &Vec<String>) -> (r: Vec<String>)
    ensures
        names_distinct(r@),
        forall|n: Seq<char>|
            #![trigger lists(r@, n)]
            lists(r@, n) <==> (lists(hot@, n) || lists(cold@, n)) && !is_metadata_name(n),
{
    let mut r: Vec<String> = Vec::new();
    proof {
        assert forall|n: Seq<char>| !lists(r@, n) by {}
    }
    let r = add_names(r, hot);
    let r = add_names(r, cold);
    proof {
        assert forall|n: Seq<char>|
            lists(r@, n) <==> (lists(hot@, n) || lists(cold@, n)) && !is_metadata_name(n) by {
            assert(!lists(Seq::<String>::empty(), n));
        }
    }
    r
}

/// How long a location record stays fresh, in seconds.
pub const CACHE_TTL_SECS: u64 = 300;

/// How many location records the store keeps.
pub const CACHE_CAPACITY: usize = 10000;

/// A store over a hot and a cold backend. Files under the threshold live in the hot
/// one, the others in the cold one; directories live in the hot one. A cache of
/// locations spares probing both backends.
pub struct HybridStorage<B> {
    hot_storage: B,
    cold_storage: B,
    threshold: u64,
    cache: FileLocationCache,
}

/// `d` is the content of `p` in a tier that holds it as a file.
pub open spec fn read_gives<B: FileSystem>(s: HybridStorage<B>, p: Seq<char>, d: Seq<u8>) -> bool {
    (s.hot().files().contains_key(p) && s.hot().files()[p] == d) || (s.cold().files().contains_key(p)
        && s.cold().files()[p] == d)
}

pub open spec fn opt_view(o: Option<Vec<u8>>) -> Option<Seq<u8>> {
    match o {
        Some(v) => Some(v@),
        None => None,
    }
}

/// What a read decides: the bytes returned, if any; whether the cache record of the
/// path is dropped; the tier recorded afterwards, if any.
#[derive(Debug)]
pub struct ReadOutcome {
    pub data: Option<Vec<u8>>,
    pub drop_record: bool,
    pub record: Option<StorageLocation>,
}

/// The decision of a read, from the fresh cached tier (if any) and the bytes that
/// the read through it, the hot read and the cold read gave (`None` for a read that
/// failed or was not made). A hit through the cache is returned as it is. Otherwise
/// a cached record is dropped, and the hot bytes win over the cold ones; the tier
/// that served is recorded.
pub open spec fn settled(
    cached: Option<StorageLocation>,
    from_cache: Option<Seq<u8>>,
    from_hot: Option<Seq<u8>>,
    from_cold: Option<Seq<u8>>,
) -> (Option<Seq<u8>>, bool, Option<StorageLocation>) {
    if cached is Some && from_cache is Some {
        (from_cache, false, None)
    } else if from_hot is Some {
        (from_hot, cached is Some, Some(StorageLocation::Hot))
    } else if from_cold is Some {
        (from_cold, cached is Some, Some(StorageLocation::Cold))
    } else {
        (None, cached is Some, None)
    }
}

/// Decides a read from the answers it got.
pub fn settle_read(
    cached: Option<StorageLocation>,
    from_cache: Option<Vec<u8>>,
    from_hot: Option<Vec<u8>>,
    from_cold: Option<Vec<u8>>,
) -> (r: ReadOutcome)
    ensures
        (opt_view(r.data), r.drop_record, r.record) == settled(
            cached,
            opt_view(from_cache),
            opt_view(from_hot),
            opt_view(from_cold),
        ),
{
    let stale = cached.is_some();
    if stale && from_cache.is_some() {
        return ReadOutcome { data: from_cache, drop_record: false, record: None };
    }
    match from_hot {
        Some(d) => ReadOutcome { data: Some(d), drop_record: stale, record: Some(StorageLocation::Hot) },
        None => match from_cold {
            Some(d) => ReadOutcome {
                data: Some(d),
                drop_record: stale,
                record: Some(StorageLocation::Cold),
            },
            None => ReadOutcome { data: None, drop_record: stale, record: None },
        },
    }
}

/// The answers a read may have received for `p` from store `s`: a cached tier only
/// from a record of `p`, and bytes only as the tier read holds them.
pub open spec fn read_answers<B: FileSystem>(
    s: HybridStorage<B>,
    p: Seq<char>,
    cached: Option<StorageLocation>,
    from_cache: Option<Seq<u8>>,
    from_hot: Option<Seq<u8>>,
    from_cold: Option<Seq<u8>>,
) -> bool {
    &&& cached matches Some(l) ==> (lookup(s.locations()@, p) matches Some(e) && e.location == l)
    &&& from_cache matches Some(d) ==> (cached matches Some(l) && recorded_content(s, p, l, d))
    &&& from_hot matches Some(d) ==> s.hot().files().contains_key(p) && s.hot().files()[p] == d
    &&& from_cold matches Some(d) ==> s.cold().files().contains_key(p) && s.cold().files()[p] == d
}

/// The result and the cache after a read that decided `decision`: the record of
/// `p` dropped if so decided, then the serving tier recorded with the size read.
pub open spec fn read_applied<B: FileSystem>(
    before: HybridStorage<B>,
    after: HybridStorage<B>,
    p: Seq<char>,
    decision: (Option<Seq<u8>>, bool, Option<StorageLocation>),
    r: Result<Vec<u8>, FsError>,
) -> bool {
    &&& match decision.0 {
        Some(d) => r matches Ok(v) && v@ == d,
        None => r matches Err(e) && e is NotFound,
    }
    &&& if decision.2 is Some {
        exists|now: u64|
            after.locations()@ == #[trigger] after_set(
                kept_records(before.locations()@, p, decision.1),
                p,
                CacheEntry {
                    location: decision.2->Some_0,
                    last_accessed: now,
                    size: Some(decision.0->Some_0.len() as u64),
                },
                before.locations().capacity(),
            )
    } else {
        after.locations()@ == kept_records(before.locations()@, p, decision.1)
    }
}

/// The records of `s`, without that of `p` if `drop` is set.
pub open spec fn kept_records(s: CacheView, p: Seq<char>, drop: bool) -> CacheView {
    if drop && has_key(s, p) {
        s.remove(index_of_key(s, p))
    } else {
        s
    }
}

/// `d` is what tier `loc` holds at `p`; for `Both`, what either tier holds.
pub open spec fn recorded_content<B: FileSystem>(
    s: HybridStorage<B>,
    p: Seq<char>,
    loc: StorageLocation,
    d: Seq<u8>,
) -> bool {
    match loc {
        StorageLocation::Hot => s.hot().files().contains_key(p) && s.hot().files()[p] == d,
        StorageLocation::Cold => s.cold().files().contains_key(p) && s.cold().files()[p] == d,
        StorageLocation::Both => read_gives(s, p, d),
    }
}

/// Some tier holds a file at `p`, and every tier that does holds `d` there.
pub open spec fn content_is<B: FileSystem>(s: HybridStorage<B>, p: Seq<char>, d: Seq<u8>) -> bool {
    &&& s.hot().files().contains_key(p) || s.cold().files().contains_key(p)
    &&& s.hot().files().contains_key(p) ==> s.hot().files()[p] == d
    &&& s.cold().files().contains_key(p) ==> s.cold().files()[p] == d
}

/// What a read with no cache to guide it returns: the hot tier's file, else the cold one's.
pub open spec fn cold_start_read<B: FileSystem>(s: HybridStorage<B>, p: Seq<char>) -> Option<Seq<u8>> {
    if s.hot().files().contains_key(p) {
        Some(s.hot().files()[p])
    } else if s.cold().files().contains_key(p) {
        Some(s.cold().files()[p])
    } else {
        None
    }
}

/// Both stores keep their threshold and their cache's settings.
pub open spec fn same_settings<B: FileSystem>(a: HybridStorage<B>, b: HybridStorage<B>) -> bool {
    &&& a.limit() == b.limit()
    &&& a.locations().ttl() == b.locations().ttl()
    &&& a.locations().capacity() == b.locations().capacity()
}

/// The tiers after a write of `data` at `p` that succeeded: the tier that the size
/// selects holds the new content, and the other tier no longer holds `p` at all.
pub open spec fn write_done<B: FileSystem>(
    before: HybridStorage<B>,
    after: HybridStorage<B>,
    p: Seq<char>,
    data: Seq<u8>,
) -> bool {
    if placement(data.len() as int, before.limit()) == StorageLocation::Cold {
        &&& after.cold().files() == before.cold().files().insert(p, data)
        &&& !holds(after.hot(), p)
        &&& same_content(before.hot(), after.hot()) || removed_from(before.hot(), after.hot(), p)
    } else {
        &&& after.hot().files() == before.hot().files().insert(p, data)
        &&& !holds(after.cold(), p)
        &&& same_content(before.cold(), after.cold()) || removed_from(before.cold(), after.cold(), p)
    }
}

/// The tiers after a write of `data` at `p` that failed: the selected tier is as it
/// was; the other may have lost `p` already.
pub open spec fn write_failed<B: FileSystem>(
    before: HybridStorage<B>,
    after: HybridStorage<B>,
    p: Seq<char>,
    data: Seq<u8>,
) -> bool {
    if placement(data.len() as int, before.limit()) == StorageLocation::Cold {
        &&& same_content(before.cold(), after.cold())
        &&& same_content(before.hot(), after.hot()) || removed_from(before.hot(), after.hot(), p)
    } else {
        &&& same_content(before.hot(), after.hot())
        &&& same_content(before.cold(), after.cold()) || removed_from(before.cold(), after.cold(), p)
    }
}

/// What `m` says of `p` is true of store `fs`.
pub open spec fn stat_gives<B: FileSystem>(fs: B, p: Seq<char>, m: FileMetadata) -> bool {
    &&& m.is_dir ==> fs.dirs().contains(p) && !fs.files().contains_key(p)
    &&& !m.is_dir ==> fs.files().contains_key(p) && m.size == fs.files()[p].len()
}

/// `v` is a listing that tier `fs` may give of `dir`, as the backend interface
/// states it.
pub open spec fn tier_listing<F: FileSystem>(fs: F, dir: Seq<char>, v: Seq<String>) -> bool {
    &&& !fs.files().contains_key(dir) && !fs.dirs().contains(dir) ==> v.len() == 0
    &&& forall|i: int|
        0 <= i < v.len() ==> is_name(#[trigger] v[i]@) && (fs.files().contains_key(
            joined(dir, v[i]@),
        ) || fs.dirs().contains(joined(dir, v[i]@)))
    &&& forall|n: Seq<char>|
        is_name(n) && !is_metadata_name(n) && (fs.files().contains_key(#[trigger] joined(dir, n))
            || fs.dirs().contains(joined(dir, n))) ==> lists(v, n)
}

/// `v` is what the store may list for `dir`: each visible name held below `dir` in
/// either tier, once.
pub open spec fn listing_result<B: FileSystem>(s: HybridStorage<B>, dir: Seq<char>, v: Seq<String>) -> bool {
    &&& names_distinct(v)
    &&& forall|n: Seq<char>|
        #[trigger] lists(v, n) ==> is_name(n) && !is_metadata_name(n) && (holds(
            s.hot(),
            joined(dir, n),
        ) || holds(s.cold(), joined(dir, n)))
    &&& forall|n: Seq<char>|
        is_name(n) && !is_metadata_name(n) && (holds(s.hot(), #[trigger] joined(dir, n)) || holds(
            s.cold(),
            joined(dir, n),
        )) ==> lists(v, n)
    &&& !holds(s.hot(), dir) && !holds(s.cold(), dir) ==> v.len() == 0
}

/// An answer that a stat of `p` in tier `fs` may give; `None` for a failure.
pub open spec fn stat_answer<F: FileSystem>(fs: F, p: Seq<char>, a: Option<FileMetadata>) -> bool {
    a matches Some(m) ==> stat_gives(fs, p, m)
}

/// The metadata that a result carries, if any.
pub open spec fn answer_of(r: Result<FileMetadata, FsError>) -> Option<FileMetadata> {
    match r {
        Ok(m) => Some(m),
        Err(_) => None,
    }
}

/// The store's stat from the tiers' answers: the hot one's when it answered, else
/// the cold one's.
pub open spec fn preferred(hot: Option<FileMetadata>, cold: Option<FileMetadata>) -> Option<FileMetadata> {
    if hot is Some {
        hot
    } else {
        cold
    }
}

/// The migration that sizes and probes call for: from the tier that alone holds the
/// path to the tier that its size selects, if they differ.
pub open spec fn migration_plan(size: u64, hot_has: bool, cold_has: bool, threshold: u64) -> Option<
    (StorageLocation, StorageLocation),
> {
    let expected = placement(size as int, threshold);
    if hot_has && cold_has {
        None
    } else if hot_has {
        if expected == StorageLocation::Hot {
            None
        } else {
            Some((StorageLocation::Hot, StorageLocation::Cold))
        }
    } else if cold_has {
        if expected == StorageLocation::Cold {
            None
        } else {
            Some((StorageLocation::Cold, StorageLocation::Hot))
        }
    } else {
        None
    }
}

/// The migration, if any, that a file of `size` bytes needs, given which tiers hold it.
pub fn plan_migration(size: u64, hot_has: bool, cold_has: bool, threshold: u64) -> (r: Option<
    (StorageLocation, StorageLocation),
>)
    ensures
        r == migration_plan(size, hot_has, cold_has, threshold),
{
    let expected = tier_for_size(size, threshold);
    if hot_has && cold_has {
        None
    } else if hot_has {
        if expected == StorageLocation::Hot {
            None
        } else {
            Some((StorageLocation::Hot, StorageLocation::Cold))
        }
    } else if cold_has {
        if expected == StorageLocation::Cold {
            None
        } else {
            Some((StorageLocation::Cold, StorageLocation::Hot))
        }
    } else {
        None
    }
}

/// The migration that the answers to a stat and to the two probes call for: none
/// without a stat; a probe that failed counts as not holding the path.
pub open spec fn stepped(size: Option<u64>, hot_probe: Option<bool>, cold_probe: Option<bool>, threshold: u64) -> Option<
    (StorageLocation, StorageLocation),
> {
    match size {
        None => None,
        Some(n) => migration_plan(n, hot_probe == Some(true), cold_probe == Some(true), threshold),
    }
}

/// The migration, if any, that the answers to a stat and to the two probes call for.
pub fn migration_step(
    size: Option<u64>,
    hot_probe: Option<bool>,
    cold_probe: Option<bool>,
    threshold: u64,
) -> (r: Option<(StorageLocation, StorageLocation)>)
    ensures
        r == stepped(size, hot_probe, cold_probe, threshold),
{
    match size {
        None => None,
        Some(n) => {
            let hot_has = match hot_probe {
                Some(b) => b,
                None => false,
            };
            let cold_has = match cold_probe {
                Some(b) => b,
                None => false,
            };
            plan_migration(n, hot_has, cold_has, threshold)
        },
    }
}

/// The answers a migration may have received for `p` from store `s`.
pub open spec fn migrate_answers<B: FileSystem>(
    s: HybridStorage<B>,
    p: Seq<char>,
    stat: Option<FileMetadata>,
    hot_probe: Option<bool>,
    cold_probe: Option<bool>,
) -> bool {
    &&& stat matches Some(m) ==> (stat_gives(s.hot(), p, m) || stat_gives(s.cold(), p, m))
    &&& hot_probe matches Some(b) ==> b == holds(s.hot(), p)
    &&& cold_probe matches Some(b) ==> b == holds(s.cold(), p)
}

pub open spec fn size_of(stat: Option<FileMetadata>) -> Option<u64> {
    match stat {
        Some(m) => Some(m.size),
        None => None,
    }
}

/// Tier `from` holds a file at `p` whose length is `size` (`same`) or is not.
pub open spec fn source_length<B: FileSystem>(s: HybridStorage<B>, p: Seq<char>, from: StorageLocation, size: u64, same: bool) -> bool {
    if from == StorageLocation::Hot {
        s.hot().files().contains_key(p) && (s.hot().files()[p].len() == size) == same
    } else {
        s.cold().files().contains_key(p) && (s.cold().files()[p].len() == size) == same
    }
}

/// What a migration returns for the answers it got: nothing moves without a plan;
/// with one, `Ok(false)` never comes, a source file whose length differs from the
/// stat's size gives an error (`Metadata`, when its read succeeds), and a move took
/// content of the stat's length.
pub open spec fn migrate_decided<B: FileSystem>(
    before: HybridStorage<B>,
    after: HybridStorage<B>,
    p: Seq<char>,
    stat: Option<FileMetadata>,
    hot_probe: Option<bool>,
    cold_probe: Option<bool>,
    r: Result<bool, FsError>,
) -> bool {
    let plan = stepped(size_of(stat), hot_probe, cold_probe, before.limit());
    &&& plan is None ==> r == Ok::<bool, FsError>(false) && after == before
    &&& plan is Some ==> !(r == Ok::<bool, FsError>(false))
    &&& plan is Some && source_length(before, p, plan->Some_0.0, size_of(stat)->Some_0, false)
        ==> r is Err
    &&& r == Ok::<bool, FsError>(true) ==> plan is Some && source_length(
        before,
        p,
        plan->Some_0.0,
        size_of(stat)->Some_0,
        true,
    )
}

/// The tiers after a migration of `p` that took place: the file's content, read from
/// the tier that held it, now sits in the tier its size selects; the source tier has
/// lost `p`, unless that removal failed.
pub open spec fn migrated<B: FileSystem>(
    before: HybridStorage<B>,
    after: HybridStorage<B>,
    p: Seq<char>,
) -> bool {
    ||| {
        &&& before.hot().files().contains_key(p)
        &&& placement(before.hot().files()[p].len() as int, before.limit()) == StorageLocation::Cold
        &&& after.cold().files() == before.cold().files().insert(p, before.hot().files()[p])
        &&& same_content(before.hot(), after.hot()) || removed_from(before.hot(), after.hot(), p)
        &&& exists|now: u64|
            after.locations()@ == #[trigger] after_move(
                before.locations()@,
                p,
                StorageLocation::Hot,
                StorageLocation::Cold,
                now,
            )
    }
    ||| {
        &&& before.cold().files().contains_key(p)
        &&& placement(before.cold().files()[p].len() as int, before.limit()) == StorageLocation::Hot
        &&& after.hot().files() == before.hot().files().insert(p, before.cold().files()[p])
        &&& same_content(before.cold(), after.cold()) || removed_from(before.cold(), after.cold(), p)
        &&& exists|now: u64|
            after.locations()@ == #[trigger] after_move(
                before.locations()@,
                p,
                StorageLocation::Cold,
                StorageLocation::Hot,
                now,
            )
    }
}

/// The cache records for the names of a hot listing: `Hot` for each, in order, but
/// for names of the `._` family.
pub open spec fn hot_updates(dir: Seq<char>, hot: Seq<String>) -> BatchView
    decreases hot.len(),
{
    if hot.len() == 0 {
        Seq::empty()
    } else {
        let prev = hot_updates(dir, hot.drop_last());
        let n = hot.last()@;
        if is_metadata_name(n) {
            prev
        } else {
            prev.push((joined(dir, n), StorageLocation::Hot, None))
        }
    }
}

/// The cache records for the names of a cold listing: `Both` for a name that the hot
/// listing has too, `Cold` for the others, in order, but for names of the `._` family.
pub open spec fn cold_updates(dir: Seq<char>, hot: Seq<String>, cold: Seq<String>) -> BatchView
    decreases cold.len(),
{
    if cold.len() == 0 {
        Seq::empty()
    } else {
        let prev = cold_updates(dir, hot, cold.drop_last());
        let n = cold.last()@;
        if is_metadata_name(n) {
            prev
        } else {
            prev.push(
                (
                    joined(dir, n),
                    if lists(hot, n) {
                        StorageLocation::Both
                    } else {
                        StorageLocation::Cold
                    },
                    None,
                ),
            )
        }
    }
}

/// The cache records of a listing of `dir`: `Hot` for each name of the hot listing,
/// then, for each name of the cold listing, `Both` if the hot listing has it too and
/// `Cold` otherwise. Names of the `._` family are left out.
pub fn listing_updates(dir: &str, hot: &Vec<String>, cold: &Vec<String>) -> (r: Vec<
    (String, StorageLocation, Option<u64>),
>)
    ensures
        batch_view(r@) == hot_updates(dir@, hot@) + cold_updates(dir@, hot@, cold@),
{
    let mut r: Vec<(String, StorageLocation, Option<u64>)> = Vec::new();
    let mut i: usize = 0;
    assert(batch_view(r@) =~= hot_updates(dir@, hot@.take(0)));
    while i < hot.len()
        invariant
            0 <= i <= hot@.len(),
            batch_view(r@) == hot_updates(dir@, hot@.take(i as int)),
        decreases hot@.len() - i,
    {
        let name = &hot[i];
        let ghost before = r@;
        proof {
            assert(hot@.take(i + 1).drop_last() =~= hot@.take(i as int));
            assert(hot@.take(i + 1).last() == hot@[i as int]);
        }
        if !is_metadata_file_name(name.as_str()) {
            r.push((join_path(dir, name.as_str()), StorageLocation::Hot, None));
            assert(batch_view(r@) =~= batch_view(before).push(
                (joined(dir@, name@), StorageLocation::Hot, None),
            ));
        }
        i += 1;
    }
    assert(hot@.take(i as int) =~= hot@);
    let ghost hot_part = batch_view(r@);
    let mut j: usize = 0;
    assert(batch_view(r@) =~= hot_part + cold_updates(dir@, hot@, cold@.take(0)));
    while j < cold.len()
        invariant
            0 <= j <= cold@.len(),
            hot_part == hot_updates(dir@, hot@),
            batch_view(r@) == hot_part + cold_updates(dir@, hot@, cold@.take(j as int)),
        decreases cold@.len() - j,
    {
        let name = &cold[j];
        let ghost before = r@;
        proof {
            assert(cold@.take(j + 1).drop_last() =~= cold@.take(j as int));
            assert(cold@.take(j + 1).last() == cold@[j as int]);
        }
        if !is_metadata_file_name(name.as_str()) {
            let in_hot = listed(hot, name);
            let location = if in_hot {
                StorageLocation::Both
            } else {
                StorageLocation::Cold
            };
            r.push((join_path(dir, name.as_str()), location, None));
            assert(batch_view(r@) =~= batch_view(before).push((joined(dir@, name@), location, None)));
        }
        j += 1;
    }
    assert(cold@.take(j as int) =~= cold@);
    r
}

impl<B: FileSystem> HybridStorage<B> {
    pub closed spec fn hot(self) -> B {
        self.hot_storage
    }

    pub closed spec fn cold(self) -> B {
        self.cold_storage
    }

    /// Size in bytes at and above which a file belongs to the cold tier.
    pub closed spec fn limit(self) -> u64 {
        self.threshold
    }

    pub closed spec fn locations(self) -> FileLocationCache {
        self.cache
    }

    pub open spec fn wf(self) -> bool {
        self.locations().wf()
    }

    pub fn new(hot_storage: B, cold_storage: B, threshold: u64) -> (r: Self)
        ensures
            r.wf(),
            r.hot() == hot_storage,
            r.cold() == cold_storage,
            r.limit() == threshold,
            r.locations()@.len() == 0,
            r.locations().ttl() == CACHE_TTL_SECS,
            r.locations().capacity() == CACHE_CAPACITY,
    {
        HybridStorage {
            hot_storage,
            cold_storage,
            threshold,
            cache: FileLocationCache::new(CACHE_TTL_SECS, CACHE_CAPACITY),
        }
    }

    /// The cache's counts, as one line of text.
    pub fn cache_stats(&self) -> (r: String)
        requires
            self.wf(),
        ensures
            exists|stats: CacheStats|
                {
                    &&& #[trigger] stats_text(
                        stats.total as nat,
                        stats.hot as nat,
                        stats.cold as nat,
                        stats.both as nat,
                        stats.expired as nat,
                    ) == r@
                    &&& stats.total == self.locations()@.len()
                    &&& stats.hot == count_location(self.locations()@, StorageLocation::Hot)
                    &&& stats.cold == count_location(self.locations()@, StorageLocation::Cold)
                    &&& stats.both == count_location(self.locations()@, StorageLocation::Both)
                },
    {
        let stats = self.cache.stats();
        stats.describe()
    }

    /// Forgets every location record.
    pub fn clear_cache(&mut self)
        requires
            old(self).wf(),
        ensures
            final(self).wf(),
            same_settings(*old(self), *final(self)),
            final(self).hot() == old(self).hot(),
            final(self).cold() == old(self).cold(),
            final(self).locations()@.len() == 0,
    {
        self.cache.clear();
    }

    /// The hot backend.
    pub fn hot_tier(&self) -> (r: &B)
        ensures
            *r == self.hot(),
    {
        &self.hot_storage
    }

    /// The cold backend.
    pub fn cold_tier(&self) -> (r: &B)
        ensures
            *r == self.cold(),
    {
        &self.cold_storage
    }

    /// The threshold in bytes.
    pub fn threshold(&self) -> (r: u64)
        ensures
            r == self.limit(),
    {
        self.threshold
    }

    /// Reads the whole content of `path`: from the tier that the cache records, if
    /// its record is fresh and that read succeeds; else from the hot tier, then the
    /// cold one. `settle_read` decides from the answers received.
    pub fn read_file(&mut self, path: &str) -> (r: Result<Vec<u8>, FsError>)
        requires
            old(self).wf(),
        ensures
            final(self).wf(),
            same_settings(*old(self), *final(self)),
            final(self).hot() == old(self).hot(),
            final(self).cold() == old(self).cold(),
            r matches Ok(d) ==> read_gives(*old(self), path@, d@),
            r matches Ok(d) ==> (lookup(final(self).locations()@, path@) matches Some(e)
                && recorded_content(*old(self), path@, e.location, d@)),
            r matches Err(e) ==> e is NotFound,
            exists|
                cached: Option<StorageLocation>,
                from_cache: Option<Seq<u8>>,
                from_hot: Option<Seq<u8>>,
                from_cold: Option<Seq<u8>>,
            |
                #[trigger] read_answers(*old(self), path@, cached, from_cache, from_hot, from_cold)
                    && read_applied(
                    *old(self),
                    *final(self),
                    path@,
                    settled(cached, from_cache, from_hot, from_cold),
                    r,
                ),
    {
        let cached = self.cache.get(path);
        let from_cache: Option<Vec<u8>> = match cached {
            Some(location) => {
                let result = match location {
                    StorageLocation::Hot => self.hot_storage.read_file(path),
                    StorageLocation::Cold => self.cold_storage.read_file(path),
                    StorageLocation::Both => match self.hot_storage.read_file(path) {
                        Ok(data) => Ok(data),
                        Err(_) => self.cold_storage.read_file(path),
                    },
                };
                match result {
                    Ok(data) => Some(data),
                    Err(_) => None,
                }
            },
            None => None,
        };
        let hit = cached.is_some() && from_cache.is_some();
        let from_hot: Option<Vec<u8>> = if hit {
            None
        } else {
            match self.hot_storage.read_file(path) {
                Ok(data) => Some(data),
                Err(_) => None,
            }
        };
        let from_cold: Option<Vec<u8>> = if hit || from_hot.is_some() {
            None
        } else {
            match self.cold_storage.read_file(path) {
                Ok(data) => Some(data),
                Err(_) => None,
            }
        };
        let ghost answers = (
            cached,
            opt_view(from_cache),
            opt_view(from_hot),
            opt_view(from_cold),
        );
        assert(read_answers(*old(self), path@, answers.0, answers.1, answers.2, answers.3));
        let outcome = settle_read(cached, from_cache, from_hot, from_cold);
        let ghost before = self.cache@;
        assert(before == old(self).locations()@);
        if outcome.drop_record {
            self.cache.remove(path);
        }
        let ghost dropped = self.cache@;
        match outcome.data {
            Some(data) => {
                match outcome.record {
                    Some(location) => {
                        self.cache.set(path, location, Some(data.len() as u64));
                        proof {
                            let now = choose|now: u64|
                                self.cache@ == #[trigger] after_set(
                                    dropped,
                                    path@,
                                    CacheEntry {
                                        location,
                                        last_accessed: now,
                                        size: Some(data@.len() as u64),
                                    },
                                    self.cache.capacity(),
                                );
                            lemma_lookup_after_set(
                                dropped,
                                path@,
                                CacheEntry {
                                    location,
                                    last_accessed: now,
                                    size: Some(data@.len() as u64),
                                },
                                self.cache.capacity(),
                            );
                            let decision = settled(answers.0, answers.1, answers.2, answers.3);
                            assert(decision.0 == Some(data@));
                            assert(decision.2 == Some(location));
                            let c0 = kept_records(old(self).locations()@, path@, decision.1);
                            assert(dropped == c0);
                            assert(self.cache@ == after_set(
                                c0,
                                path@,
                                CacheEntry {
                                    location: location,
                                    last_accessed: now,
                                    size: Some(decision.0->Some_0.len() as u64),
                                },
                                old(self).locations().capacity(),
                            ));
                            assert(self.locations()@ == self.cache@);
                        }
                    },
                    None => {
                        proof {
                            let decision = settled(answers.0, answers.1, answers.2, answers.3);
                            assert(decision.1 == false);
                            assert(self.cache@ == before);
                            assert(decision.0 == Some(data@));
                        }
                    },
                }
                assert(read_applied(
                    *old(self),
                    *self,
                    path@,
                    settled(answers.0, answers.1, answers.2, answers.3),
                    Ok::<Vec<u8>, FsError>(data),
                ));
                Ok(data)
            },
            None => {
                let r = Err(FsError::NotFound(path.to_owned()));
                assert(read_applied(
                    *old(self),
                    *self,
                    path@,
                    settled(answers.0, answers.1, answers.2, answers.3),
                    r,
                ));
                r
            },
        }
    }

    /// Writes `data` as the whole content of `path`, in the tier that its size
    /// selects, after removing `path` from the other tier if it is there.
    pub fn write_file(&mut self, path: &str, data: &[u8]) -> (r: Result<(), FsError>)
        requires
            old(self).wf(),
        ensures
            final(self).wf(),
            same_settings(*old(self), *final(self)),
            r is Ok ==> write_done(*old(self), *final(self), path@, data@),
            r is Ok ==> exists|now: u64|
                final(self).locations()@ == #[trigger] after_set(
                    old(self).locations()@,
                    path@,
                    CacheEntry {
                        location: placement(data@.len() as int, old(self).limit()),
                        last_accessed: now,
                        size: Some(data@.len() as u64),
                    },
                    old(self).locations().capacity(),
                ),
            r is Err ==> write_failed(*old(self), *final(self), path@, data@),
            r is Err ==> final(self).locations() == old(self).locations(),
    {
        let size = data.len() as u64;
        let location = tier_for_size(size, self.threshold);
        let to_cold = location == StorageLocation::Cold;
        let present = if to_cold {
            self.hot_storage.path_exists(path)
        } else {
            self.cold_storage.path_exists(path)
        };
        match present {
            Err(e) => {
                return Err(e);
            },
            Ok(true) => {
                let removed = if to_cold {
                    self.hot_storage.delete(path)
                } else {
                    self.cold_storage.delete(path)
                };
                match removed {
                    Err(e) => {
                        return Err(e);
                    },
                    Ok(()) => {},
                }
            },
            Ok(false) => {},
        }
        let written = if to_cold {
            self.cold_storage.write_file(path, data)
        } else {
            self.hot_storage.write_file(path, data)
        };
        match written {
            Err(e) => {
                return Err(e);
            },
            Ok(()) => {},
        }
        self.cache.set(path, location, Some(size));
        Ok(())
    }

    /// What is held at `path`, from the hot tier if it answers, else from the cold
    /// one. Names of the `._` family are never found.
    pub fn get_metadata(&self, path: &str) -> (r: Result<FileMetadata, FsError>)
        ensures
            is_metadata_name(final_name(path@)) ==> (r matches Err(e) && e is NotFound),
            r matches Ok(m) ==> stat_gives(self.hot(), path@, m) || stat_gives(self.cold(), path@, m),
            !is_metadata_name(final_name(path@)) ==> exists|hot: Option<FileMetadata>, cold: Option<FileMetadata>|
                {
                    &&& stat_answer(self.hot(), path@, hot)
                    &&& stat_answer(self.cold(), path@, cold)
                    &&& answer_of(r) == #[trigger] preferred(hot, cold)
                },
    {
        let name = file_name(path);
        if is_metadata_file_name(name.as_str()) {
            return Err(FsError::NotFound(name));
        }
        match self.hot_storage.get_metadata(path) {
            Ok(m) => {
                assert(stat_answer(self.hot(), path@, Some(m)));
                assert(stat_answer(self.cold(), path@, None));
                assert(answer_of(Ok::<FileMetadata, FsError>(m)) == preferred(Some(m), None));
                Ok(m)
            },
            Err(_) => {
                let r = self.cold_storage.get_metadata(path);
                assert(stat_answer(self.hot(), path@, None));
                assert(stat_answer(self.cold(), path@, answer_of(r)));
                assert(answer_of(r) == preferred(None, answer_of(r)));
                r
            },
        }
    }

    /// The same as `get_metadata`.
    pub fn get_file_metadata(&self, path: &str) -> (r: Result<FileMetadata, FsError>)
        ensures
            is_metadata_name(final_name(path@)) ==> (r matches Err(e) && e is NotFound),
            r matches Ok(m) ==> stat_gives(self.hot(), path@, m) || stat_gives(self.cold(), path@, m),
            !is_metadata_name(final_name(path@)) ==> exists|hot: Option<FileMetadata>, cold: Option<FileMetadata>|
                {
                    &&& stat_answer(self.hot(), path@, hot)
                    &&& stat_answer(self.cold(), path@, cold)
                    &&& answer_of(r) == #[trigger] preferred(hot, cold)
                },
    {
        self.get_metadata(path)
    }

    /// The names in directory `path` over both tiers, each once, and records in the
    /// cache which tier holds each.
    pub fn list_directory(&mut self, path: &str) -> (r: Result<Vec<String>, FsError>)
        requires
            old(self).wf(),
        ensures
            final(self).wf(),
            same_settings(*old(self), *final(self)),
            final(self).hot() == old(self).hot(),
            final(self).cold() == old(self).cold(),
            r matches Ok(v) ==> listing_result(*old(self), path@, v@),
            r matches Ok(v) ==> exists|h: Seq<String>, c: Seq<String>, now: u64|
                {
                    &&& tier_listing(old(self).hot(), path@, h)
                    &&& tier_listing(old(self).cold(), path@, c)
                    &&& final(self).locations()@ == #[trigger] after_batch(
                        old(self).locations()@,
                        hot_updates(path@, h) + cold_updates(path@, h, c),
                        now,
                        old(self).locations().capacity(),
                    )
                },
            r is Err ==> final(self).locations() == old(self).locations(),
    {
        let hot_entries = match self.hot_storage.list_directory(path) {
            Ok(v) => v,
            Err(e) => {
                return Err(e);
            },
        };
        let cold_entries = match self.cold_storage.list_directory(path) {
            Ok(v) => v,
            Err(e) => {
                return Err(e);
            },
        };
        let updates = listing_updates(path, &hot_entries, &cold_entries);
        let ghost items = hot_updates(path@, hot_entries@) + cold_updates(
            path@,
            hot_entries@,
            cold_entries@,
        );
        let ghost before = self.cache@;
        let ghost cap = self.cache.capacity();
        if updates.len() > 0 {
            self.cache.batch_update(updates);
            proof {
                let now = choose|now: u64| self.cache@ == #[trigger] after_batch(before, items, now, cap);
                assert(self.cache@ == after_batch(before, items, now, cap));
            }
        } else {
            proof {
                assert(items.len() == 0);
                assert(self.cache@ == after_batch(before, items, 0, cap));
            }
        }
        let merged = merge_listings(&hot_entries, &cold_entries);
        proof {
            assert forall|n: Seq<char>| #[trigger] lists(merged@, n) implies is_name(n) && (holds(
                old(self).hot(),
                joined(path@, n),
            ) || holds(old(self).cold(), joined(path@, n))) by {
                if lists(hot_entries@, n) {
                    let i = choose|i: int| 0 <= i < hot_entries@.len() && #[trigger] hot_entries@[i]@ == n;
                    assert(is_name(hot_entries@[i]@));
                } else {
                    let i = choose|i: int| 0 <= i < cold_entries@.len() && #[trigger] cold_entries@[i]@ == n;
                    assert(is_name(cold_entries@[i]@));
                }
            }
            if merged@.len() > 0 {
                assert(lists(merged@, merged@[0]@));
            }
        }
        Ok(merged)
    }

    /// Creates an empty file at `path` in the hot tier.
    pub fn create_file(&mut self, path: &str) -> (r: Result<(), FsError>)
        requires
            old(self).wf(),
        ensures
            final(self).wf(),
            same_settings(*old(self), *final(self)),
            final(self).cold() == old(self).cold(),
            final(self).locations() == old(self).locations(),
            r is Ok ==> final(self).hot().files() == old(self).hot().files().insert(path@, Seq::empty()),
            r is Ok ==> old(self).hot().dirs().subset_of(final(self).hot().dirs()),
            r is Err ==> same_content(old(self).hot(), final(self).hot()),
    {
        self.hot_storage.create_file(path)
    }

    /// Creates directory `path` in the hot tier.
    pub fn create_directory(&mut self, path: &str) -> (r: Result<(), FsError>)
        requires
            old(self).wf(),
        ensures
            final(self).wf(),
            same_settings(*old(self), *final(self)),
            final(self).cold() == old(self).cold(),
            final(self).locations() == old(self).locations(),
            r is Ok ==> final(self).hot().files() == old(self).hot().files(),
            r is Ok ==> final(self).hot().dirs().contains(path@),
            r is Ok ==> old(self).hot().dirs().subset_of(final(self).hot().dirs()),
            r is Err ==> same_content(old(self).hot(), final(self).hot()),
    {
        self.hot_storage.create_directory(path)
    }

    /// Removes `path`, and what lies below it, from both tiers. It succeeds if
    /// either tier's removal does; the cache then forgets `path`.
    pub fn delete(&mut self, path: &str) -> (r: Result<(), FsError>)
        requires
            old(self).wf(),
        ensures
            final(self).wf(),
            same_settings(*old(self), *final(self)),
            removed_from(old(self).hot(), final(self).hot(), path@) || same_content(
                old(self).hot(),
                final(self).hot(),
            ),
            removed_from(old(self).cold(), final(self).cold(), path@) || same_content(
                old(self).cold(),
                final(self).cold(),
            ),
            r is Ok ==> removed_from(old(self).hot(), final(self).hot(), path@) || removed_from(
                old(self).cold(),
                final(self).cold(),
                path@,
            ),
            r is Ok ==> !has_key(final(self).locations()@, path@),
            r is Err ==> same_content(old(self).hot(), final(self).hot()) && same_content(
                old(self).cold(),
                final(self).cold(),
            ),
            r is Err ==> final(self).locations() == old(self).locations(),
    {
        let hot_result = self.hot_storage.delete(path);
        let cold_result = self.cold_storage.delete(path);
        if hot_result.is_ok() || cold_result.is_ok() {
            self.cache.remove(path);
        }
        match hot_result {
            Ok(()) => Ok(()),
            Err(e) => match cold_result {
                Ok(()) => Ok(()),
                Err(_) => Err(e),
            },
        }
    }

    /// Whether either tier holds `path`.
    pub fn path_exists(&self, path: &str) -> (r: Result<bool, FsError>)
        ensures
            r matches Ok(b) ==> b == (holds(self.hot(), path@) || holds(self.cold(), path@)),
    {
        match self.hot_storage.path_exists(path) {
            Err(e) => Err(e),
            Ok(true) => Ok(true),
            Ok(false) => self.cold_storage.path_exists(path),
        }
    }

    /// Moves `path` to the tier that its size selects, if exactly one tier holds it
    /// and that is the other one. Returns whether it moved. A tier that cannot be
    /// probed counts as not holding the path; the removal from the source tier is
    /// best-effort.
    pub fn migrate_file(&mut self, path: &str) -> (r: Result<bool, FsError>)
        requires
            old(self).wf(),
        ensures
            final(self).wf(),
            same_settings(*old(self), *final(self)),
            r matches Ok(true) ==> migrated(*old(self), *final(self), path@),
            r matches Ok(false) ==> *final(self) == *old(self),
            r is Err ==> same_content(old(self).hot(), final(self).hot()) && same_content(
                old(self).cold(),
                final(self).cold(),
            ),
            r is Err ==> final(self).locations() == old(self).locations(),
            exists|stat: Option<FileMetadata>, hot_probe: Option<bool>, cold_probe: Option<bool>|
                #[trigger] migrate_answers(*old(self), path@, stat, hot_probe, cold_probe)
                    && migrate_decided(*old(self), *final(self), path@, stat, hot_probe, cold_probe, r),
    {
        let stat = match self.get_metadata(path) {
            Ok(m) => Some(m),
            Err(_) => None,
        };
        let hot_probe = match self.hot_storage.path_exists(path) {
            Ok(b) => Some(b),
            Err(_) => None,
        };
        let cold_probe = match self.cold_storage.path_exists(path) {
            Ok(b) => Some(b),
            Err(_) => None,
        };
        assert(migrate_answers(*old(self), path@, stat, hot_probe, cold_probe));
        let size = match stat {
            Some(m) => Some(m.size),
            None => None,
        };
        let (from, to) = match migration_step(size, hot_probe, cold_probe, self.threshold) {
            Some(plan) => plan,
            None => {
                return Ok(false);
            },
        };
        let meta = match stat {
            Some(m) => m,
            None => {
                return Ok(false);
            },
        };
        let from_hot = from == StorageLocation::Hot;
        let data = if from_hot {
            self.hot_storage.read_file(path)
        } else {
            self.cold_storage.read_file(path)
        };
        let data = match data {
            Ok(d) => d,
            Err(e) => {
                return Err(e);
            },
        };
        if data.len() as u64 != meta.size {
            return Err(FsError::Metadata(path.to_owned()));
        }
        let written = if from_hot {
            self.cold_storage.write_file(path, data.as_slice())
        } else {
            self.hot_storage.write_file(path, data.as_slice())
        };
        match written {
            Err(e) => {
                return Err(e);
            },
            Ok(()) => {},
        }
        let _ = if from_hot {
            self.hot_storage.delete(path)
        } else {
            self.cold_storage.delete(path)
        };
        self.cache.move_location(path, from, to);
        Ok(true)
    }

    /// Migrates each entry of directory `path`, not descending into subdirectories.
    /// Returns how many entries were checked and how many moved.
    pub fn migrate_directory(&mut self, path: &str) -> (r: Result<(usize, usize), FsError>)
        requires
            old(self).wf(),
        ensures
            final(self).wf(),
            same_settings(*old(self), *final(self)),
            r matches Ok((checked, moved)) ==> moved <= checked,
            r matches Ok((checked, moved)) ==> exists|
                names: Seq<String>,
                states: Seq<HybridStorage<B>>,
                took: Seq<bool>,
            |
                #[trigger] migration_run(*old(self), *final(self), path@, names, states, took)
                    && checked == names.len() && moved == count_true(took),
    {
        let entries = match self.list_directory(path) {
            Ok(v) => v,
            Err(e) => {
                return Err(e);
            },
        };
        let ghost names = entries@;
        let ghost mut states: Seq<HybridStorage<B>> = seq![*self];
        let ghost mut took: Seq<bool> = Seq::empty();
        let mut checked: usize = 0;
        let mut moved: usize = 0;
        let mut i: usize = 0;
        while i < entries.len()
            invariant
                0 <= i <= entries@.len(),
                names == entries@,
                self.wf(),
                same_settings(*old(self), *self),
                listing_result(*old(self), path@, names),
                states.len() == i + 1,
                took.len() == i,
                states[0].hot() == old(self).hot(),
                states[0].cold() == old(self).cold(),
                states[i as int] == *self,
                forall|k: int| 0 <= k < i ==> #[trigger] migration_stage(states, names, took, path@, k),
                moved == count_true(took),
                moved <= checked,
                checked == i,
            decreases entries@.len() - i,
        {
            let entry_path = join_path(path, entries[i].as_str());
            checked += 1;
            let ghost before = *self;
            let outcome = self.migrate_file(entry_path.as_str());
            let moved_now = match outcome {
                Ok(b) => b,
                Err(e) => {
                    return Err(e);
                },
            };
            if moved_now {
                moved += 1;
            }
            proof {
                let st = states.push(*self);
                let tk = took.push(moved_now);
                assert(count_true(tk) == count_true(took) + if moved_now {
                    1int
                } else {
                    0int
                }) by {
                    assert(tk.drop_last() =~= took);
                }
                assert forall|k: int| 0 <= k < i + 1 implies #[trigger] migration_stage(
                    st,
                    names,
                    tk,
                    path@,
                    k,
                ) by {
                    if k < i {
                        assert(migration_stage(states, names, took, path@, k));
                        assert(st[k] == states[k] && st[k + 1] == states[k + 1] && tk[k] == took[k]);
                    } else {
                        assert(st[k] == before && st[k + 1] == *self && tk[k] == moved_now);
                    }
                }
                states = st;
                took = tk;
            }
            i += 1;
        }
        proof {
            assert(migration_run(*old(self), *self, path@, names, states, took));
        }
        Ok((checked, moved))
    }
}

/// The number of `true` in `s`.
pub open spec fn count_true(s: Seq<bool>) -> nat
    decreases s.len(),
{
    if s.len() == 0 {
        0
    } else {
        count_true(s.drop_last()) + if s.last() {
            1nat
        } else {
            0nat
        }
    }
}

/// Step `k` of a run over `names`: the `k`-th entry moved (`took[k]`) from
/// `states[k]` to `states[k + 1]`, or nothing changed.
pub open spec fn migration_stage<B: FileSystem>(
    states: Seq<HybridStorage<B>>,
    names: Seq<String>,
    took: Seq<bool>,
    dir: Seq<char>,
    k: int,
) -> bool {
    if took[k] {
        migrated(states[k], states[k + 1], joined(dir, names[k]@))
    } else {
        states[k + 1] == states[k]
    }
}

/// A migration of directory `dir` from `before` to `after`: `names` is its listing,
/// each entry migrated in turn through `states`, `took` saying which moved.
pub open spec fn migration_run<B: FileSystem>(
    before: HybridStorage<B>,
    after: HybridStorage<B>,
    dir: Seq<char>,
    names: Seq<String>,
    states: Seq<HybridStorage<B>>,
    took: Seq<bool>,
) -> bool {
    &&& listing_result(before, dir, names)
    &&& states.len() == names.len() + 1
    &&& took.len() == names.len()
    &&& states[0].hot() == before.hot()
    &&& states[0].cold() == before.cold()
    &&& states[names.len() as int] == after
    &&& forall|k: int| 0 <= k < names.len() ==> #[trigger] migration_stage(states, names, took, dir, k)
}

proof fn lemma_without_keeps(files: Map<Seq<char>, Seq<u8>>, dirs: Set<Seq<char>>, q: Seq<char>, p: Seq<char>)
    requires
        !within(p, q),
    ensures
        files_without(files, q).contains_key(p) == files.contains_key(p),
        files.contains_key(p) ==> files_without(files, q)[p] == files[p],
        dirs_without(dirs, q).contains(p) == dirs.contains(p),
{
}

proof fn lemma_without_drops(files: Map<Seq<char>, Seq<u8>>, dirs: Set<Seq<char>>, p: Seq<char>)
    ensures
        !files_without(files, p).contains_key(p),
        !dirs_without(dirs, p).contains(p),
{
}

/// After a write of `data` at `p` succeeds, exactly one tier holds `p`: the cold one
/// when `data` has at least the threshold's length, else the hot one.
pub proof fn lemma_write_places_once<B: FileSystem>(
    before: HybridStorage<B>,
    after: HybridStorage<B>,
    p: Seq<char>,
    data: Seq<u8>,
)
    requires
        write_done(before, after, p, data),
    ensures
        data.len() >= before.limit() ==> holds(after.cold(), p) && !holds(after.hot(), p),
        data.len() < before.limit() ==> holds(after.hot(), p) && !holds(after.cold(), p),
{
}

/// After a write of `data` at `p` succeeds, `data` is the content of `p`.
pub proof fn lemma_write_sets_content<B: FileSystem>(
    before: HybridStorage<B>,
    after: HybridStorage<B>,
    p: Seq<char>,
    data: Seq<u8>,
)
    requires
        write_done(before, after, p, data),
    ensures
        content_is(after, p, data),
{
}

/// A read of a path whose content is `d` returns `d`.
pub proof fn lemma_read_gives_content<B: FileSystem>(
    s: HybridStorage<B>,
    p: Seq<char>,
    d: Seq<u8>,
    got: Seq<u8>,
)
    requires
        content_is(s, p, d),
        read_gives(s, p, got),
    ensures
        got == d,
{
}

/// A read right after a successful write of `data` returns `data`.
pub proof fn lemma_read_after_write<B: FileSystem>(
    before: HybridStorage<B>,
    after: HybridStorage<B>,
    p: Seq<char>,
    data: Seq<u8>,
    got: Seq<u8>,
)
    requires
        write_done(before, after, p, data),
        read_gives(after, p, got),
    ensures
        got == data,
{
}

/// Of two successful writes at `p`, a read returns the second one's data, and only
/// the tier that its size selects holds `p`, whichever tier held the first.
pub proof fn lemma_second_write_wins<B: FileSystem>(
    s0: HybridStorage<B>,
    s1: HybridStorage<B>,
    s2: HybridStorage<B>,
    p: Seq<char>,
    first: Seq<u8>,
    second: Seq<u8>,
    got: Seq<u8>,
)
    requires
        write_done(s0, s1, p, first),
        write_done(s1, s2, p, second),
        read_gives(s2, p, got),
    ensures
        got == second,
        second.len() >= s1.limit() ==> holds(s2.cold(), p) && !holds(s2.hot(), p),
        second.len() < s1.limit() ==> holds(s2.hot(), p) && !holds(s2.cold(), p),
{
}

/// A write at another path `q`, successful or not, keeps the content of `p`,
/// unless `p` lies below `q` (the write may then remove a directory holding `p`).
pub proof fn lemma_write_elsewhere_keeps_content<B: FileSystem>(
    before: HybridStorage<B>,
    after: HybridStorage<B>,
    p: Seq<char>,
    d: Seq<u8>,
    q: Seq<char>,
    data: Seq<u8>,
)
    requires
        content_is(before, p, d),
        !within(p, q),
        write_done(before, after, q, data) || write_failed(before, after, q, data),
    ensures
        content_is(after, p, d),
{
    lemma_without_keeps(before.hot().files(), before.hot().dirs(), q, p);
    lemma_without_keeps(before.cold().files(), before.cold().dirs(), q, p);
}

/// A removal of a path `q` that `p` does not lie below keeps the content of `p`.
pub proof fn lemma_delete_elsewhere_keeps_content<B: FileSystem>(
    before: HybridStorage<B>,
    after: HybridStorage<B>,
    p: Seq<char>,
    d: Seq<u8>,
    q: Seq<char>,
)
    requires
        content_is(before, p, d),
        !within(p, q),
        removed_from(before.hot(), after.hot(), q) || same_content(before.hot(), after.hot()),
        removed_from(before.cold(), after.cold(), q) || same_content(before.cold(), after.cold()),
    ensures
        content_is(after, p, d),
{
    lemma_without_keeps(before.hot().files(), before.hot().dirs(), q, p);
    lemma_without_keeps(before.cold().files(), before.cold().dirs(), q, p);
}

/// Creating an empty file at another path, or a directory anywhere, keeps the
/// content of `p`.
pub proof fn lemma_create_keeps_content<B: FileSystem>(
    before: HybridStorage<B>,
    after: HybridStorage<B>,
    p: Seq<char>,
    d: Seq<u8>,
    q: Seq<char>,
)
    requires
        content_is(before, p, d),
        after.cold() == before.cold(),
        same_content(before.hot(), after.hot()) || after.hot().files() == before.hot().files()
            || (q != p && after.hot().files() == before.hot().files().insert(q, Seq::empty())),
    ensures
        content_is(after, p, d),
{
}

/// Migrating a path, `p` or another, keeps the content of `p`, unless `p` lies
/// strictly below the migrated path.
pub proof fn lemma_migrate_keeps_content<B: FileSystem>(
    before: HybridStorage<B>,
    after: HybridStorage<B>,
    p: Seq<char>,
    d: Seq<u8>,
    q: Seq<char>,
)
    requires
        content_is(before, p, d),
        q == p || !within(p, q),
        migrated(before, after, q) || (same_content(before.hot(), after.hot()) && same_content(
            before.cold(),
            after.cold(),
        )),
    ensures
        content_is(after, p, d),
{
    if q != p {
        lemma_without_keeps(before.hot().files(), before.hot().dirs(), q, p);
        lemma_without_keeps(before.cold().files(), before.cold().dirs(), q, p);
    }
}

/// Unless both tiers hold a file at `p`, what a read returns through the cache is what
/// a read without cache returns.
pub proof fn lemma_cached_read_agrees<B: FileSystem>(s: HybridStorage<B>, p: Seq<char>, got: Seq<u8>)
    requires
        !(s.hot().files().contains_key(p) && s.cold().files().contains_key(p)),
        read_gives(s, p, got),
    ensures
        cold_start_read(s, p) == Some(got),
{
}

/// After a directory is made at `p` and then removed, nothing is left at `p`, when
/// the cold tier did not hold `p` and the hot tier's removal took effect.
pub proof fn lemma_mkdir_then_delete<B: FileSystem>(
    s0: HybridStorage<B>,
    s1: HybridStorage<B>,
    s2: HybridStorage<B>,
    p: Seq<char>,
)
    requires
        !holds(s0.cold(), p),
        s1.cold() == s0.cold(),
        s1.hot().dirs().contains(p),
        removed_from(s1.hot(), s2.hot(), p),
        removed_from(s1.cold(), s2.cold(), p) || same_content(s1.cold(), s2.cold()),
    ensures
        !holds(s2.hot(), p),
        !holds(s2.cold(), p),
{
    lemma_without_drops(s1.hot().files(), s1.hot().dirs(), p);
    lemma_without_drops(s1.cold().files(), s1.cold().dirs(), p);
}

/// After a migration of `p` took place, probing again finds nothing to migrate: the
/// decision taken from exact probes and from what a stat of `p` reports is to stay.
pub proof fn lemma_migration_settles<B: FileSystem>(
    before: HybridStorage<B>,
    after: HybridStorage<B>,
    p: Seq<char>,
    m: FileMetadata,
)
    requires
        migrated(before, after, p),
        after.limit() == before.limit(),
        stat_gives(after.hot(), p, m) || stat_gives(after.cold(), p, m),
    ensures
        migration_plan(m.size, holds(after.hot(), p), holds(after.cold(), p), after.limit()) is None,
{
    lemma_without_drops(before.hot().files(), before.hot().dirs(), p);
    lemma_without_drops(before.cold().files(), before.cold().dirs(), p);
}

} // verus!
