use vstd::prelude::*;

use crate::clock::now_ms;

verus! {

/// Which tier, or tiers, hold a path.
#[derive(Clone, Copy, Debug, PartialEq, Eq, Structural)]
pub enum StorageLocation {
    Hot,
    Cold,
    /// Present in both tiers at once (after an interrupted run, or a race).
    Both,
}

/// What the cache records of one path. `last_accessed` is in milliseconds
/// since the Unix epoch.
#[derive(Clone, Copy, Debug)]
pub struct CacheEntry {
    pub location: StorageLocation,
    pub last_accessed: u64,
    pub size: Option<u64>,
}

/// The abstract content of a cache: its records in storage order, keyed by path.
pub type CacheView = Seq<(Seq<char>, CacheEntry)>;

/// A batch of records to insert, as `batch_update` receives it.
pub type BatchView = Seq<(Seq<char>, StorageLocation, Option<u64>)>;

pub open spec fn key_at(s: CacheView, p: Seq<char>, i: int) -> bool {
    0 <= i < s.len() && s[i].0 == p
}

pub open spec fn has_key(s: CacheView, p: Seq<char>) -> bool {
    exists|i: int| #[trigger] key_at(s, p, i)
}

/// No path is recorded twice.
pub open spec fn keys_unique(s: CacheView) -> bool {
    forall|i: int, j: int|
        0 <= i < s.len() && 0 <= j < s.len() && #[trigger] s[i].0 == #[trigger] s[j].0 ==> i == j
}

/// The index at which `p` is recorded (meaningful where `has_key(s, p)`).
pub open spec fn index_of_key(s: CacheView, p: Seq<char>) -> int {
    choose|i: int| key_at(s, p, i)
}

/// The record of `p`, if any.
pub open spec fn lookup(s: CacheView, p: Seq<char>) -> Option<CacheEntry> {
    if has_key(s, p) {
        Some(s[index_of_key(s, p)].1)
    } else {
        None
    }
}

/// A record is fresh at `now` when less than the TTL has elapsed since its last access.
/// A record from the future (the clock moved back) is neither fresh nor expired.
pub open spec fn is_fresh(e: CacheEntry, now: u64, ttl_secs: u64) -> bool {
    e.last_accessed <= now && now - e.last_accessed < ttl_secs * 1000
}

pub open spec fn is_expired(e: CacheEntry, now: u64, ttl_secs: u64) -> bool {
    e.last_accessed <= now && now - e.last_accessed >= ttl_secs * 1000
}

/// `v` is the first of the records with the oldest access time.
pub open spec fn is_oldest(s: CacheView, v: int) -> bool {
    &&& 0 <= v < s.len()
    &&& forall|j: int| 0 <= j < s.len() ==> s[v].1.last_accessed <= #[trigger] s[j].1.last_accessed
    &&& forall|j: int| 0 <= j < v ==> s[v].1.last_accessed < #[trigger] s[j].1.last_accessed
}

pub open spec fn oldest_index(s: CacheView) -> int {
    choose|v: int| is_oldest(s, v)
}

/// The content after `set`: an existing record is replaced in place; a new path is
/// appended, first evicting the oldest record when the cache is at capacity.
pub open spec fn after_set(s: CacheView, p: Seq<char>, e: CacheEntry, cap: nat) -> CacheView {
    if has_key(s, p) {
        s.update(index_of_key(s, p), (p, e))
    } else if s.len() < cap || s.len() == 0 {
        s.push((p, e))
    } else {
        s.remove(oldest_index(s)).push((p, e))
    }
}

/// The content after one item of `batch_update`: like `set`, but a new path is
/// skipped when the cache is at capacity.
pub open spec fn after_fill(s: CacheView, p: Seq<char>, e: CacheEntry, cap: nat) -> CacheView {
    if has_key(s, p) {
        s.update(index_of_key(s, p), (p, e))
    } else if s.len() < cap {
        s.push((p, e))
    } else {
        s
    }
}

pub open spec fn after_batch(s: CacheView, items: BatchView, now: u64, cap: nat) -> CacheView
    decreases items.len(),
{
    if items.len() == 0 {
        s
    } else {
        let last = items.last();
        after_fill(
            after_batch(s, items.drop_last(), now, cap),
            last.0,
            CacheEntry { location: last.1, last_accessed: now, size: last.2 },
            cap,
        )
    }
}

/// The content after `move_location`: the record changes tier, and is touched, only
/// when it currently records `from`.
pub open spec fn after_move(
    s: CacheView,
    p: Seq<char>,
    from: StorageLocation,
    to: StorageLocation,
    now: u64,
) -> CacheView {
    if has_key(s, p) && s[index_of_key(s, p)].1.location == from {
        let old_entry = s[index_of_key(s, p)].1;
        s.update(
            index_of_key(s, p),
            (p, CacheEntry { location: to, last_accessed: now, size: old_entry.size }),
        )
    } else {
        s
    }
}

pub open spec fn count_location(s: CacheView, loc: StorageLocation) -> nat
    decreases s.len(),
{
    if s.len() == 0 {
        0
    } else {
        count_location(s.drop_last(), loc) + if s.last().1.location == loc {
            1nat
        } else {
            0nat
        }
    }
}

pub open spec fn count_expired(s: CacheView, now: u64, ttl_secs: u64) -> nat
    decreases s.len(),
{
    if s.len() == 0 {
        0
    } else {
        count_expired(s.drop_last(), now, ttl_secs) + if is_expired(s.last().1, now, ttl_secs) {
            1nat
        } else {
            0nat
        }
    }
}

/// Counts of the records of a cache.
#[derive(Debug)]
pub struct CacheStats {
    pub total: usize,
    pub hot: usize,
    pub cold: usize,
    pub both: usize,
    pub expired: usize,
}

/// The decimal digit `d`.
pub open spec fn digit_char(d: nat) -> char {
    if d == 0 {
        '0'
    } else if d == 1 {
        '1'
    } else if d == 2 {
        '2'
    } else if d == 3 {
        '3'
    } else if d == 4 {
        '4'
    } else if d == 5 {
        '5'
    } else if d == 6 {
        '6'
    } else if d == 7 {
        '7'
    } else if d == 8 {
        '8'
    } else {
        '9'
    }
}

/// `n` written in decimal, without leading zeros.
pub open spec fn decimal(n: nat) -> Seq<char>
    decreases n,
{
    if n >= 10 {
        decimal(n / 10).push(digit_char(n % 10))
    } else {
        seq![digit_char(n)]
    }
}

fn digit_str(d: u64) -> (r: &'static str)
    requires
        d < 10,
    ensures
        r@ == seq![digit_char(d as nat)],
{
    proof {
        reveal_strlit("0");
        reveal_strlit("1");
        reveal_strlit("2");
        reveal_strlit("3");
        reveal_strlit("4");
        reveal_strlit("5");
        reveal_strlit("6");
        reveal_strlit("7");
        reveal_strlit("8");
        reveal_strlit("9");
    }
    let r = if d == 0 {
        "0"
    } else if d == 1 {
        "1"
    } else if d == 2 {
        "2"
    } else if d == 3 {
        "3"
    } else if d == 4 {
        "4"
    } else if d == 5 {
        "5"
    } else if d == 6 {
        "6"
    } else if d == 7 {
        "7"
    } else if d == 8 {
        "8"
    } else {
        "9"
    };
    assert(r@ =~= seq![digit_char(d as nat)]);
    r
}

/// `n` in decimal.
pub fn decimal_string(n: u64) -> (r: String)
    ensures
        r@ == decimal(n as nat),
    decreases n,
{
    let mut r = if n >= 10 {
        decimal_string(n / 10)
    } else {
        String::new()
    };
    r.append(digit_str(n % 10));
    proof {
        if n < 10 {
            assert(r@ =~= decimal(n as nat));
        }
    }
    r
}

/// The text `describe` gives for the given counts.
pub open spec fn stats_text(total: nat, hot: nat, cold: nat, both: nat, expired: nat) -> Seq<char> {
    "cache: total="@ + decimal(total) + ", hot="@ + decimal(hot) + ", cold="@ + decimal(cold)
        + ", both="@ + decimal(both) + ", expired="@ + decimal(expired)
}

impl CacheStats {
    /// One line with every count.
    pub fn describe(&self) -> (r: String)
        ensures
            r@ == stats_text(
                self.total as nat,
                self.hot as nat,
                self.cold as nat,
                self.both as nat,
                self.expired as nat,
            ),
    {
        let mut r = String::from_str("cache: total=");
        r.append(decimal_string(self.total as u64).as_str());
        r.append(", hot=");
        r.append(decimal_string(self.hot as u64).as_str());
        r.append(", cold=");
        r.append(decimal_string(self.cold as u64).as_str());
        r.append(", both=");
        r.append(decimal_string(self.both as u64).as_str());
        r.append(", expired=");
        r.append(decimal_string(self.expired as u64).as_str());
        r
    }
}

/// A bounded cache from paths to the tier that holds them, with a time to live.
pub struct FileLocationCache {
    entries: Vec<(String, CacheEntry)>,
    ttl_secs: u64,
    max_entries: usize,
}

impl View for FileLocationCache {
    type V = CacheView;

    closed spec fn view(&self) -> CacheView {
        self.entries@.map_values(|e: (String, CacheEntry)| (e.0@, e.1))
    }
}

impl FileLocationCache {
    pub closed spec fn ttl(&self) -> u64 {
        self.ttl_secs
    }

    pub closed spec fn capacity(&self) -> nat {
        self.max_entries as nat
    }

    pub open spec fn wf(&self) -> bool {
        keys_unique(self@)
    }

    pub fn new(ttl_seconds: u64, max_entries: usize) -> (r: Self)
        ensures
            r.wf(),
            r@ == Seq::<(Seq<char>, CacheEntry)>::empty(),
            r.ttl() == ttl_seconds,
            r.capacity() == max_entries,
    {
        let r = FileLocationCache { entries: Vec::new(), ttl_secs: ttl_seconds, max_entries };
        assert(r@ =~= Seq::<(Seq<char>, CacheEntry)>::empty());
        r
    }

    /// The time to live, in seconds.
    pub fn ttl_seconds(&self) -> (r: u64)
        ensures
            r == self.ttl(),
    {
        self.ttl_secs
    }

    /// The most records the cache holds after a `set` of a new path.
    pub fn max_entries(&self) -> (r: usize)
        ensures
            r == self.capacity(),
    {
        self.max_entries
    }

    /// The number of records.
    pub fn len(&self) -> (r: usize)
        ensures
            r == self@.len(),
    {
        self.entries.len()
    }

    fn find(&self, key: &String) -> (r: Option<usize>)
        requires
            self.wf(),
        ensures
            match r {
                Some(i) => key_at(self@, key@, i as int) && index_of_key(self@, key@) == i,
                None => !has_key(self@, key@),
            },
    {
        let mut i: usize = 0;
        while i < self.entries.len()
            invariant
                0 <= i <= self.entries@.len(),
                self.wf(),
                forall|j: int| 0 <= j < i ==> self@[j].0 != key@,
            decreases self.entries@.len() - i,
        {
            if self.entries[i].0 == *key {
                proof {
                    assert(key_at(self@, key@, i as int));
                    let c = index_of_key(self@, key@);
                    assert(key_at(self@, key@, c));
                    assert(self@[c].0 == self@[i as int].0);
                }
                return Some(i);
            }
            i += 1;
        }
        proof {
            assert forall|j: int| !key_at(self@, key@, j) by {
                if 0 <= j < self@.len() {
                    assert(self@[j].0 != key@);
                }
            }
        }
        None
    }

    fn oldest(&self) -> (v: usize)
        requires
            self@.len() > 0,
        ensures
            is_oldest(self@, v as int),
            oldest_index(self@) == v,
    {
        let mut v: usize = 0;
        let mut i: usize = 1;
        while i < self.entries.len()
            invariant
                self@.len() > 0,
                1 <= i <= self@.len(),
                0 <= v < i,
                forall|j: int| 0 <= j < i ==> self@[v as int].1.last_accessed <= #[trigger] self@[j].1.last_accessed,
                forall|j: int| 0 <= j < v ==> self@[v as int].1.last_accessed < #[trigger] self@[j].1.last_accessed,
            decreases self@.len() - i,
        {
            if self.entries[i].1.last_accessed < self.entries[v].1.last_accessed {
                v = i;
            }
            i += 1;
        }
        proof {
            assert(is_oldest(self@, v as int));
            let c = oldest_index(self@);
            assert(is_oldest(self@, c));
            if c < v {
                assert(self@[v as int].1.last_accessed < self@[c].1.last_accessed);
            } else if v < c {
                assert(self@[c].1.last_accessed < self@[v as int].1.last_accessed);
            }
        }
        v
    }

    /// The tier recorded for `path`, if its record is fresh at time `now`.
    pub fn get_at(&self, path: &str, now: u64) -> (r: Option<StorageLocation>)
        requires
            self.wf(),
        ensures
            r == (match lookup(self@, path@) {
                Some(e) => if is_fresh(e, now, self.ttl()) {
                    Some(e.location)
                } else {
                    None
                },
                None => None,
            }),
    {
        let key = path.to_owned();
        match self.find(&key) {
            Some(i) => {
                let e = self.entries[i].1;
                if e.last_accessed <= now && ((now - e.last_accessed) as u128) < (self.ttl_secs
                    as u128) * 1000 {
                    Some(e.location)
                } else {
                    None
                }
            },
            None => None,
        }
    }

    /// The tier recorded for `path`, if its record is fresh now.
    pub fn get(&self, path: &str) -> (r: Option<StorageLocation>)
        requires
            self.wf(),
        ensures
            r matches Some(l) ==> lookup(self@, path@) matches Some(e) && e.location == l,
            lookup(self@, path@) is None ==> r is None,
    {
        self.get_at(path, now_ms())
    }

    /// Records `location` for `path`, accessed at `now`.
    pub fn set_at(&mut self, path: &str, location: StorageLocation, size: Option<u64>, now: u64)
        requires
            old(self).wf(),
        ensures
            final(self).wf(),
            final(self).ttl() == old(self).ttl(),
            final(self).capacity() == old(self).capacity(),
            final(self)@ == after_set(
                old(self)@,
                path@,
                CacheEntry { location, last_accessed: now, size },
                old(self).capacity(),
            ),
    {
        let key = path.to_owned();
        let entry = CacheEntry { location, last_accessed: now, size };
        let ghost s = self@;
        match self.find(&key) {
            Some(i) => {
                self.entries.set(i, (key, entry));
                assert(self@ =~= s.update(i as int, (path@, entry)));
                proof {
                    lemma_update_same_key(s, i as int, entry);
                }
            },
            None => {
                if self.entries.len() >= self.max_entries && self.entries.len() > 0 {
                    let v = self.oldest();
                    self.entries.remove(v);
                    assert(self@ =~= s.remove(v as int));
                    proof {
                        lemma_remove_keeps_unique(s, v as int);
                    }
                }
                let ghost before_push = self@;
                self.entries.push((key, entry));
                assert(self@ =~= before_push.push((path@, entry)));
                proof {
                    lemma_push_new_key(before_push, path@, entry);
                }
            },
        }
    }

    /// Records `location` for `path`, accessed now.
    pub fn set(&mut self, path: &str, location: StorageLocation, size: Option<u64>)
        requires
            old(self).wf(),
        ensures
            final(self).wf(),
            final(self).ttl() == old(self).ttl(),
            final(self).capacity() == old(self).capacity(),
            exists|now: u64|
                final(self)@ == after_set(
                    old(self)@,
                    path@,
                    CacheEntry { location, last_accessed: now, size },
                    old(self).capacity(),
                ),
    {
        let now = now_ms();
        self.set_at(path, location, size, now);
    }

    /// Drops the record of `path`, if any.
    pub fn remove(&mut self, path: &str)
        requires
            old(self).wf(),
        ensures
            final(self).wf(),
            final(self).ttl() == old(self).ttl(),
            final(self).capacity() == old(self).capacity(),
            final(self)@ == (if has_key(old(self)@, path@) {
                old(self)@.remove(index_of_key(old(self)@, path@))
            } else {
                old(self)@
            }),
            !has_key(final(self)@, path@),
    {
        let key = path.to_owned();
        let ghost s = self@;
        match self.find(&key) {
            Some(i) => {
                self.entries.remove(i);
                assert(self@ =~= s.remove(i as int));
                proof {
                    lemma_remove_keeps_unique(s, i as int);
                    if has_key(self@, path@) {
                        let j = index_of_key(self@, path@);
                        assert(key_at(self@, path@, j));
                        if j < i {
                            assert(self@[j] == s[j]);
                        } else {
                            assert(self@[j] == s[j + 1]);
                        }
                    }
                }
            },
            None => {},
        }
    }

    /// Drops every record.
    pub fn clear(&mut self)
        ensures
            final(self).wf(),
            final(self).ttl() == old(self).ttl(),
            final(self).capacity() == old(self).capacity(),
            final(self)@ == Seq::<(Seq<char>, CacheEntry)>::empty(),
    {
        self.entries.clear();
        assert(self@ =~= Seq::<(Seq<char>, CacheEntry)>::empty());
    }

    /// Counts of the records by tier, and of those expired at `now`.
    pub fn stats_at(&self, now: u64) -> (r: CacheStats)
        ensures
            r.total == self@.len(),
            r.hot == count_location(self@, StorageLocation::Hot),
            r.cold == count_location(self@, StorageLocation::Cold),
            r.both == count_location(self@, StorageLocation::Both),
            r.expired == count_expired(self@, now, self.ttl()),
    {
        let mut hot: usize = 0;
        let mut cold: usize = 0;
        let mut both: usize = 0;
        let mut expired: usize = 0;
        let mut i: usize = 0;
        while i < self.entries.len()
            invariant
                0 <= i <= self@.len(),
                hot == count_location(self@.take(i as int), StorageLocation::Hot),
                cold == count_location(self@.take(i as int), StorageLocation::Cold),
                both == count_location(self@.take(i as int), StorageLocation::Both),
                expired == count_expired(self@.take(i as int), now, self.ttl()),
                hot <= i && cold <= i && both <= i && expired <= i,
            decreases self@.len() - i,
        {
            let e = self.entries[i].1;
            assert(self@.take(i as int + 1).drop_last() =~= self@.take(i as int));
            match e.location {
                StorageLocation::Hot => hot += 1,
                StorageLocation::Cold => cold += 1,
                StorageLocation::Both => both += 1,
            }
            if e.last_accessed <= now && ((now - e.last_accessed) as u128) >= (self.ttl_secs
                as u128) * 1000 {
                expired += 1;
            }
            i += 1;
        }
        assert(self@.take(i as int) =~= self@);
        CacheStats { total: self.entries.len(), hot, cold, both, expired }
    }

    /// Counts of the records by tier, and of those expired now.
    pub fn stats(&self) -> (r: CacheStats)
        ensures
            r.total == self@.len(),
            r.hot == count_location(self@, StorageLocation::Hot),
            r.cold == count_location(self@, StorageLocation::Cold),
            r.both == count_location(self@, StorageLocation::Both),
            exists|now: u64| r.expired == count_expired(self@, now, self.ttl()),
    {
        self.stats_at(now_ms())
    }

    /// Records each item, accessed at `now`, in order; a new path is skipped once the
    /// cache is at capacity.
    pub fn batch_update_at(
        &mut self,
        entries: Vec<(String, StorageLocation, Option<u64>)>,
        now: u64,
    )
        requires
            old(self).wf(),
        ensures
            final(self).wf(),
            final(self).ttl() == old(self).ttl(),
            final(self).capacity() == old(self).capacity(),
            final(self)@ == after_batch(old(self)@, batch_view(entries@), now, old(self).capacity()),
    {
        let ghost s0 = self@;
        let mut i: usize = 0;
        while i < entries.len()
            invariant
                0 <= i <= entries@.len(),
                self.wf(),
                self.ttl() == old(self).ttl(),
                self.capacity() == old(self).capacity(),
                self@ == after_batch(s0, batch_view(entries@).take(i as int), now, self.capacity()),
            decreases entries@.len() - i,
        {
            let key = entries[i].0.clone();
            let location = entries[i].1;
            let size = entries[i].2;
            let entry = CacheEntry { location, last_accessed: now, size };
            let ghost s = self@;
            proof {
                let items = batch_view(entries@).take(i as int + 1);
                assert(items.drop_last() =~= batch_view(entries@).take(i as int));
                assert(items.last() == (key@, location, size));
            }
            match self.find(&key) {
                Some(j) => {
                    self.entries.set(j, (key, entry));
                    assert(self@ =~= s.update(j as int, (s[j as int].0, entry)));
                    proof {
                        lemma_update_same_key(s, j as int, entry);
                    }
                },
                None => {
                    if self.entries.len() < self.max_entries {
                        let ghost k = key@;
                        self.entries.push((key, entry));
                        assert(self@ =~= s.push((k, entry)));
                        proof {
                            lemma_push_new_key(s, k, entry);
                        }
                    }
                },
            }
            i += 1;
        }
        assert(batch_view(entries@).take(i as int) =~= batch_view(entries@));
    }

    /// Records each item, accessed now, in order; a new path is skipped once the
    /// cache is at capacity.
    pub fn batch_update(&mut self, entries: Vec<(String, StorageLocation, Option<u64>)>)
        requires
            old(self).wf(),
        ensures
            final(self).wf(),
            final(self).ttl() == old(self).ttl(),
            final(self).capacity() == old(self).capacity(),
            exists|now: u64|
                final(self)@ == after_batch(
                    old(self)@,
                    batch_view(entries@),
                    now,
                    old(self).capacity(),
                ),
    {
        let now = now_ms();
        self.batch_update_at(entries, now);
    }

    /// Moves the record of `path` from tier `from` to tier `to`, touching it at
    /// `now`; nothing changes unless the record currently says `from`.
    pub fn move_location_at(
        &mut self,
        path: &str,
        from: StorageLocation,
        to: StorageLocation,
        now: u64,
    )
        requires
            old(self).wf(),
        ensures
            final(self).wf(),
            final(self).ttl() == old(self).ttl(),
            final(self).capacity() == old(self).capacity(),
            final(self)@ == after_move(old(self)@, path@, from, to, now),
    {
        let key = path.to_owned();
        let ghost s = self@;
        match self.find(&key) {
            Some(i) => {
                let e = self.entries[i].1;
                if e.location == from {
                    let entry = CacheEntry { location: to, last_accessed: now, size: e.size };
                    self.entries.set(i, (key, entry));
                    assert(self@ =~= s.update(i as int, (path@, entry)));
                    proof {
                        lemma_update_same_key(s, i as int, entry);
                    }
                }
            },
            None => {},
        }
    }

    /// Moves the record of `path` from tier `from` to tier `to`, touching it now;
    /// nothing changes unless the record currently says `from`.
    pub fn move_location(&mut self, path: &str, from: StorageLocation, to: StorageLocation)
        requires
            old(self).wf(),
        ensures
            final(self).wf(),
            final(self).ttl() == old(self).ttl(),
            final(self).capacity() == old(self).capacity(),
            exists|now: u64| final(self)@ == after_move(old(self)@, path@, from, to, now),
    {
        let now = now_ms();
        self.move_location_at(path, from, to, now);
    }
}

pub open spec fn batch_view(v: Seq<(String, StorageLocation, Option<u64>)>) -> BatchView {
    v.map_values(|t: (String, StorageLocation, Option<u64>)| (t.0@, t.1, t.2))
}

proof fn lemma_update_same_key(s: CacheView, i: int, e: CacheEntry)
    requires
        keys_unique(s),
        0 <= i < s.len(),
    ensures
        keys_unique(s.update(i, (s[i].0, e))),
{
    let t = s.update(i, (s[i].0, e));
    assert forall|a: int, b: int|
        0 <= a < t.len() && 0 <= b < t.len() && #[trigger] t[a].0 == #[trigger] t[b].0 implies a
        == b by {
        assert(t[a].0 == s[a].0);
        assert(t[b].0 == s[b].0);
    }
}

proof fn lemma_remove_keeps_unique(s: CacheView, v: int)
    requires
        keys_unique(s),
        0 <= v < s.len(),
    ensures
        keys_unique(s.remove(v)),
        forall|p: Seq<char>| !has_key(s, p) ==> !has_key(#[trigger] s.remove(v), p),
{
    let t = s.remove(v);
    assert forall|a: int, b: int|
        0 <= a < t.len() && 0 <= b < t.len() && #[trigger] t[a].0 == #[trigger] t[b].0 implies a
        == b by {
        let sa = if a < v {
            a
        } else {
            a + 1
        };
        let sb = if b < v {
            b
        } else {
            b + 1
        };
        assert(t[a] == s[sa]);
        assert(t[b] == s[sb]);
    }
    assert forall|p: Seq<char>| !has_key(s, p) implies !has_key(#[trigger] s.remove(v), p) by {
        if has_key(t, p) {
            let j = index_of_key(t, p);
            assert(key_at(t, p, j));
            if j < v {
                assert(key_at(s, p, j));
            } else {
                assert(key_at(s, p, j + 1));
            }
        }
    }
}

proof fn lemma_push_new_key(s: CacheView, p: Seq<char>, e: CacheEntry)
    requires
        keys_unique(s),
        !has_key(s, p),
    ensures
        keys_unique(s.push((p, e))),
{
    let t = s.push((p, e));
    assert forall|a: int, b: int|
        0 <= a < t.len() && 0 <= b < t.len() && #[trigger] t[a].0 == #[trigger] t[b].0 implies a
        == b by {
        if a < s.len() && b < s.len() {
            assert(t[a] == s[a]);
            assert(t[b] == s[b]);
        } else if a < s.len() {
            assert(t[a] == s[a]);
            assert(key_at(s, p, a));
        } else if b < s.len() {
            assert(t[b] == s[b]);
            assert(key_at(s, p, b));
        }
    }
}

proof fn lemma_oldest_exists(s: CacheView)
    requires
        s.len() > 0,
    ensures
        is_oldest(s, oldest_index(s)),
    decreases s.len(),
{
    if s.len() == 1 {
        assert(is_oldest(s, 0));
    } else {
        let t = s.drop_last();
        lemma_oldest_exists(t);
        let v = oldest_index(t);
        let last = s.len() - 1;
        if s[last].1.last_accessed < t[v].1.last_accessed {
            assert forall|j: int| 0 <= j < s.len() implies s[last].1.last_accessed
                <= #[trigger] s[j].1.last_accessed by {
                if j < last {
                    assert(s[j] == t[j]);
                }
            }
            assert forall|j: int| 0 <= j < last implies s[last].1.last_accessed
                < #[trigger] s[j].1.last_accessed by {
                assert(s[j] == t[j]);
            }
            assert(is_oldest(s, last));
        } else {
            assert forall|j: int| 0 <= j < s.len() implies s[v].1.last_accessed
                <= #[trigger] s[j].1.last_accessed by {
                if j < last {
                    assert(s[j] == t[j]);
                }
            }
            assert forall|j: int| 0 <= j < v implies s[v].1.last_accessed
                < #[trigger] s[j].1.last_accessed by {
                assert(s[j] == t[j]);
            }
            assert(is_oldest(s, v));
        }
    }
}

/// Recording a new path in a full cache keeps its size at the capacity: the new path
/// is in, and the record with the oldest access is out.
pub proof fn lemma_eviction_at_capacity(s: CacheView, p: Seq<char>, e: CacheEntry, cap: nat)
    requires
        keys_unique(s),
        cap > 0,
        s.len() == cap,
        !has_key(s, p),
    ensures
        after_set(s, p, e, cap).len() == cap,
        has_key(after_set(s, p, e, cap), p),
        !has_key(after_set(s, p, e, cap), s[oldest_index(s)].0),
        keys_unique(after_set(s, p, e, cap)),
{
    lemma_oldest_exists(s);
    let v = oldest_index(s);
    let gone = s[v].0;
    let t = s.remove(v);
    let r = t.push((p, e));
    assert(after_set(s, p, e, cap) == r);
    assert(key_at(r, p, cap - 1));
    assert(!has_key(t, gone)) by {
        if has_key(t, gone) {
            let j = choose|j: int| key_at(t, gone, j);
            if j < v {
                assert(t[j] == s[j]);
            } else {
                assert(t[j] == s[j + 1]);
            }
        }
    }
    assert(!has_key(r, gone)) by {
        if has_key(r, gone) {
            let j = choose|j: int| key_at(r, gone, j);
            if j < t.len() {
                assert(key_at(t, gone, j));
            } else {
                assert(key_at(s, p, v));
            }
        }
    }
    lemma_remove_keeps_unique(s, v);
    lemma_push_new_key(t, p, e);
}

/// A record is fresh until the time to live has fully elapsed since its access, and
/// not from that moment on.
pub proof fn lemma_ttl_boundary(e: CacheEntry, ttl_secs: u64)
    requires
        ttl_secs > 0,
        e.last_accessed + ttl_secs * 1000 <= u64::MAX,
    ensures
        is_fresh(e, e.last_accessed, ttl_secs),
        is_fresh(e, (e.last_accessed + ttl_secs * 1000 - 1) as u64, ttl_secs),
        !is_fresh(e, (e.last_accessed + ttl_secs * 1000) as u64, ttl_secs),
        is_expired(e, (e.last_accessed + ttl_secs * 1000) as u64, ttl_secs),
{
}

/// After `set`, the cache records exactly the entry just given for the path.
pub proof fn lemma_lookup_after_set(s: CacheView, p: Seq<char>, e: CacheEntry, cap: nat)
    requires
        keys_unique(after_set(s, p, e, cap)),
    ensures
        lookup(after_set(s, p, e, cap), p) == Some(e),
{
    let r = after_set(s, p, e, cap);
    let k = if has_key(s, p) {
        index_of_key(s, p)
    } else {
        r.len() - 1
    };
    if has_key(s, p) {
        assert(key_at(s, p, index_of_key(s, p)));
    } else if s.len() < cap || s.len() == 0 {
    } else {
        lemma_oldest_exists(s);
    }
    assert(key_at(r, p, k));
    let c = index_of_key(r, p);
    assert(key_at(r, p, c));
    assert(r[c].0 == r[k].0);
}

} // verus!
