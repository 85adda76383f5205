use vstd::prelude::*;

use crate::cache::{decimal, decimal_string};
use crate::path::{join_path, joined};

verus! {

/// A lock older than this many seconds is taken to be left over.
pub const STALE_AFTER_SECS: u64 = 86400;

/// The mode a locked backend directory gets: its owner alone may enter.
pub const LOCKED_DIR_MODE: u32 = 0o700;

/// The mode a directory gets back when its earlier mode is unknown.
pub const DEFAULT_DIR_MODE: u32 = 0o755;

/// What a lock file records of the process that holds it. Times are in seconds
/// since the Unix epoch.
#[derive(Debug)]
pub struct LockInfo {
    pub pid: u32,
    pub start_time: u64,
    pub hostname: String,
    pub created_at: u64,
    pub version: String,
}

/// The lock file of backend directory `dir`.
pub fn lock_file_path(dir: &str) -> (r: String)
    ensures
        r@ == joined(dir@, ".rhss.lock"@),
{
    join_path(dir, ".rhss.lock")
}

/// Seconds elapsed between `created_at` and `now`; 0 for a time still to come.
pub open spec fn age_of(created_at: u64, now: u64) -> nat {
    if now >= created_at {
        (now - created_at) as nat
    } else {
        0
    }
}

pub fn lock_age(created_at: u64, now: u64) -> (r: u64)
    ensures
        r == age_of(created_at, now),
{
    if now >= created_at {
        now - created_at
    } else {
        0
    }
}

/// A lock file may be removed before locking: when it cannot be read, when its
/// process is gone, or when it is older than a day.
pub open spec fn stale(info: Option<(u32, u64)>, pid_alive: bool, now: u64) -> bool {
    match info {
        None => true,
        Some((_pid, created_at)) => !pid_alive || age_of(created_at, now) > STALE_AFTER_SECS,
    }
}

/// Whether a lock file found in place is left over. `info` is what it holds, if it
/// could be read; `pid_alive` whether its process still runs on this host.
pub fn lock_is_stale(info: Option<&LockInfo>, pid_alive: bool, now: u64) -> (r: bool)
    ensures
        r == stale(
            match info {
                Some(i) => Some((i.pid, i.created_at)),
                None => None,
            },
            pid_alive,
            now,
        ),
{
    match info {
        None => true,
        Some(i) => !pid_alive || lock_age(i.created_at, now) > STALE_AFTER_SECS,
    }
}

/// Whether the lock file, as read, belongs to process `pid`.
pub fn owns_lock(info: Option<&LockInfo>, pid: u32) -> (r: bool)
    ensures
        r == (info matches Some(i) && i.pid == pid),
{
    match info {
        Some(i) => i.pid == pid,
        None => false,
    }
}

/// The mode that a backend directory gets back on release.
pub fn mode_to_restore(prior: Option<u32>) -> (r: u32)
    ensures
        r == match prior {
            Some(m) => m,
            None => DEFAULT_DIR_MODE,
        },
{
    match prior {
        Some(m) => m,
        None => DEFAULT_DIR_MODE,
    }
}

/// The message for a lock held by another process.
pub open spec fn conflict_text(pid: u32, hostname: Seq<char>, age: nat, lock_file: Seq<char>) -> Seq<
    char,
> {
    "storage directories are locked by PID "@ + decimal(pid as nat) + " @ "@ + hostname
        + ", locked "@ + decimal(age) + " seconds ago; lock file: "@ + lock_file
        + ". If that process has exited, remove the lock file or start with --force"@
}

/// The message for a lock held by another process, naming it, its host and the
/// lock's age.
pub fn conflict_message(info: &LockInfo, now: u64, lock_file: &str) -> (r: String)
    ensures
        r@ == conflict_text(info.pid, info.hostname@, age_of(info.created_at, now), lock_file@),
{
    let mut r = String::from_str("storage directories are locked by PID ");
    r.append(decimal_string(info.pid as u64).as_str());
    r.append(" @ ");
    r.append(info.hostname.as_str());
    r.append(", locked ");
    r.append(decimal_string(lock_age(info.created_at, now)).as_str());
    r.append(" seconds ago; lock file: ");
    r.append(lock_file);
    r.append(". If that process has exited, remove the lock file or start with --force");
    r
}

/// The message for a lock whose content cannot be read.
pub fn unreadable_lock_message(lock_file: &str) -> (r: String)
    ensures
        r@ == "storage directories are locked, but the lock cannot be read: "@ + lock_file@,
{
    let mut r = String::from_str("storage directories are locked, but the lock cannot be read: ");
    r.append(lock_file);
    r
}

/// A lock file that names a live process and is at most a day old is never removed
/// as left over: a second instance that finds it cannot take the lock.
pub proof fn lemma_live_lock_kept(pid: u32, created_at: u64, now: u64)
    requires
        age_of(created_at, now) <= STALE_AFTER_SECS,
    ensures
        !stale(Some((pid, created_at)), true, now),
        stale(Some((pid, created_at)), false, now),
        stale(None, true, now),
{
}

/// How many backend directories a lock covers: the hot one, then the cold one.
pub const LOCKED_DIRS: usize = 2;

/// Where taking the lock stands.
#[derive(Clone, Copy, Debug, PartialEq, Eq, Structural)]
pub enum LockPhase {
    /// Reading what the lock file of directory `i` holds.
    Inspecting(usize),
    /// Creating the lock file of directory `i`, exclusively.
    Creating(usize),
    /// Both lock files exist; restricting the directories' modes.
    Restricting,
    /// The lock is held.
    Locked,
    /// Another process holds the lock, or a lock file could not be made.
    Refused,
}

/// The process that a readable lock file names, and when it took the lock.
#[derive(Clone, Copy, Debug, PartialEq, Eq, Structural)]
pub struct LockHolder {
    pub pid: u32,
    pub created_at: u64,
}

/// What the host reports while the lock is taken.
#[derive(Clone, Copy, Debug, PartialEq, Eq, Structural)]
pub enum LockEvent {
    /// The lock file in place: none, one that cannot be read (`Some(None)`), or one
    /// naming a process and its creation time; whether that process runs; the time.
    Found(Option<Option<LockHolder>>, bool, u64),
    /// The exclusive creation succeeded and the lock record was written.
    Created,
    /// The exclusive creation found a lock file in place.
    AlreadyHeld,
    /// The creation failed otherwise.
    CreateFailed,
    /// The directories' modes were restricted.
    Restricted,
}

/// What the host is to do next, in order.
#[derive(Clone, Copy, Debug, PartialEq, Eq, Structural)]
pub enum LockAction {
    /// Read the lock file of directory `i`, then report `Found`.
    Inspect(usize),
    /// Remove the left-over lock file of directory `i`.
    Remove(usize),
    /// Create the lock file of directory `i` exclusively and write the record.
    Create(usize),
    /// Restrict both directories to their owner, remembering their modes.
    RestrictDirs,
    /// Fail, naming the holder of the lock file of directory `i`.
    ReportHeld(usize),
    /// Fail: the lock file of directory `i` could not be made.
    ReportFailure(usize),
}

/// A lock file found in place is removed before the creation when it is left over.
pub open spec fn found_stale(found: Option<Option<LockHolder>>, alive: bool, now: u64) -> bool {
    match found {
        None => false,
        Some(None) => stale(None, alive, now),
        Some(Some(h)) => stale(Some((h.pid, h.created_at)), alive, now),
    }
}

/// The phase after `event` in `phase`; an event that the phase does not wait for
/// changes nothing.
pub open spec fn lock_next(phase: LockPhase, event: LockEvent) -> LockPhase {
    match (phase, event) {
        (LockPhase::Inspecting(i), LockEvent::Found(_, _, _)) => LockPhase::Creating(i),
        (LockPhase::Creating(i), LockEvent::Created) => if i + 1 < LOCKED_DIRS {
            LockPhase::Inspecting((i + 1) as usize)
        } else {
            LockPhase::Restricting
        },
        (LockPhase::Creating(_), LockEvent::AlreadyHeld) => LockPhase::Refused,
        (LockPhase::Creating(_), LockEvent::CreateFailed) => LockPhase::Refused,
        (LockPhase::Restricting, LockEvent::Restricted) => LockPhase::Locked,
        _ => phase,
    }
}

/// The actions that go with the step from `phase` on `event`.
pub open spec fn lock_actions(phase: LockPhase, event: LockEvent) -> Seq<LockAction> {
    match (phase, event) {
        (LockPhase::Inspecting(i), LockEvent::Found(found, alive, now)) => if found_stale(
            found,
            alive,
            now,
        ) {
            seq![LockAction::Remove(i), LockAction::Create(i)]
        } else {
            seq![LockAction::Create(i)]
        },
        (LockPhase::Creating(i), LockEvent::Created) => if i + 1 < LOCKED_DIRS {
            seq![LockAction::Inspect((i + 1) as usize)]
        } else {
            seq![LockAction::RestrictDirs]
        },
        (LockPhase::Creating(i), LockEvent::AlreadyHeld) => seq![LockAction::ReportHeld(i)],
        (LockPhase::Creating(i), LockEvent::CreateFailed) => seq![LockAction::ReportFailure(i)],
        _ => Seq::empty(),
    }
}

/// The directory index of a phase stays below the number of directories.
pub open spec fn lock_phase_ok(phase: LockPhase) -> bool {
    match phase {
        LockPhase::Inspecting(i) => i < LOCKED_DIRS,
        LockPhase::Creating(i) => i < LOCKED_DIRS,
        _ => true,
    }
}

/// The first step of taking the lock: inspect the hot directory's lock file.
pub fn lock_start() -> (r: (LockPhase, Vec<LockAction>))
    ensures
        r.0 == LockPhase::Inspecting(0),
        r.1@ == seq![LockAction::Inspect(0)],
{
    let mut actions: Vec<LockAction> = Vec::new();
    actions.push(LockAction::Inspect(0));
    assert(actions@ =~= seq![LockAction::Inspect(0)]);
    (LockPhase::Inspecting(0), actions)
}

/// One step of taking the lock: the next phase and what to do.
pub fn lock_step(phase: LockPhase, event: LockEvent) -> (r: (LockPhase, Vec<LockAction>))
    requires
        lock_phase_ok(phase),
    ensures
        r.0 == lock_next(phase, event),
        r.1@ == lock_actions(phase, event),
        lock_phase_ok(r.0),
{
    let mut actions: Vec<LockAction> = Vec::new();
    let next = match (phase, event) {
        (LockPhase::Inspecting(i), LockEvent::Found(found, alive, now)) => {
            let left_over = match found {
                None => false,
                Some(Some(h)) => !alive || lock_age(h.created_at, now) > STALE_AFTER_SECS,
                Some(None) => true,
            };
            if left_over {
                actions.push(LockAction::Remove(i));
            }
            actions.push(LockAction::Create(i));
            LockPhase::Creating(i)
        },
        (LockPhase::Creating(i), LockEvent::Created) => {
            if i + 1 < LOCKED_DIRS {
                actions.push(LockAction::Inspect(i + 1));
                LockPhase::Inspecting(i + 1)
            } else {
                actions.push(LockAction::RestrictDirs);
                LockPhase::Restricting
            }
        },
        (LockPhase::Creating(i), LockEvent::AlreadyHeld) => {
            actions.push(LockAction::ReportHeld(i));
            LockPhase::Refused
        },
        (LockPhase::Creating(i), LockEvent::CreateFailed) => {
            actions.push(LockAction::ReportFailure(i));
            LockPhase::Refused
        },
        (LockPhase::Restricting, LockEvent::Restricted) => LockPhase::Locked,
        _ => phase,
    };
    assert(actions@ =~= lock_actions(phase, event));
    (next, actions)
}

/// A lock file that names a live process and is at most a day old is never removed
/// while the lock is taken: the exclusive creation then finds it, and the lock is
/// refused.
pub proof fn lemma_live_lock_never_removed(i: usize, pid: u32, created_at: u64, now: u64)
    requires
        i < LOCKED_DIRS,
        age_of(created_at, now) <= STALE_AFTER_SECS,
    ensures
        lock_actions(
            LockPhase::Inspecting(i),
            LockEvent::Found(Some(Some(LockHolder { pid, created_at })), true, now),
        )
            == seq![LockAction::Create(i)],
        lock_next(LockPhase::Creating(i), LockEvent::AlreadyHeld) == LockPhase::Refused,
{
}

} // verus!
