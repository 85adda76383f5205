use vstd::prelude::*;
use vstd::string::StringSliceAdditionalSpecFns;

verus! {

/// How many times the open handles are counted before they are cleared by force.
pub const DRAIN_POLLS: u32 = 30;

/// Pause between two counts of open handles, in milliseconds.
pub const DRAIN_INTERVAL_MS: u64 = 100;

/// How long the mount thread is given to return after the unmount, in seconds.
pub const JOIN_DEADLINE_SECS: u64 = 5;

/// How many times the host's mount table is read before giving up.
pub const MOUNT_CHECKS: u32 = 3;

/// Pause before reading the mount table again, in milliseconds.
pub const CHECK_INTERVAL_MS: u64 = 1000;

/// Where a graceful shutdown stands.
#[derive(Clone, Copy, Debug, PartialEq, Eq, Structural)]
pub enum ShutdownPhase {
    Running,
    /// Waiting for open handles to be released; counts made so far.
    Draining(u32),
    /// The unmount was asked for; waiting for the mount thread.
    UnmountRequested,
    /// Reading the mount table; readings made so far.
    Verifying(u32),
    /// Done; whether the unmount was seen to take effect.
    Stopped(bool),
}

/// What the host reports to the shutdown.
#[derive(Clone, Copy, Debug, PartialEq, Eq, Structural)]
pub enum ShutdownEvent {
    /// An interrupt, terminate or hang-up signal.
    Signal,
    /// The number of file handles still open.
    OpenHandles(usize),
    /// Whether the mount thread returned before the deadline.
    MountThreadJoined(bool),
    /// Whether the mount point still shows in the host's mount table.
    MountListed(bool),
}

/// What the host is to do next, in order.
#[derive(Clone, Copy, Debug, PartialEq, Eq, Structural)]
pub enum ShutdownAction {
    /// Release the exclusive-access lock, so that a peer can start even if the
    /// unmount stalls.
    ReleaseLock,
    /// Refuse new callbacks.
    StopRequests,
    /// Report the number of open handles.
    CountHandles,
    /// Sleep this many milliseconds.
    Sleep(u64),
    /// Drop every open handle.
    ClearHandles,
    /// Ask the host to unmount.
    Unmount,
    /// Wait this many seconds for the mount thread, then report.
    JoinMountThread(u64),
    /// Ask the host to unmount by force.
    ForceUnmount,
    /// Report whether the mount point still shows in the mount table.
    CheckMountTable,
    /// Clear the inode and handle tables and the location cache.
    ClearTables,
    /// Exit the process with this status.
    Exit(i32),
}

/// The phase after `event` in `phase`; an event that the phase does not wait for
/// changes nothing.
pub open spec fn next_phase(phase: ShutdownPhase, event: ShutdownEvent) -> ShutdownPhase {
    match (phase, event) {
        (ShutdownPhase::Running, ShutdownEvent::Signal) => ShutdownPhase::Draining(0),
        (ShutdownPhase::Draining(k), ShutdownEvent::OpenHandles(n)) => if n == 0 || k + 1
            >= DRAIN_POLLS {
            ShutdownPhase::UnmountRequested
        } else {
            ShutdownPhase::Draining((k + 1) as u32)
        },
        (ShutdownPhase::UnmountRequested, ShutdownEvent::MountThreadJoined(_)) => {
            ShutdownPhase::Verifying(0)
        },
        (ShutdownPhase::Verifying(k), ShutdownEvent::MountListed(listed)) => if !listed {
            ShutdownPhase::Stopped(true)
        } else if k + 1 >= MOUNT_CHECKS {
            ShutdownPhase::Stopped(false)
        } else {
            ShutdownPhase::Verifying((k + 1) as u32)
        },
        _ => phase,
    }
}

/// The actions that go with the step from `phase` on `event`.
pub open spec fn step_actions(phase: ShutdownPhase, event: ShutdownEvent) -> Seq<ShutdownAction> {
    match (phase, event) {
        (ShutdownPhase::Running, ShutdownEvent::Signal) => seq![
            ShutdownAction::ReleaseLock,
            ShutdownAction::StopRequests,
            ShutdownAction::CountHandles,
        ],
        (ShutdownPhase::Draining(k), ShutdownEvent::OpenHandles(n)) => if n == 0 {
            seq![ShutdownAction::Unmount, ShutdownAction::JoinMountThread(JOIN_DEADLINE_SECS)]
        } else if k + 1 >= DRAIN_POLLS {
            seq![
                ShutdownAction::ClearHandles,
                ShutdownAction::Unmount,
                ShutdownAction::JoinMountThread(JOIN_DEADLINE_SECS),
            ]
        } else {
            seq![ShutdownAction::Sleep(DRAIN_INTERVAL_MS), ShutdownAction::CountHandles]
        },
        (ShutdownPhase::UnmountRequested, ShutdownEvent::MountThreadJoined(joined)) => if joined {
            seq![ShutdownAction::CheckMountTable]
        } else {
            seq![ShutdownAction::ForceUnmount, ShutdownAction::CheckMountTable]
        },
        (ShutdownPhase::Verifying(k), ShutdownEvent::MountListed(listed)) => if !listed {
            seq![ShutdownAction::ClearTables, ShutdownAction::Exit(0)]
        } else if k + 1 >= MOUNT_CHECKS {
            seq![ShutdownAction::ClearTables, ShutdownAction::Exit(1)]
        } else {
            seq![
                ShutdownAction::Sleep(CHECK_INTERVAL_MS),
                ShutdownAction::ForceUnmount,
                ShutdownAction::CheckMountTable,
            ]
        },
        _ => Seq::empty(),
    }
}

/// The counters of a phase stay within their bounds.
pub open spec fn phase_ok(phase: ShutdownPhase) -> bool {
    match phase {
        ShutdownPhase::Draining(k) => k < DRAIN_POLLS,
        ShutdownPhase::Verifying(k) => k < MOUNT_CHECKS,
        _ => true,
    }
}

/// An upper bound on the events still needed to stop.
pub open spec fn steps_left(phase: ShutdownPhase) -> nat {
    match phase {
        ShutdownPhase::Running => (DRAIN_POLLS + MOUNT_CHECKS + 2) as nat,
        ShutdownPhase::Draining(k) => (DRAIN_POLLS - k + MOUNT_CHECKS + 1) as nat,
        ShutdownPhase::UnmountRequested => (MOUNT_CHECKS + 1) as nat,
        ShutdownPhase::Verifying(k) => (MOUNT_CHECKS - k) as nat,
        ShutdownPhase::Stopped(_) => 0,
    }
}

/// The event that `phase` waits for is of this kind.
pub open spec fn awaited(phase: ShutdownPhase, event: ShutdownEvent) -> bool {
    match (phase, event) {
        (ShutdownPhase::Running, ShutdownEvent::Signal) => true,
        (ShutdownPhase::Draining(_), ShutdownEvent::OpenHandles(_)) => true,
        (ShutdownPhase::UnmountRequested, ShutdownEvent::MountThreadJoined(_)) => true,
        (ShutdownPhase::Verifying(_), ShutdownEvent::MountListed(_)) => true,
        _ => false,
    }
}

/// One step of the shutdown: the next phase and what to do.
pub fn shutdown_step(phase: ShutdownPhase, event: ShutdownEvent) -> (r: (
    ShutdownPhase,
    Vec<ShutdownAction>,
))
    requires
        phase_ok(phase),
    ensures
        r.0 == next_phase(phase, event),
        r.1@ == step_actions(phase, event),
        phase_ok(r.0),
{
    let mut actions: Vec<ShutdownAction> = Vec::new();
    let next = match (phase, event) {
        (ShutdownPhase::Running, ShutdownEvent::Signal) => {
            actions.push(ShutdownAction::ReleaseLock);
            actions.push(ShutdownAction::StopRequests);
            actions.push(ShutdownAction::CountHandles);
            ShutdownPhase::Draining(0)
        },
        (ShutdownPhase::Draining(k), ShutdownEvent::OpenHandles(n)) => {
            if n == 0 {
                actions.push(ShutdownAction::Unmount);
                actions.push(ShutdownAction::JoinMountThread(JOIN_DEADLINE_SECS));
                ShutdownPhase::UnmountRequested
            } else if k + 1 >= DRAIN_POLLS {
                actions.push(ShutdownAction::ClearHandles);
                actions.push(ShutdownAction::Unmount);
                actions.push(ShutdownAction::JoinMountThread(JOIN_DEADLINE_SECS));
                ShutdownPhase::UnmountRequested
            } else {
                actions.push(ShutdownAction::Sleep(DRAIN_INTERVAL_MS));
                actions.push(ShutdownAction::CountHandles);
                ShutdownPhase::Draining(k + 1)
            }
        },
        (ShutdownPhase::UnmountRequested, ShutdownEvent::MountThreadJoined(joined)) => {
            if !joined {
                actions.push(ShutdownAction::ForceUnmount);
            }
            actions.push(ShutdownAction::CheckMountTable);
            ShutdownPhase::Verifying(0)
        },
        (ShutdownPhase::Verifying(k), ShutdownEvent::MountListed(listed)) => {
            if !listed {
                actions.push(ShutdownAction::ClearTables);
                actions.push(ShutdownAction::Exit(0));
                ShutdownPhase::Stopped(true)
            } else if k + 1 >= MOUNT_CHECKS {
                actions.push(ShutdownAction::ClearTables);
                actions.push(ShutdownAction::Exit(1));
                ShutdownPhase::Stopped(false)
            } else {
                actions.push(ShutdownAction::Sleep(CHECK_INTERVAL_MS));
                actions.push(ShutdownAction::ForceUnmount);
                actions.push(ShutdownAction::CheckMountTable);
                ShutdownPhase::Verifying(k + 1)
            }
        },
        _ => phase,
    };
    assert(actions@ =~= step_actions(phase, event));
    (next, actions)
}

/// Each awaited event brings the shutdown closer to its end: the shutdown stops
/// after a bounded number of events, whatever the host reports.
pub proof fn lemma_shutdown_progresses(phase: ShutdownPhase, event: ShutdownEvent)
    requires
        phase_ok(phase),
        awaited(phase, event),
    ensures
        steps_left(next_phase(phase, event)) < steps_left(phase),
{
}

/// Whether the bytes of `point` occur in the bytes of `table`.
pub open spec fn occurs_in(table: Seq<u8>, point: Seq<u8>) -> bool {
    exists|i: int|
        0 <= i && i + point.len() <= table.len() && #[trigger] table.subrange(i, i + point.len())
            == point
}

/// Whether the host's mount table, as text, still names `mount_point`.
pub fn mount_listed(table: &str, mount_point: &str) -> (r: bool)
    ensures
        r == occurs_in(table.spec_bytes(), mount_point.spec_bytes()),
{
    let t = table.as_bytes();
    let p = mount_point.as_bytes();
    let n = t.len();
    let m = p.len();
    if m > n {
        proof {
            assert forall|i: int|
                0 <= i && i + m <= n implies #[trigger] t@.subrange(i, i + m) != p@ by {}
        }
        return false;
    }
    let mut i: usize = 0;
    while i <= n - m
        invariant
            t@ == table.spec_bytes(),
            p@ == mount_point.spec_bytes(),
            n == t@.len(),
            m == p@.len(),
            m <= n,
            0 <= i <= n - m + 1,
            forall|a: int| 0 <= a < i ==> #[trigger] t@.subrange(a, a + m) != p@,
        decreases n - m + 1 - i,
    {
        let mut j: usize = 0;
        while j < m && t[i + j] == p[j]
            invariant
                n == t@.len(),
                m == p@.len(),
                m <= n,
                i <= n - m,
                0 <= j <= m,
                forall|b: int| 0 <= b < j ==> t@[i + b] == p@[b],
            decreases m - j,
        {
            j += 1;
        }
        if j == m {
            assert(t@.subrange(i as int, i + m) =~= p@);
            return true;
        }
        assert(t@.subrange(i as int, i + m)[j as int] != p@[j as int]);
        i += 1;
    }
    false
}

} // verus!
