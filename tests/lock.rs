use rhss::lock::{lock_start, lock_step, LockAction, LockEvent, LockHolder, LockPhase};
use rhss::lock::{
    conflict_message, lock_age, lock_file_path, lock_is_stale, mode_to_restore, owns_lock,
    unreadable_lock_message, LockInfo,
};

fn info(pid: u32, created_at: u64) -> LockInfo {
    LockInfo {
        pid,
        start_time: created_at,
        hostname: "box".to_string(),
        created_at,
        version: "0.1.0".to_string(),
    }
}

#[test]
fn stale_locks() {
    let now = 1_700_100_000;
    let fresh = info(42, now - 10);
    assert!(!lock_is_stale(Some(&fresh), true, now));
    assert!(lock_is_stale(Some(&fresh), false, now));
    assert!(lock_is_stale(None, true, now));
    let day = info(42, now - 86_400);
    assert!(!lock_is_stale(Some(&day), true, now));
    let older = info(42, now - 86_401);
    assert!(lock_is_stale(Some(&older), true, now));
    let future = info(42, now + 5);
    assert!(!lock_is_stale(Some(&future), true, now));
    assert_eq!(lock_age(now + 5, now), 0);
}

#[test]
fn conflict_message_names_holder() {
    let held = info(12345, 1_700_000_000);
    let msg = conflict_message(&held, 1_700_000_060, "/srv/hot/.rhss.lock");
    assert!(msg.contains("PID 12345 @ box"));
    assert!(msg.contains("locked 60 seconds ago"));
    assert!(msg.contains("/srv/hot/.rhss.lock"));
    assert!(unreadable_lock_message("/x/.rhss.lock").ends_with("/x/.rhss.lock"));
}

#[test]
fn ownership_and_modes() {
    let mine = info(7, 0);
    assert!(owns_lock(Some(&mine), 7));
    assert!(!owns_lock(Some(&mine), 8));
    assert!(!owns_lock(None, 7));
    assert_eq!(mode_to_restore(Some(0o750)), 0o750);
    assert_eq!(mode_to_restore(None), 0o755);
    assert_eq!(lock_file_path("/srv/hot"), "/srv/hot/.rhss.lock");
}

#[test]
fn lock_steps() {
    let (p, a) = lock_start();
    assert_eq!((p, a), (LockPhase::Inspecting(0), vec![LockAction::Inspect(0)]));
    let (p, a) = lock_step(p, LockEvent::Found(None, false, 100));
    assert_eq!((p, a), (LockPhase::Creating(0), vec![LockAction::Create(0)]));
    let (p, a) = lock_step(p, LockEvent::Created);
    assert_eq!((p, a), (LockPhase::Inspecting(1), vec![LockAction::Inspect(1)]));
    let dead = LockHolder { pid: 9, created_at: 50 };
    let (p, a) = lock_step(p, LockEvent::Found(Some(Some(dead)), false, 100));
    assert_eq!(a, vec![LockAction::Remove(1), LockAction::Create(1)]);
    let (p, a) = lock_step(p, LockEvent::Created);
    assert_eq!((p, a), (LockPhase::Restricting, vec![LockAction::RestrictDirs]));
    let (p, a) = lock_step(p, LockEvent::Restricted);
    assert_eq!(p, LockPhase::Locked);
    assert!(a.is_empty());
}

#[test]
fn live_lock_is_refused() {
    let live = LockHolder { pid: 12345, created_at: 1_000 };
    let (p, a) = lock_step(LockPhase::Inspecting(0), LockEvent::Found(Some(Some(live)), true, 1_060));
    assert_eq!(a, vec![LockAction::Create(0)]);
    let (p, a) = lock_step(p, LockEvent::AlreadyHeld);
    assert_eq!((p, a), (LockPhase::Refused, vec![LockAction::ReportHeld(0)]));
    let (_, a) = lock_step(LockPhase::Inspecting(1), LockEvent::Found(Some(None), true, 0));
    assert_eq!(a, vec![LockAction::Remove(1), LockAction::Create(1)]);
    let old = LockHolder { pid: 1, created_at: 0 };
    let (_, a) = lock_step(LockPhase::Inspecting(0), LockEvent::Found(Some(Some(old)), true, 86_401));
    assert_eq!(a[0], LockAction::Remove(0));
}
