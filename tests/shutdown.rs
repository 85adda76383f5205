use rhss::shutdown::{
    mount_listed, shutdown_step, ShutdownAction, ShutdownEvent, ShutdownPhase, DRAIN_POLLS,
};

#[test]
fn clean_shutdown() {
    let (p, a) = shutdown_step(ShutdownPhase::Running, ShutdownEvent::Signal);
    assert_eq!(p, ShutdownPhase::Draining(0));
    assert_eq!(
        a,
        vec![ShutdownAction::ReleaseLock, ShutdownAction::StopRequests, ShutdownAction::CountHandles]
    );
    let (p, a) = shutdown_step(p, ShutdownEvent::OpenHandles(2));
    assert_eq!(p, ShutdownPhase::Draining(1));
    assert_eq!(a, vec![ShutdownAction::Sleep(100), ShutdownAction::CountHandles]);
    let (p, a) = shutdown_step(p, ShutdownEvent::OpenHandles(0));
    assert_eq!(p, ShutdownPhase::UnmountRequested);
    assert_eq!(a, vec![ShutdownAction::Unmount, ShutdownAction::JoinMountThread(5)]);
    let (p, a) = shutdown_step(p, ShutdownEvent::MountThreadJoined(true));
    assert_eq!(p, ShutdownPhase::Verifying(0));
    assert_eq!(a, vec![ShutdownAction::CheckMountTable]);
    let (p, a) = shutdown_step(p, ShutdownEvent::MountListed(false));
    assert_eq!(p, ShutdownPhase::Stopped(true));
    assert_eq!(a, vec![ShutdownAction::ClearTables, ShutdownAction::Exit(0)]);
}

#[test]
fn stuck_shutdown_escalates() {
    let mut phase = ShutdownPhase::Draining(0);
    let mut last = Vec::new();
    for _ in 0..DRAIN_POLLS {
        let (p, a) = shutdown_step(phase, ShutdownEvent::OpenHandles(1));
        phase = p;
        last = a;
    }
    assert_eq!(phase, ShutdownPhase::UnmountRequested);
    assert_eq!(last[0], ShutdownAction::ClearHandles);
    let (p, a) = shutdown_step(phase, ShutdownEvent::MountThreadJoined(false));
    assert_eq!(a, vec![ShutdownAction::ForceUnmount, ShutdownAction::CheckMountTable]);
    let (p, a) = shutdown_step(p, ShutdownEvent::MountListed(true));
    assert_eq!(p, ShutdownPhase::Verifying(1));
    assert_eq!(a[1], ShutdownAction::ForceUnmount);
    let (p, _) = shutdown_step(p, ShutdownEvent::MountListed(true));
    let (p, a) = shutdown_step(p, ShutdownEvent::MountListed(true));
    assert_eq!(p, ShutdownPhase::Stopped(false));
    assert_eq!(a, vec![ShutdownAction::ClearTables, ShutdownAction::Exit(1)]);
}

#[test]
fn unexpected_events_change_nothing() {
    let (p, a) = shutdown_step(ShutdownPhase::Running, ShutdownEvent::OpenHandles(0));
    assert_eq!(p, ShutdownPhase::Running);
    assert!(a.is_empty());
    let (p, a) = shutdown_step(ShutdownPhase::Stopped(true), ShutdownEvent::Signal);
    assert_eq!(p, ShutdownPhase::Stopped(true));
    assert!(a.is_empty());
}

#[test]
fn mount_table_search() {
    let table = "/dev/sda1 on / type ext4\nrhss_fs on /mnt/tier type fuse\n";
    assert!(mount_listed(table, "/mnt/tier"));
    assert!(!mount_listed(table, "/mnt/other"));
    assert!(mount_listed(table, ""));
    assert!(!mount_listed("", "/mnt"));
}
