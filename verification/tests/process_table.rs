use dsi::process::{ManagedProcess, ProcessStatus, ProcessTable};

#[test]
fn register_tracks_each_pid_once() {
    let mut table = ProcessTable::new();
    assert_eq!(table.len(), 0);
    assert!(table.register(ManagedProcess { pid: 10, status: ProcessStatus::Spawned }));
    assert!(table.register(ManagedProcess { pid: 11, status: ProcessStatus::Spawned }));
    assert!(!table.register(ManagedProcess { pid: 10, status: ProcessStatus::Streaming }));
    assert_eq!(table.len(), 2);
    assert_eq!(table.status_of(10), Some(ProcessStatus::Spawned));
    assert_eq!(table.status_of(12), None);
}

#[test]
fn lifecycle_moves_forward_only() {
    let mut table = ProcessTable::new();
    table.register(ManagedProcess { pid: 5, status: ProcessStatus::Spawned });
    assert!(table.set_status(5, ProcessStatus::Streaming));
    assert_eq!(table.status_of(5), Some(ProcessStatus::Streaming));
    assert!(!table.set_status(5, ProcessStatus::Spawned));
    assert!(table.set_status(5, ProcessStatus::Exited(0)));
    assert_eq!(table.status_of(5), Some(ProcessStatus::Exited(0)));
    assert!(!table.set_status(5, ProcessStatus::Streaming));
    assert!(!table.set_status(5, ProcessStatus::Exited(1)));
    assert_eq!(table.status_of(5), Some(ProcessStatus::Exited(0)));
}

#[test]
fn exit_can_be_observed_before_streaming() {
    let mut table = ProcessTable::new();
    table.register(ManagedProcess { pid: 9, status: ProcessStatus::Spawned });
    assert!(table.set_status(9, ProcessStatus::Exited(137)));
    assert_eq!(table.status_of(9), Some(ProcessStatus::Exited(137)));
}

#[test]
fn only_exited_entries_are_reaped() {
    let mut table = ProcessTable::new();
    table.register(ManagedProcess { pid: 1, status: ProcessStatus::Spawned });
    table.register(ManagedProcess { pid: 2, status: ProcessStatus::Spawned });
    assert!(!table.remove_exited(1));
    assert!(!table.remove_exited(3));
    table.set_status(1, ProcessStatus::Exited(0));
    assert!(table.remove_exited(1));
    assert_eq!(table.status_of(1), None);
    assert_eq!(table.len(), 1);
    assert_eq!(table.status_of(2), Some(ProcessStatus::Spawned));
}

#[test]
fn unknown_pid_is_refused() {
    let mut table = ProcessTable::new();
    assert!(!table.set_status(99, ProcessStatus::Streaming));
    assert_eq!(table.len(), 0);
}
