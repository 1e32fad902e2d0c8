use dcreel::transfers::{
    completed_snapshot, snapshot_from_progress, stopped_snapshot, unstarted_snapshot,
    FileTransferManager, ImportStage, ProgressWindowAction, TransferPhase, TransferSnapshot,
    TransferState,
};

fn state_with_phase(phase: TransferPhase) -> TransferState {
    let mut snapshot = TransferSnapshot::queued("task-1".into(), "test".into());
    snapshot.phase = phase;
    TransferState { snapshot: Some(snapshot), ..TransferState::new() }
}

#[test]
fn terminal_tasks_dismiss_but_never_show_from_a_delayed_timer() {
    for phase in [TransferPhase::Completed, TransferPhase::Cancelled, TransferPhase::Failed] {
        let state = state_with_phase(phase);
        assert!(state.allows_window_action("task-1", ProgressWindowAction::Dismiss));
        assert!(!state.allows_window_action("task-1", ProgressWindowAction::Show));
    }
}

#[test]
fn active_tasks_are_not_auto_dismissed() {
    for phase in [
        TransferPhase::Queued,
        TransferPhase::Preparing,
        TransferPhase::Moving,
        TransferPhase::Finalizing,
        TransferPhase::RollingBack,
    ] {
        let state = state_with_phase(phase);
        assert!(state.allows_window_action("task-1", ProgressWindowAction::Show));
        assert!(!state.allows_window_action("task-1", ProgressWindowAction::Dismiss));
    }
}

#[test]
fn old_timers_cannot_change_the_next_tasks_window() {
    for phase in [TransferPhase::Moving, TransferPhase::Completed] {
        let state = state_with_phase(phase);
        assert!(!state.allows_window_action("old-task", ProgressWindowAction::Show));
        assert!(!state.allows_window_action("old-task", ProgressWindowAction::Dismiss));
    }
}

#[test]
fn manual_dismissal_prevents_a_delayed_reopen() {
    let mut state = state_with_phase(TransferPhase::Moving);
    state.dismissed_id = Some("task-1".into());
    assert!(!state.allows_window_action("task-1", ProgressWindowAction::Show));
    state.snapshot.as_mut().unwrap().id = "task-2".into();
    assert!(state.allows_window_action("task-2", ProgressWindowAction::Show));
}

#[test]
fn empty_state_does_not_show_or_dismiss() {
    let state = TransferState::new();
    assert!(!state.allows_window_action("task-1", ProgressWindowAction::Show));
    assert!(!state.allows_window_action("task-1", ProgressWindowAction::Dismiss));
}

#[test]
fn only_the_running_transfer_can_be_cancelled() {
    let mut manager = FileTransferManager::new();
    assert_eq!(manager.cancel("a"), Err("当前没有正在进行的文件移动".to_string()));
    assert!(!manager.is_active());
    let initial = manager.state.begin("a".into(), "盒子".into());
    assert_eq!(initial.phase, TransferPhase::Queued);
    assert_eq!(initial.message.as_deref(), Some("正在准备移动…"));
    assert!(manager.is_active());
    assert_eq!(manager.cancel("b"), Err("这项文件移动已经结束".to_string()));
    assert!(!manager.state.cancel_requested);
    assert_eq!(manager.cancel("a"), Ok(()));
    assert!(manager.state.cancel_requested);
    assert_eq!(manager.snapshot().unwrap().id, "a");
    let done = stopped_snapshot(manager.snapshot().unwrap(), true, "");
    manager.state.finish("a", done);
    assert!(!manager.is_active());
    assert_eq!(manager.snapshot().unwrap().phase, TransferPhase::Cancelled);
    manager.state.dismiss();
    assert_eq!(manager.state.dismissed_id.as_deref(), Some("a"));
}

#[test]
fn progress_snapshots_follow_the_stage() {
    let s = snapshot_from_progress(&"t".to_string(), &"盒".to_string(), ImportStage::Moving, 100, 40, 3, 1, Some("a.txt".into()));
    assert_eq!(s.phase.name(), "moving");
    assert_eq!(s.current_item.as_deref(), Some("a.txt"));
    assert_eq!(s.message.as_deref(), Some("正在移动到映射文件夹…"));
    assert!(s.can_cancel);
    let s = snapshot_from_progress(&"t".to_string(), &"盒".to_string(), ImportStage::RollingBack, 100, 40, 3, 1, Some(String::new()));
    assert_eq!(s.current_item, None);
    assert!(!s.can_cancel);
    assert_eq!(s.phase.name(), "rolling_back");

    let done = completed_snapshot(s, "项目");
    assert_eq!(done.completed_bytes, 100);
    assert_eq!(done.completed_items, 3);
    assert_eq!(done.message.as_deref(), Some("已移入「项目」"));
    assert!(done.is_terminal());

    let failed = stopped_snapshot(TransferSnapshot::queued("x".into(), "y".into()), false, "磁盘已满");
    assert_eq!(failed.phase, TransferPhase::Failed);
    assert_eq!(failed.message.as_deref(), Some("文件移动失败：磁盘已满"));

    let early = unstarted_snapshot("x".into(), "y".into(), TransferPhase::Failed, "DCreel 状态尚未就绪".into());
    assert!(!early.can_cancel);
    assert_eq!(early.total_bytes, 0);
}
