//! The file transfer that moves dropped files into a fence's folder, as the
//! progress window sees it: the latest snapshot, which transfer may still
//! be cancelled, and when the window may be shown or dismissed.

use vstd::prelude::*;
use crate::text::str_equal;

verus! {

#[derive(Clone, Copy, Debug, PartialEq, Eq, Structural)]
pub enum TransferPhase {
    Queued,
    Preparing,
    Moving,
    Finalizing,
    RollingBack,
    Completed,
    Cancelled,
    Failed,
}

impl TransferPhase {
    /// The name the progress page receives.
    pub fn name(&self) -> (r: &'static str)
        ensures
            r@ == phase_name(*self),
    {
        match self {
            TransferPhase::Queued => "queued",
            TransferPhase::Preparing => "preparing",
            TransferPhase::Moving => "moving",
            TransferPhase::Finalizing => "finalizing",
            TransferPhase::RollingBack => "rolling_back",
            TransferPhase::Completed => "completed",
            TransferPhase::Cancelled => "cancelled",
            TransferPhase::Failed => "failed",
        }
    }
}

pub open spec fn phase_name(phase: TransferPhase) -> Seq<char> {
    match phase {
        TransferPhase::Queued => "queued"@,
        TransferPhase::Preparing => "preparing"@,
        TransferPhase::Moving => "moving"@,
        TransferPhase::Finalizing => "finalizing"@,
        TransferPhase::RollingBack => "rolling_back"@,
        TransferPhase::Completed => "completed"@,
        TransferPhase::Cancelled => "cancelled"@,
        TransferPhase::Failed => "failed"@,
    }
}

/// Whether a transfer in this phase has ended.
pub open spec fn phase_is_terminal(phase: TransferPhase) -> bool {
    phase == TransferPhase::Completed || phase == TransferPhase::Cancelled || phase
        == TransferPhase::Failed
}

/// The stage a running move reports.
#[derive(Clone, Copy, Debug, PartialEq, Eq, Structural)]
pub enum ImportStage {
    Preparing,
    Moving,
    Finalizing,
    RollingBack,
}

#[derive(Debug)]
pub struct TransferSnapshot {
    pub id: String,
    pub fence_title: String,
    pub phase: TransferPhase,
    pub total_bytes: u64,
    pub completed_bytes: u64,
    pub total_items: u64,
    pub completed_items: u64,
    pub current_item: Option<String>,
    pub message: Option<String>,
    pub can_cancel: bool,
}

pub open spec fn same_text(a: Option<String>, b: Option<String>) -> bool {
    match (a, b) {
        (Some(x), Some(y)) => x@ == y@,
        (None, None) => true,
        _ => false,
    }
}

fn copy_text(value: &Option<String>) -> (r: Option<String>)
    ensures
        r == *value,
{
    match value {
        Some(v) => Some(v.clone()),
        None => None,
    }
}

impl Clone for TransferSnapshot {
    fn clone(&self) -> (r: Self)
        ensures
            r == *self,
    {
        TransferSnapshot {
            id: self.id.clone(),
            fence_title: self.fence_title.clone(),
            phase: self.phase,
            total_bytes: self.total_bytes,
            completed_bytes: self.completed_bytes,
            total_items: self.total_items,
            completed_items: self.completed_items,
            current_item: copy_text(&self.current_item),
            message: copy_text(&self.message),
            can_cancel: self.can_cancel,
        }
    }
}

pub open spec fn queued_message() -> Seq<char> {
    "正在准备移动…"@
}

impl TransferSnapshot {
    pub fn is_terminal(&self) -> (r: bool)
        ensures
            r == phase_is_terminal(self.phase),
    {
        match self.phase {
            TransferPhase::Completed | TransferPhase::Cancelled | TransferPhase::Failed => true,
            _ => false,
        }
    }

    /// The snapshot of a transfer that is waiting to start.
    pub fn queued(id: String, fence_title: String) -> (s: Self)
        ensures
            s.id == id,
            s.fence_title == fence_title,
            s.phase == TransferPhase::Queued,
            s.total_bytes == 0,
            s.completed_bytes == 0,
            s.total_items == 0,
            s.completed_items == 0,
            s.current_item is None,
            s.message matches Some(m) && m@ == queued_message(),
            s.can_cancel,
    {
        TransferSnapshot {
            id,
            fence_title,
            phase: TransferPhase::Queued,
            total_bytes: 0,
            completed_bytes: 0,
            total_items: 0,
            completed_items: 0,
            current_item: None,
            message: Some(String::from_str("正在准备移动…")),
            can_cancel: true,
        }
    }
}

pub open spec fn stage_phase(stage: ImportStage) -> TransferPhase {
    match stage {
        ImportStage::Preparing => TransferPhase::Preparing,
        ImportStage::Moving => TransferPhase::Moving,
        ImportStage::Finalizing => TransferPhase::Finalizing,
        ImportStage::RollingBack => TransferPhase::RollingBack,
    }
}

pub open spec fn stage_message(stage: ImportStage) -> Seq<char> {
    match stage {
        ImportStage::Preparing => "正在统计文件…"@,
        ImportStage::Moving => "正在移动到映射文件夹…"@,
        ImportStage::Finalizing => "内容已复制，正在完成移动…"@,
        ImportStage::RollingBack => "移动未完成，正在安全撤销…"@,
    }
}

/// The snapshot for a progress report. `current_name` is the file name of
/// the item being moved, when it has one; an empty name is not shown. A move
/// can be cancelled until it is finalizing or rolling back.
pub fn snapshot_from_progress(
    id: &String,
    fence_title: &String,
    stage: ImportStage,
    total_bytes: u64,
    completed_bytes: u64,
    total_items: u64,
    completed_items: u64,
    current_name: Option<String>,
) -> (s: TransferSnapshot)
    ensures
        s.id@ == id@,
        s.fence_title@ == fence_title@,
        s.phase == stage_phase(stage),
        s.total_bytes == total_bytes,
        s.completed_bytes == completed_bytes,
        s.total_items == total_items,
        s.completed_items == completed_items,
        match current_name {
            Some(name) => if name@.len() == 0 {
                s.current_item is None
            } else {
                s.current_item == Some(name)
            },
            None => s.current_item is None,
        },
        s.message matches Some(m) && m@ == stage_message(stage),
        s.can_cancel == (stage == ImportStage::Preparing || stage == ImportStage::Moving),
{
    let (phase, message) = match stage {
        ImportStage::Preparing => (TransferPhase::Preparing, String::from_str("正在统计文件…")),
        ImportStage::Moving => (TransferPhase::Moving, String::from_str("正在移动到映射文件夹…")),
        ImportStage::Finalizing => (
            TransferPhase::Finalizing,
            String::from_str("内容已复制，正在完成移动…"),
        ),
        ImportStage::RollingBack => (
            TransferPhase::RollingBack,
            String::from_str("移动未完成，正在安全撤销…"),
        ),
    };
    let current_item = match current_name {
        Some(name) => {
            if name.as_str().unicode_len() == 0 {
                None
            } else {
                Some(name)
            }
        },
        None => None,
    };
    TransferSnapshot {
        id: id.clone(),
        fence_title: fence_title.clone(),
        phase,
        total_bytes,
        completed_bytes,
        total_items,
        completed_items,
        current_item,
        message: Some(message),
        can_cancel: match stage {
            ImportStage::Finalizing | ImportStage::RollingBack => false,
            _ => true,
        },
    }
}

pub open spec fn moved_into_message(title: Seq<char>) -> Seq<char> {
    "已移入「"@ + title + "」"@
}

pub open spec fn cancelled_message() -> Seq<char> {
    "文件移动已取消；已经开始移动的项目已尝试移回原位置"@
}

pub open spec fn failed_message(error: Seq<char>) -> Seq<char> {
    "文件移动失败："@ + error
}

/// The final snapshot of a transfer that moved everything into the fence
/// titled `title`.
pub fn completed_snapshot(latest: TransferSnapshot, title: &str) -> (s: TransferSnapshot)
    ensures
        s.id == latest.id,
        s.fence_title == latest.fence_title,
        s.phase == TransferPhase::Completed,
        s.total_bytes == latest.total_bytes,
        s.completed_bytes == latest.total_bytes,
        s.total_items == latest.total_items,
        s.completed_items == latest.total_items,
        s.current_item is None,
        s.message matches Some(m) && m@ == moved_into_message(title@),
        !s.can_cancel,
{
    let mut message = String::from_str("已移入「");
    message.append(title);
    message.append("」");
    let mut completed = latest;
    completed.phase = TransferPhase::Completed;
    completed.completed_bytes = completed.total_bytes;
    completed.completed_items = completed.total_items;
    completed.current_item = None;
    completed.message = Some(message);
    completed.can_cancel = false;
    completed
}

/// The final snapshot of a transfer that stopped: cancelled when the user
/// asked for it, failed with `error` otherwise.
pub fn stopped_snapshot(latest: TransferSnapshot, cancelled: bool, error: &str) -> (s:
    TransferSnapshot)
    ensures
        s.id == latest.id,
        s.fence_title == latest.fence_title,
        s.phase == (if cancelled { TransferPhase::Cancelled } else { TransferPhase::Failed }),
        s.total_bytes == latest.total_bytes,
        s.completed_bytes == latest.completed_bytes,
        s.total_items == latest.total_items,
        s.completed_items == latest.completed_items,
        s.current_item is None,
        s.message matches Some(m) && m@ == (if cancelled {
            cancelled_message()
        } else {
            failed_message(error@)
        }),
        !s.can_cancel,
{
    let message = if cancelled {
        String::from_str("文件移动已取消；已经开始移动的项目已尝试移回原位置")
    } else {
        let mut m = String::from_str("文件移动失败：");
        m.append(error);
        m
    };
    let mut stopped = latest;
    stopped.phase = if cancelled {
        TransferPhase::Cancelled
    } else {
        TransferPhase::Failed
    };
    stopped.current_item = None;
    stopped.message = Some(message);
    stopped.can_cancel = false;
    stopped
}

/// The final snapshot of a transfer that could not start at all.
pub fn unstarted_snapshot(id: String, fence_title: String, phase: TransferPhase, message: String) -> (s:
    TransferSnapshot)
    ensures
        s.id == id,
        s.fence_title == fence_title,
        s.phase == phase,
        s.total_bytes == 0 && s.completed_bytes == 0,
        s.total_items == 0 && s.completed_items == 0,
        s.current_item is None,
        s.message == Some(message),
        !s.can_cancel,
{
    let mut snapshot = TransferSnapshot::queued(id, fence_title);
    snapshot.phase = phase;
    snapshot.message = Some(message);
    snapshot.can_cancel = false;
    snapshot
}

#[derive(Clone, Copy, Debug, PartialEq, Eq, Structural)]
pub enum ProgressWindowAction {
    Show,
    Dismiss,
}

/// What the transfer service holds: the latest snapshot, the transfer that
/// is running (whose cancellation has been asked for or not), and the
/// transfer whose window the user dismissed.
#[derive(Debug)]
pub struct TransferState {
    pub snapshot: Option<TransferSnapshot>,
    pub active: Option<String>,
    pub cancel_requested: bool,
    pub dismissed_id: Option<String>,
}

pub open spec fn snapshot_id_is(snapshot: Option<TransferSnapshot>, id: Seq<char>) -> bool {
    snapshot matches Some(s) && s.id@ == id
}

pub open spec fn dismissed_is(dismissed: Option<String>, id: Seq<char>) -> bool {
    dismissed matches Some(d) && d@ == id
}

/// Whether a delayed timer of transfer `id` may still show or dismiss the
/// progress window: only for the transfer shown now; it shows the window
/// only while the transfer runs and the user did not dismiss it, and
/// dismisses it only once the transfer has ended.
pub open spec fn window_action_allowed(state: TransferState, id: Seq<char>, action: ProgressWindowAction) -> bool {
    match state.snapshot {
        Some(s) => s.id@ == id && match action {
            ProgressWindowAction::Show => !phase_is_terminal(s.phase) && !dismissed_is(
                state.dismissed_id,
                id,
            ),
            ProgressWindowAction::Dismiss => phase_is_terminal(s.phase),
        },
        None => false,
    }
}

impl TransferState {
    pub fn new() -> (s: Self)
        ensures
            s.snapshot is None,
            s.active is None,
            !s.cancel_requested,
            s.dismissed_id is None,
    {
        TransferState { snapshot: None, active: None, cancel_requested: false, dismissed_id: None }
    }

    pub fn allows_window_action(&self, id: &str, action: ProgressWindowAction) -> (r: bool)
        ensures
            r == window_action_allowed(*self, id@, action),
    {
        match &self.snapshot {
            Some(snapshot) => {
                if !str_equal(snapshot.id.as_str(), id) {
                    return false;
                }
                match action {
                    ProgressWindowAction::Show => {
                        if snapshot.is_terminal() {
                            return false;
                        }
                        match &self.dismissed_id {
                            Some(d) => !str_equal(d.as_str(), id),
                            None => true,
                        }
                    },
                    ProgressWindowAction::Dismiss => snapshot.is_terminal(),
                }
            },
            None => false,
        }
    }

    /// A transfer starts: its queued snapshot is shown and it can be cancelled.
    pub fn begin(&mut self, id: String, fence_title: String) -> (initial: TransferSnapshot)
        ensures
            initial.id == id,
            initial.fence_title == fence_title,
            initial.phase == TransferPhase::Queued,
            initial.total_bytes == 0,
            initial.completed_bytes == 0,
            initial.total_items == 0,
            initial.completed_items == 0,
            initial.current_item is None,
            initial.message matches Some(m) && m@ == queued_message(),
            initial.can_cancel,
            final(self).snapshot == Some(initial),
            final(self).active == Some(id),
            !final(self).cancel_requested,
            final(self).dismissed_id is None,
    {
        let active = id.clone();
        let initial = TransferSnapshot::queued(id, fence_title);
        self.snapshot = Some(initial.clone());
        self.active = Some(active);
        self.cancel_requested = false;
        self.dismissed_id = None;
        initial
    }

    /// A newer progress snapshot replaces the shown one.
    pub fn store(&mut self, snapshot: TransferSnapshot)
        ensures
            final(self).snapshot == Some(snapshot),
            final(self).active == old(self).active,
            final(self).cancel_requested == old(self).cancel_requested,
            final(self).dismissed_id == old(self).dismissed_id,
    {
        self.snapshot = Some(snapshot);
    }

    /// Transfer `id` ended with `snapshot`; it can no longer be cancelled.
    pub fn finish(&mut self, id: &str, snapshot: TransferSnapshot)
        ensures
            final(self).snapshot == Some(snapshot),
            match old(self).active {
                Some(a) => if a@ == id@ {
                    final(self).active is None
                } else {
                    final(self).active == old(self).active
                },
                None => final(self).active is None,
            },
            final(self).cancel_requested == old(self).cancel_requested,
            final(self).dismissed_id == old(self).dismissed_id,
    {
        self.snapshot = Some(snapshot);
        let ends = match &self.active {
            Some(a) => str_equal(a.as_str(), id),
            None => false,
        };
        if ends {
            self.active = None;
        }
    }

    /// The user closed the progress window of the shown transfer.
    pub fn dismiss(&mut self)
        ensures
            final(self).snapshot == old(self).snapshot,
            final(self).active == old(self).active,
            final(self).cancel_requested == old(self).cancel_requested,
            match old(self).snapshot {
                Some(s) => final(self).dismissed_id matches Some(d) && d@ == s.id@,
                None => final(self).dismissed_id is None,
            },
    {
        self.dismissed_id = match &self.snapshot {
            Some(s) => Some(s.id.clone()),
            None => None,
        };
    }
}

pub open spec fn no_active_transfer_error() -> Seq<char> {
    "当前没有正在进行的文件移动"@
}

pub open spec fn transfer_ended_error() -> Seq<char> {
    "这项文件移动已经结束"@
}

/// The transfer service as the commands see it.
#[derive(Debug)]
pub struct FileTransferManager {
    pub state: TransferState,
}

impl FileTransferManager {
    pub fn new() -> (m: Self)
        ensures
            m.state.snapshot is None,
            m.state.active is None,
            !m.state.cancel_requested,
            m.state.dismissed_id is None,
    {
        FileTransferManager { state: TransferState::new() }
    }

    /// Asks the running transfer `id` to stop. It fails when no transfer
    /// runs, or when the running one is another.
    pub fn cancel(&mut self, id: &str) -> (r: Result<(), String>)
        ensures
            match old(self).state.active {
                None => r matches Err(e) && e@ == no_active_transfer_error(),
                Some(a) => if a@ == id@ {
                    r is Ok
                } else {
                    r matches Err(e) && e@ == transfer_ended_error()
                },
            },
            final(self).state.cancel_requested == (old(self).state.cancel_requested || r is Ok),
            final(self).state.snapshot == old(self).state.snapshot,
            final(self).state.active == old(self).state.active,
            final(self).state.dismissed_id == old(self).state.dismissed_id,
    {
        let matches = match &self.state.active {
            None => {
                return Err(String::from_str("当前没有正在进行的文件移动"));
            },
            Some(a) => str_equal(a.as_str(), id),
        };
        if !matches {
            return Err(String::from_str("这项文件移动已经结束"));
        }
        self.state.cancel_requested = true;
        Ok(())
    }

    /// The snapshot shown now.
    pub fn snapshot(&self) -> (r: Option<TransferSnapshot>)
        ensures
            r == self.state.snapshot,
    {
        match &self.state.snapshot {
            Some(s) => Some(s.clone()),
            None => None,
        }
    }

    /// Whether a transfer is running.
    pub fn is_active(&self) -> (r: bool)
        ensures
            r == self.state.active is Some,
    {
        self.state.active.is_some()
    }
}

/// A delayed timer of an earlier transfer can neither show nor dismiss the
/// window of the transfer shown now.
pub proof fn law_old_timers_cannot_touch_the_next_window(
    state: TransferState,
    old_id: Seq<char>,
    action: ProgressWindowAction,
)
    requires
        state.snapshot matches Some(s) && s.id@ != old_id,
    ensures
        !window_action_allowed(state, old_id, action),
{
}

/// No transfer is both shown and dismissed by its timers: a running
/// transfer is never dismissed automatically and an ended one is never
/// shown again.
pub proof fn law_show_and_dismiss_exclude_each_other(state: TransferState, id: Seq<char>)
    ensures
        !(window_action_allowed(state, id, ProgressWindowAction::Show) && window_action_allowed(
            state,
            id,
            ProgressWindowAction::Dismiss,
        )),
{
}

/// Once the user dismissed the window of a transfer, its pending timer does
/// not reopen it.
pub proof fn law_manual_dismissal_prevents_reopen(state: TransferState)
    requires
        state.snapshot is Some,
        state.dismissed_id matches Some(d) && d@ == state.snapshot->Some_0.id@,
    ensures
        !window_action_allowed(state, state.snapshot->Some_0.id@, ProgressWindowAction::Show),
{
}

} // verus!
