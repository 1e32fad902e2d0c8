//! The desktop host process as the application drives it: the host's own
//! command line, the revision numbers of its syncs, how the supervisor backs
//! off after failed syncs, and what a user action in the host turns into.

use vstd::prelude::*;
use crate::ipc::HostUserAction;
use crate::models::FencePatch;
use crate::pixels::fence_colors;
use crate::text::{chars_are, chars_equal, chars_of, trim, trim_chars, decimal_chars, decimal_digits, parse_u64, parse_unsigned, string_from_chars};

verus! {

/// How the desktop host runs: showing one folder for a while, or serving
/// the application over standard input and output.
#[derive(Debug, Clone, PartialEq, Eq)]
pub enum HostOptions {
    FolderProbe { folder: String, probe_seconds: Option<u64> },
    IpcStdio,
}

pub enum OptionsModel {
    FolderProbe { folder: Seq<char>, probe_seconds: Option<nat> },
    IpcStdio,
}

pub open spec fn options_model(o: HostOptions) -> OptionsModel {
    match o {
        HostOptions::FolderProbe { folder, probe_seconds } => OptionsModel::FolderProbe {
            folder: folder@,
            probe_seconds: match probe_seconds {
                Some(s) => Some(s as nat),
                None => None,
            },
        },
        HostOptions::IpcStdio => OptionsModel::IpcStdio,
    }
}

pub open spec fn folder_value_missing() -> Seq<char> {
    "--folder 后面需要一个目录路径"@
}

pub open spec fn seconds_value_missing() -> Seq<char> {
    "--probe-seconds 后面需要秒数"@
}

pub open spec fn seconds_not_a_number() -> Seq<char> {
    "--probe-seconds 必须是非负整数"@
}

pub open spec fn unknown_argument(argument: Seq<char>) -> Seq<char> {
    "无法识别参数："@ + argument
}

pub open spec fn ipc_with_probe() -> Seq<char> {
    "--ipc-stdio 不能与文件夹探针参数一起使用"@
}

pub open spec fn folder_missing() -> Seq<char> {
    "缺少 --folder <真实文件夹>"@
}

/// The options once every argument was read.
pub open spec fn options_end(folder: Option<Seq<char>>, probe: Option<nat>, ipc: bool) -> Result<OptionsModel, Seq<char>> {
    if ipc {
        if folder is Some || probe is Some {
            Err(ipc_with_probe())
        } else {
            Ok(OptionsModel::IpcStdio)
        }
    } else {
        match folder {
            None => Err(folder_missing()),
            Some(f) => Ok(OptionsModel::FolderProbe { folder: f, probe_seconds: probe }),
        }
    }
}

/// The options read from the arguments at position `i` on, with what was
/// read before.
pub open spec fn options_from(
    args: Seq<Seq<char>>,
    i: int,
    folder: Option<Seq<char>>,
    probe: Option<nat>,
    ipc: bool,
) -> Result<OptionsModel, Seq<char>>
    decreases args.len() - i,
{
    if i < 1 || i >= args.len() {
        options_end(folder, probe, ipc)
    } else if args[i] == "--folder"@ {
        if i + 1 < args.len() {
            options_from(args, i + 2, Some(args[i + 1]), probe, ipc)
        } else {
            Err(folder_value_missing())
        }
    } else if args[i] == "--probe-seconds"@ {
        if i + 1 >= args.len() {
            Err(seconds_value_missing())
        } else {
            match parse_unsigned(args[i + 1], u64::MAX as nat) {
                Some(n) => options_from(args, i + 2, folder, Some(n), ipc),
                None => Err(seconds_not_a_number()),
            }
        }
    } else if args[i] == "--ipc-stdio"@ {
        options_from(args, i + 1, folder, probe, true)
    } else {
        Err(unknown_argument(args[i]))
    }
}

pub open spec fn arg_texts(args: Seq<String>) -> Seq<Seq<char>> {
    args.map_values(|a: String| a@)
}

/// Reads the desktop host's arguments (the first is the program). Whether
/// the folder of a probe exists is for the caller to check.
pub fn parse_options(args: &[String]) -> (r: Result<HostOptions, String>)
    ensures
        match options_from(arg_texts(args@), 1, None, None, false) {
            Ok(m) => r matches Ok(o) && options_model(o) == m,
            Err(e) => r matches Err(msg) && msg@ == e,
        },
{
    let ghost texts = arg_texts(args@);
    let mut folder: Option<String> = None;
    let mut probe: Option<u64> = None;
    let mut ipc = false;
    let mut i: usize = 1;
    proof {
        reveal_strlit("--folder");
        reveal_strlit("--probe-seconds");
        reveal_strlit("--ipc-stdio");
    }
    while i < args.len()
        invariant
            1 <= i,
            texts == arg_texts(args@),
            options_from(texts, 1, None, None, false) == options_from(
                texts,
                i as int,
                match folder {
                    Some(f) => Some(f@),
                    None => None,
                },
                match probe {
                    Some(p) => Some(p as nat),
                    None => None,
                },
                ipc,
            ),
        decreases args@.len() + 1 - i,
    {
        let argument = chars_of(args[i].as_str());
        assert(argument@ == texts[i as int]);
        if chars_are(&argument, "--folder") {
            if i + 1 < args.len() {
                folder = Some(args[i + 1].clone());
                i = i + 2;
            } else {
                return Err(String::from_str("--folder 后面需要一个目录路径"));
            }
        } else if chars_are(&argument, "--probe-seconds") {
            if i + 1 >= args.len() {
                return Err(String::from_str("--probe-seconds 后面需要秒数"));
            }
            let value = chars_of(args[i + 1].as_str());
            assert(value@ == texts[i + 1]);
            match parse_u64(&value) {
                Some(n) => {
                    probe = Some(n);
                    i = i + 2;
                },
                None => {
                    return Err(String::from_str("--probe-seconds 必须是非负整数"));
                },
            }
        } else if chars_are(&argument, "--ipc-stdio") {
            ipc = true;
            i = i + 1;
        } else {
            let mut message = String::from_str("无法识别参数：");
            message.append(args[i].as_str());
            return Err(message);
        }
    }
    if ipc {
        if folder.is_some() || probe.is_some() {
            return Err(String::from_str("--ipc-stdio 不能与文件夹探针参数一起使用"));
        }
        return Ok(HostOptions::IpcStdio);
    }
    match folder {
        None => Err(String::from_str("缺少 --folder <真实文件夹>")),
        Some(folder) => Ok(HostOptions::FolderProbe { folder, probe_seconds: probe }),
    }
}

/// The revision after `revision`: one more, wrapping past the largest
/// value to one, so that zero is never used.
pub open spec fn following_revision(revision: u64) -> u64 {
    if revision == u64::MAX {
        1
    } else {
        (revision + 1) as u64
    }
}

pub fn next_revision(revision: u64) -> (r: u64)
    ensures
        r == following_revision(revision),
{
    let next = revision.wrapping_add(1);
    if next < 1 {
        1
    } else {
        next
    }
}

/// Revisions handed out one after another are never zero.
pub proof fn law_revisions_are_never_zero(revision: u64)
    ensures
        following_revision(revision) >= 1,
        revision < u64::MAX ==> following_revision(revision) == revision + 1,
{
}

/// How long the supervisor waits after `failures` failed syncs in a row, in
/// milliseconds; the waits grow and stop at five seconds.
pub open spec fn retry_delay_ms(failures: nat) -> nat {
    if failures <= 1 {
        250
    } else if failures == 2 {
        500
    } else if failures <= 4 {
        1000
    } else if failures == 5 {
        2000
    } else if failures == 6 {
        3000
    } else {
        5000
    }
}

/// How long the supervisor waits while nothing needs doing, in milliseconds.
pub const MONITOR_INTERVAL_MS: u64 = 5000;

/// What the supervisor does after a round: the failures in a row since, how
/// long to wait, and whether another sync is asked for.
#[derive(Debug, Clone, Copy, PartialEq, Eq, Structural)]
pub struct SupervisorStep {
    pub failures: usize,
    pub wait_ms: u64,
    pub retry: bool,
}

/// The supervisor's decision after a round in which a sync was tried or not
/// (`attempted`) and, if tried, succeeded or not.
pub fn supervisor_step(failures: usize, attempted: bool, succeeded: bool) -> (step: SupervisorStep)
    ensures
        !attempted ==> step == (SupervisorStep { failures, wait_ms: MONITOR_INTERVAL_MS, retry: false }),
        attempted && succeeded ==> step == (SupervisorStep { failures: 0, wait_ms: MONITOR_INTERVAL_MS, retry: false }),
        attempted && !succeeded ==> {
            let next = if failures == usize::MAX { usize::MAX as int } else { failures + 1 };
            &&& step.failures == next
            &&& step.wait_ms == retry_delay_ms(next as nat)
            &&& step.retry
        },
{
    if !attempted {
        return SupervisorStep { failures, wait_ms: MONITOR_INTERVAL_MS, retry: false };
    }
    if succeeded {
        return SupervisorStep { failures: 0, wait_ms: MONITOR_INTERVAL_MS, retry: false };
    }
    let next = failures.saturating_add(1);
    let delays: [u64; 7] = [250, 500, 1000, 1000, 2000, 3000, 5000];
    let slot = if next - 1 < 6 {
        next - 1
    } else {
        6
    };
    let wait_ms = delays[slot];
    SupervisorStep { failures: next, wait_ms, retry: true }
}

/// The waits after failed syncs never shrink while the failures go on, and
/// never pass five seconds.
pub proof fn law_retry_delays_grow_and_stop(failures: nat)
    ensures
        retry_delay_ms(failures) <= retry_delay_ms(failures + 1),
        retry_delay_ms(failures) <= 5000,
{
}

/// Where a user action in the desktop host leads.
pub enum ActionRoute {
    Quit,
    CreateStorageBox,
    CreateMappedBox,
    Fence(String),
}

/// The fence a user action concerns, or what it asks of the application.
pub fn action_route(action: &HostUserAction) -> (route: ActionRoute)
    ensures
        match action {
            HostUserAction::QuitApplication => route is Quit,
            HostUserAction::CreateStorageBox => route is CreateStorageBox,
            HostUserAction::CreateMappedBox => route is CreateMappedBox,
            HostUserAction::RenameFence { id, .. } => route matches ActionRoute::Fence(f) && f == id,
            HostUserAction::ToggleFenceCollapsed { id } => route matches ActionRoute::Fence(f) && f == id,
            HostUserAction::ToggleFenceLocked { id } => route matches ActionRoute::Fence(f) && f == id,
            HostUserAction::SetFenceColor { id, .. } => route matches ActionRoute::Fence(f) && f == id,
            HostUserAction::ResetFenceSize { id } => route matches ActionRoute::Fence(f) && f == id,
            HostUserAction::RemoveFence { id } => route matches ActionRoute::Fence(f) && f == id,
        },
{
    match action {
        HostUserAction::QuitApplication => ActionRoute::Quit,
        HostUserAction::CreateStorageBox => ActionRoute::CreateStorageBox,
        HostUserAction::CreateMappedBox => ActionRoute::CreateMappedBox,
        HostUserAction::RenameFence { id, .. } => ActionRoute::Fence(id.clone()),
        HostUserAction::ToggleFenceCollapsed { id } => ActionRoute::Fence(id.clone()),
        HostUserAction::ToggleFenceLocked { id } => ActionRoute::Fence(id.clone()),
        HostUserAction::SetFenceColor { id, .. } => ActionRoute::Fence(id.clone()),
        HostUserAction::ResetFenceSize { id } => ActionRoute::Fence(id.clone()),
        HostUserAction::RemoveFence { id } => ActionRoute::Fence(id.clone()),
    }
}

/// The settings change a fence action makes, given the fence's current
/// collapsed and locked states; none for resizing and removal.
pub fn action_patch(action: &HostUserAction, collapsed: bool, locked: bool) -> (patch: Option<FencePatch>)
    ensures
        match action {
            HostUserAction::RenameFence { title, .. } => patch matches Some(p) && p.title == Some(*title)
                && p.color is None && p.content_color is None && p.collapsed is None && p.locked is None,
            HostUserAction::ToggleFenceCollapsed { .. } => patch matches Some(p) && p.collapsed == Some(!collapsed)
                && p.title is None && p.color is None && p.content_color is None && p.locked is None,
            HostUserAction::ToggleFenceLocked { .. } => patch matches Some(p) && p.locked == Some(!locked)
                && p.title is None && p.color is None && p.content_color is None && p.collapsed is None,
            HostUserAction::SetFenceColor { color, .. } => patch matches Some(p) && p.color == Some(*color)
                && p.title is None && p.content_color is None && p.collapsed is None && p.locked is None,
            _ => patch is None,
        },
{
    match action {
        HostUserAction::RenameFence { title, .. } => Some(FencePatch { title: Some(title.clone()), ..FencePatch::default() }),
        HostUserAction::ToggleFenceCollapsed { .. } => Some(FencePatch { collapsed: Some(!collapsed), ..FencePatch::default() }),
        HostUserAction::ToggleFenceLocked { .. } => Some(FencePatch { locked: Some(!locked), ..FencePatch::default() }),
        HostUserAction::SetFenceColor { color, .. } => Some(FencePatch { color: Some(color.clone()), ..FencePatch::default() }),
        _ => None,
    }
}

pub open spec fn quoted(title: Seq<char>) -> Seq<char> {
    "「"@ + title + "」"@
}

/// What the user is told after renaming a fence to `title`.
pub fn renamed_message(title: &str) -> (m: String)
    ensures
        m@ == "已重命名为"@ + quoted(title@),
{
    let mut m = String::from_str("已重命名为「");
    m.append(title);
    m.append("」");
    proof {
        reveal_strlit("已重命名为「");
        reveal_strlit("已重命名为");
        reveal_strlit("「");
    }
    assert(m@ =~= "已重命名为"@ + quoted(title@));
    m
}

/// What the user is told after collapsing or expanding a fence.
pub fn collapsed_message(collapsed: bool, title: &str) -> (m: String)
    ensures
        m@ == (if collapsed { "已收起"@ } else { "已展开"@ }) + quoted(title@),
{
    let mut m = if collapsed {
        String::from_str("已收起「")
    } else {
        String::from_str("已展开「")
    };
    m.append(title);
    m.append("」");
    proof {
        reveal_strlit("已收起「");
        reveal_strlit("已展开「");
        reveal_strlit("已收起");
        reveal_strlit("已展开");
        reveal_strlit("「");
    }
    assert(m@ =~= (if collapsed { "已收起"@ } else { "已展开"@ }) + quoted(title@));
    m
}

/// What the user is told after locking or unlocking a fence's position.
pub fn locked_message(locked: bool, title: &str) -> (m: String)
    ensures
        m@ == (if locked { "已锁定"@ } else { "已解锁"@ }) + quoted(title@) + "的位置"@,
{
    let mut m = if locked {
        String::from_str("已锁定「")
    } else {
        String::from_str("已解锁「")
    };
    m.append(title);
    m.append("」的位置");
    proof {
        reveal_strlit("已锁定「");
        reveal_strlit("已解锁「");
        reveal_strlit("已锁定");
        reveal_strlit("已解锁");
        reveal_strlit("「");
        reveal_strlit("」的位置");
        reveal_strlit("」");
        reveal_strlit("的位置");
    }
    assert(m@ =~= (if locked { "已锁定"@ } else { "已解锁"@ }) + quoted(title@) + "的位置"@);
    m
}

/// What the user is told after a fence's colour changed.
pub fn color_message() -> (m: String)
    ensures
        m@ == "已更新盒子颜色"@,
{
    String::from_str("已更新盒子颜色")
}

pub open spec fn decimal_text(v: int) -> Seq<char> {
    if v < 0 {
        "-"@ + decimal_digits((-v) as nat)
    } else {
        decimal_digits(v as nat)
    }
}

fn decimal_string(v: i32) -> (s: String)
    ensures
        s@ == decimal_text(v as int),
{
    if v < 0 {
        let mut s = String::from_str("-");
        let magnitude = (0i64 - v as i64) as u64;
        let digits = string_from_chars(&decimal_chars(magnitude));
        s.append(digits.as_str());
        s
    } else {
        string_from_chars(&decimal_chars(v as u64))
    }
}

/// What the user is told after a fence got its default size back.
pub fn reset_size_message(title: &str, width: i32, height: i32) -> (m: String)
    ensures
        m@ == "已把"@ + quoted(title@) + "恢复为默认大小 "@ + decimal_text(width as int) + " × "@
            + decimal_text(height as int),
{
    let mut m = String::from_str("已把「");
    m.append(title);
    m.append("」恢复为默认大小 ");
    m.append(decimal_string(width).as_str());
    m.append(" × ");
    m.append(decimal_string(height).as_str());
    proof {
        reveal_strlit("已把「");
        reveal_strlit("已把");
        reveal_strlit("「");
        reveal_strlit("」恢复为默认大小 ");
        reveal_strlit("」");
        reveal_strlit("恢复为默认大小 ");
    }
    assert(m@ =~= "已把"@ + quoted(title@) + "恢复为默认大小 "@ + decimal_text(width as int) + " × "@
        + decimal_text(height as int));
    m
}

/// What the user is told after a fence was removed; its folder stays.
pub fn removed_message(title: &str) -> (m: String)
    ensures
        m@ == "已移除"@ + quoted(title@) + "；文件夹和其中的内容没有删除"@,
{
    let mut m = String::from_str("已移除「");
    m.append(title);
    m.append("」；文件夹和其中的内容没有删除");
    proof {
        reveal_strlit("已移除「");
        reveal_strlit("已移除");
        reveal_strlit("「");
        reveal_strlit("」；文件夹和其中的内容没有删除");
        reveal_strlit("」");
        reveal_strlit("；文件夹和其中的内容没有删除");
    }
    assert(m@ =~= "已移除"@ + quoted(title@) + "；文件夹和其中的内容没有删除"@);
    m
}

/// The commands of a fence's menu.
pub const FENCE_MENU_NEW: usize = 100;
pub const FENCE_MENU_OPEN: usize = 101;
pub const FENCE_MENU_RENAME: usize = 102;
pub const FENCE_MENU_COLLAPSE: usize = 103;
pub const FENCE_MENU_LOCK: usize = 104;
pub const FENCE_MENU_NEW_FOLDER: usize = 105;
pub const FENCE_MENU_REFRESH: usize = 106;
pub const FENCE_MENU_UNDO_GEOMETRY: usize = 107;
pub const FENCE_MENU_NEW_MAPPED: usize = 108;
pub const FENCE_MENU_RESET_SIZE: usize = 109;
pub const FENCE_MENU_COLOR_FIRST: usize = 110;
pub const FENCE_MENU_REMOVE: usize = 120;

/// The colour name of the `i`-th colour entry of the menu.
pub open spec fn menu_color(i: int) -> Seq<char> {
    seq!["coral"@, "sage"@, "butter"@, "sky"@, "lilac"@, "graphite"@][i]
}

/// What the main program is asked to do after a command of fence `id`'s
/// menu. `entered_title` is what the rename dialog returned (none when it
/// was cancelled) and `remove_confirmed` whether removal was confirmed. A
/// rename is asked for only when the trimmed title differs from `title`;
/// commands the fence handles itself (open, new folder, refresh, undo) ask
/// nothing.
pub fn box_menu_action(
    command: usize,
    id: &str,
    title: &str,
    entered_title: Option<&str>,
    remove_confirmed: bool,
) -> (r: Option<HostUserAction>)
    ensures
        command == FENCE_MENU_NEW ==> r == Some(HostUserAction::CreateStorageBox),
        command == FENCE_MENU_NEW_MAPPED ==> r == Some(HostUserAction::CreateMappedBox),
        command == FENCE_MENU_RENAME ==> match entered_title {
            Some(t) => if trim(t@) != title@ {
                r is Some && r->0 is RenameFence && r->0->RenameFence_id@ == id@
                    && r->0->RenameFence_title@ == trim(t@)
            } else {
                r is None
            },
            None => r is None,
        },
        command == FENCE_MENU_RESET_SIZE ==> r is Some && r->0 is ResetFenceSize && r->0->ResetFenceSize_id@
            == id@,
        command == FENCE_MENU_COLLAPSE ==> r is Some && r->0 is ToggleFenceCollapsed
            && r->0->ToggleFenceCollapsed_id@ == id@,
        command == FENCE_MENU_LOCK ==> r is Some && r->0 is ToggleFenceLocked && r->0->ToggleFenceLocked_id@
            == id@,
        FENCE_MENU_COLOR_FIRST <= command < FENCE_MENU_COLOR_FIRST + 6 ==> r is Some && r->0 is SetFenceColor
            && r->0->SetFenceColor_id@ == id@ && r->0->SetFenceColor_color@ == menu_color(
            command - FENCE_MENU_COLOR_FIRST,
        ),
        command == FENCE_MENU_REMOVE ==> if remove_confirmed {
            r is Some && r->0 is RemoveFence && r->0->RemoveFence_id@ == id@
        } else {
            r is None
        },
        !(command == FENCE_MENU_NEW || command == FENCE_MENU_NEW_MAPPED || command == FENCE_MENU_RENAME
            || command == FENCE_MENU_RESET_SIZE || command == FENCE_MENU_COLLAPSE || command == FENCE_MENU_LOCK
            || (FENCE_MENU_COLOR_FIRST <= command < FENCE_MENU_COLOR_FIRST + 6) || command == FENCE_MENU_REMOVE)
            ==> r is None,
{
    if command == FENCE_MENU_NEW {
        Some(HostUserAction::CreateStorageBox)
    } else if command == FENCE_MENU_NEW_MAPPED {
        Some(HostUserAction::CreateMappedBox)
    } else if command == FENCE_MENU_RENAME {
        match entered_title {
            Some(t) => {
                let trimmed = trim_chars(&chars_of(t));
                let current = chars_of(title);
                if chars_equal(&trimmed, &current) {
                    None
                } else {
                    Some(HostUserAction::RenameFence { id: String::from_str(id), title: string_from_chars(&trimmed) })
                }
            },
            None => None,
        }
    } else if command == FENCE_MENU_RESET_SIZE {
        Some(HostUserAction::ResetFenceSize { id: String::from_str(id) })
    } else if command == FENCE_MENU_COLLAPSE {
        Some(HostUserAction::ToggleFenceCollapsed { id: String::from_str(id) })
    } else if command == FENCE_MENU_LOCK {
        Some(HostUserAction::ToggleFenceLocked { id: String::from_str(id) })
    } else if command >= FENCE_MENU_COLOR_FIRST && command < FENCE_MENU_COLOR_FIRST + 6 {
        let colors = fence_colors();
        let color = String::from_str(colors[command - FENCE_MENU_COLOR_FIRST].0);
        proof {
            reveal_strlit("coral");
            reveal_strlit("sage");
            reveal_strlit("butter");
            reveal_strlit("sky");
            reveal_strlit("lilac");
            reveal_strlit("graphite");
        }
        Some(HostUserAction::SetFenceColor { id: String::from_str(id), color })
    } else if command == FENCE_MENU_REMOVE && remove_confirmed {
        Some(HostUserAction::RemoveFence { id: String::from_str(id) })
    } else {
        None
    }
}

} // verus!
