//! The desktop notification popup: what it shows, and when it may be shown,
//! timed out or dismissed. A timeout belongs to one notification and to the
//! render in which it was shown; `shown_at` is the instant of that render,
//! as a tick count of a monotonic clock.

use vstd::prelude::*;
use crate::ids::{is_hyphenated_uuid, random_uuid_text};
use crate::text::str_equal;

verus! {

#[derive(Clone, Copy, Debug, PartialEq, Eq, Structural)]
pub enum NotificationKind {
    Message,
    Update,
}

impl NotificationKind {
    /// The name the web page receives (`"message"` or `"update"`).
    pub fn name(&self) -> (r: &'static str)
        ensures
            r@ == (match self {
                NotificationKind::Message => "message"@,
                NotificationKind::Update => "update"@,
            }),
    {
        match self {
            NotificationKind::Message => "message",
            NotificationKind::Update => "update",
        }
    }
}

#[derive(Debug)]
pub struct DesktopNotification {
    pub id: String,
    pub kind: NotificationKind,
    pub title: String,
    pub message: String,
    pub version: Option<String>,
}

impl Clone for DesktopNotification {
    fn clone(&self) -> (r: Self)
        ensures
            r == *self,
    {
        DesktopNotification {
            id: self.id.clone(),
            kind: self.kind,
            title: self.title.clone(),
            message: self.message.clone(),
            version: match &self.version {
                Some(v) => Some(v.clone()),
                None => None,
            },
        }
    }
}

/// The title of the notification that announces a new version.
pub open spec fn update_title() -> Seq<char> {
    "DCreel 有新版本"@
}

/// The message of the notification that announces `version`.
pub open spec fn update_message(version: Seq<char>) -> Seq<char> {
    "版本 "@ + version + " 已经可以下载"@
}

/// A plain message notification with a fresh identifier.
pub fn message_notification(title: String, message: String) -> (n: DesktopNotification)
    ensures
        is_hyphenated_uuid(n.id@),
        n.kind == NotificationKind::Message,
        n.title@ == title@,
        n.message@ == message@,
        n.version is None,
{
    DesktopNotification {
        id: random_uuid_text(),
        kind: NotificationKind::Message,
        title,
        message,
        version: None,
    }
}

/// The notification that announces that `version` can be downloaded.
pub fn update_notification(version: String) -> (n: DesktopNotification)
    ensures
        is_hyphenated_uuid(n.id@),
        n.kind == NotificationKind::Update,
        n.title@ == update_title(),
        n.message@ == update_message(version@),
        n.version matches Some(v) && v@ == version@,
{
    let mut message = String::from_str("版本 ");
    message.append(version.as_str());
    message.append(" 已经可以下载");
    DesktopNotification {
        id: random_uuid_text(),
        kind: NotificationKind::Update,
        title: String::from_str("DCreel 有新版本"),
        message,
        version: Some(version),
    }
}

/// What the notification window holds: the current notification, the
/// instant it was last shown (none while it waits to be rendered), and
/// whether the page has subscribed to new notifications.
#[derive(Debug)]
pub struct NotificationState {
    pub current: Option<DesktopNotification>,
    pub shown_at: Option<u64>,
    pub subscribed: bool,
}

pub open spec fn holds_id(current: Option<DesktopNotification>, id: Seq<char>) -> bool {
    current matches Some(n) && n.id@ == id
}

pub open spec fn holds_message(current: Option<DesktopNotification>) -> bool {
    current matches Some(n) && n.kind == NotificationKind::Message
}

impl NotificationState {
    pub fn new() -> (s: Self)
        ensures
            s.current is None,
            s.shown_at is None,
            !s.subscribed,
    {
        NotificationState { current: None, shown_at: None, subscribed: false }
    }

    /// Whether the current notification has identifier `id`.
    pub fn matches(&self, id: &str) -> (r: bool)
        ensures
            r == holds_id(self.current, id@),
    {
        match &self.current {
            Some(current) => str_equal(current.id.as_str(), id),
            None => false,
        }
    }

    /// Whether the timeout started for notification `id` when it was shown
    /// at `shown_at` may still hide it: the same notification, shown in the
    /// same render, and a plain message (an update stays until dismissed).
    pub fn can_expire(&self, id: &str, shown_at: u64) -> (r: bool)
        ensures
            r == (holds_id(self.current, id@) && self.shown_at == Some(shown_at) && holds_message(
                self.current,
            )),
    {
        if !self.matches(id) {
            return false;
        }
        match self.shown_at {
            Some(t) => {
                if t != shown_at {
                    return false;
                }
            },
            None => {
                return false;
            },
        }
        match &self.current {
            Some(current) => current.kind == NotificationKind::Message,
            None => false,
        }
    }

    /// A new notification replaces the current one and waits to be rendered.
    pub fn replace(&mut self, notification: DesktopNotification)
        ensures
            final(self).current == Some(notification),
            final(self).shown_at is None,
            final(self).subscribed == old(self).subscribed,
    {
        self.current = Some(notification);
        self.shown_at = None;
    }

    /// The page subscribes: it must render again, and gets the current
    /// notification to replay.
    pub fn subscribe(&mut self) -> (replay: Option<DesktopNotification>)
        ensures
            replay == old(self).current,
            final(self).current == old(self).current,
            final(self).shown_at is None,
            final(self).subscribed,
    {
        self.shown_at = None;
        self.subscribed = true;
        match &self.current {
            Some(current) => Some(current.clone()),
            None => None,
        }
    }

    /// Whether the page's report that it rendered `id` should show the
    /// window: only for the current notification, and only once per render.
    pub fn should_present(&self, id: &str) -> (r: bool)
        ensures
            r == (holds_id(self.current, id@) && self.shown_at is None),
    {
        self.matches(id) && self.shown_at.is_none()
    }

    /// Records that the window was shown at `now`; the result says whether a
    /// timeout should be started for it.
    pub fn mark_presented(&mut self, now: u64) -> (start_timeout: bool)
        ensures
            final(self).current == old(self).current,
            final(self).shown_at == Some(now),
            final(self).subscribed == old(self).subscribed,
            start_timeout == holds_message(old(self).current),
    {
        self.shown_at = Some(now);
        match &self.current {
            Some(current) => current.kind == NotificationKind::Message,
            None => false,
        }
    }

    /// Whether a request to dismiss `id` (any notification for `None`)
    /// applies to what is shown now.
    pub fn may_dismiss(&self, id: Option<&str>) -> (r: bool)
        ensures
            r == match id {
                Some(id) => holds_id(self.current, id@),
                None => true,
            },
    {
        match id {
            Some(id) => self.matches(id),
            None => true,
        }
    }

    /// The window was hidden: nothing is shown any more.
    pub fn clear(&mut self)
        ensures
            final(self).current is None,
            final(self).shown_at is None,
            final(self).subscribed == old(self).subscribed,
    {
        self.current = None;
        self.shown_at = None;
    }

    /// The page reloads: it is no longer subscribed and must render again.
    pub fn page_loading(&mut self)
        ensures
            final(self).current == old(self).current,
            final(self).shown_at is None,
            !final(self).subscribed,
    {
        self.shown_at = None;
        self.subscribed = false;
    }
}

/// A timeout can hide only the notification it was started for, in the
/// render it was started for, and only a plain message.
pub proof fn law_timeout_bound_to_notification_and_render(
    state: NotificationState,
    id: Seq<char>,
    shown_at: u64,
)
    requires
        holds_id(state.current, id) && state.shown_at == Some(shown_at) && holds_message(
            state.current,
        ),
    ensures
        state.current matches Some(n) && n.id@ == id && n.kind == NotificationKind::Message,
        forall|other: u64| other != shown_at ==> !(state.shown_at == Some(other)),
{
}

/// After a new notification arrives, or the page subscribes or reloads, no
/// earlier timeout can hide anything until the page has rendered again.
pub proof fn law_new_render_cancels_timeouts(state: NotificationState)
    requires
        state.shown_at is None,
    ensures
        forall|id: Seq<char>, t: u64|
            !(holds_id(state.current, id) && state.shown_at == Some(t) && holds_message(
                state.current,
            )),
{
}

} // verus!
