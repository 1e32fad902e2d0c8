use dcreel::notifications::{
    message_notification, update_notification, DesktopNotification, NotificationKind,
    NotificationState,
};

fn notification(id: &str, kind: NotificationKind) -> DesktopNotification {
    DesktopNotification {
        id: id.into(),
        kind,
        title: String::new(),
        message: String::new(),
        version: None,
    }
}

#[test]
fn timeout_is_bound_to_notification_and_render_generation() {
    let time = 1_000;
    let mut state = NotificationState {
        current: Some(notification("new", NotificationKind::Message)),
        shown_at: Some(time),
        subscribed: false,
    };
    assert!(!state.can_expire("old", time));
    assert!(state.can_expire("new", time));
    state.shown_at = None;
    assert!(!state.can_expire("new", time));
    state.shown_at = Some(time + 1_000);
    assert!(!state.can_expire("new", time));
    state.current.as_mut().unwrap().kind = NotificationKind::Update;
    assert!(!state.can_expire("new", state.shown_at.unwrap()));
}

#[test]
fn a_notification_is_presented_once_per_render() {
    let mut state = NotificationState::new();
    state.replace(notification("a", NotificationKind::Message));
    assert!(state.should_present("a"));
    assert!(!state.should_present("b"));
    assert!(state.mark_presented(7));
    assert!(!state.should_present("a"));
    assert!(state.can_expire("a", 7));
    let replay = state.subscribe();
    assert_eq!(replay.unwrap().id, "a");
    assert!(state.subscribed);
    assert!(!state.can_expire("a", 7));
    assert!(state.should_present("a"));
}

#[test]
fn updates_wait_for_the_user() {
    let mut state = NotificationState::new();
    state.replace(notification("u", NotificationKind::Update));
    assert!(!state.mark_presented(3));
    assert!(!state.can_expire("u", 3));
}

#[test]
fn dismissing_checks_the_identifier() {
    let mut state = NotificationState::new();
    state.replace(notification("a", NotificationKind::Message));
    assert!(!state.may_dismiss(Some("b")));
    assert!(state.may_dismiss(Some("a")));
    assert!(state.may_dismiss(None));
    state.clear();
    assert!(state.current.is_none());
    state.page_loading();
    assert!(!state.subscribed);
}

#[test]
fn new_notifications_get_fresh_identifiers_and_texts() {
    let first = message_notification("标题".into(), "内容".into());
    let second = message_notification("标题".into(), "内容".into());
    assert_eq!(first.id.len(), 36);
    assert_ne!(first.id, second.id);
    assert_eq!(first.kind.name(), "message");
    let update = update_notification("1.2.3".into());
    assert_eq!(update.kind.name(), "update");
    assert_eq!(update.title, "DCreel 有新版本");
    assert_eq!(update.message, "版本 1.2.3 已经可以下载");
    assert_eq!(update.version.as_deref(), Some("1.2.3"));
}
