use dcreel::hotkey::{parse_hotkey, HotkeyChordTracker, HotkeyHookResult, ReplayKeyboardEvent};

#[test]
fn ghost_hotkey_parser_supports_multiple_ordinary_keys_and_function_keys() {
    let shortcut = parse_hotkey("Z+X").unwrap();
    assert_eq!(shortcut.keys, vec![u32::from(b'X'), u32::from(b'Z')]);
    assert_eq!(
        parse_hotkey("Ctrl+Alt+G").unwrap().keys,
        vec![0x11, 0x12, u32::from(b'G')]
    );
    assert_eq!(parse_hotkey("Shift+F12").unwrap().keys, vec![0x10, 0x7b]);
    assert_eq!(parse_hotkey("G").unwrap().keys, vec![u32::from(b'G')]);
    assert!(parse_hotkey("Ctrl+Shift").is_err());
    assert!(parse_hotkey("Z+Z").is_err());
    assert!(parse_hotkey("Ctrl+unknown-key").is_err());
}

#[test]
fn ghost_hotkey_tracker_triggers_once_until_every_chord_key_is_released() {
    let mut tracker = HotkeyChordTracker::default();
    tracker.set_chord(Some(parse_hotkey("Z+X").unwrap()));

    assert_eq!(
        tracker.handle_key(u32::from(b'Z'), true),
        HotkeyHookResult {
            trigger: false,
            suppress: true,
            ..HotkeyHookResult::default()
        }
    );
    assert_eq!(
        tracker.handle_key(u32::from(b'X'), true),
        HotkeyHookResult {
            trigger: true,
            suppress: true,
            ..HotkeyHookResult::default()
        }
    );
    assert!(!tracker.handle_key(u32::from(b'X'), true).trigger);
    assert!(tracker.handle_key(u32::from(b'X'), false).suppress);
    assert!(!tracker.handle_key(u32::from(b'X'), true).trigger);
    assert!(tracker.handle_key(u32::from(b'X'), false).suppress);
    assert!(tracker.handle_key(u32::from(b'Z'), false).suppress);

    assert!(!tracker.handle_key(u32::from(b'X'), true).trigger);
    assert!(tracker.handle_key(u32::from(b'Z'), true).trigger);
}

#[test]
fn ordinary_hotkey_members_are_replayed_when_the_chord_is_not_completed() {
    let mut tracker = HotkeyChordTracker::default();
    tracker.set_chord(Some(parse_hotkey("Z+X").unwrap()));

    let down = tracker.handle_key(u32::from(b'Z'), true);
    assert!(down.suppress);
    assert!(down.replay.is_empty());

    let up = tracker.handle_key(u32::from(b'Z'), false);
    assert!(up.suppress);
    assert_eq!(
        up.replay,
        vec![
            ReplayKeyboardEvent::key(u32::from(b'Z'), true),
            ReplayKeyboardEvent::key(u32::from(b'Z'), false),
        ]
    );

    let x_down = tracker.handle_key(u32::from(b'X'), true);
    assert!(x_down.suppress);
    let x_up = tracker.handle_key(u32::from(b'X'), false);
    assert_eq!(
        x_up.replay,
        vec![
            ReplayKeyboardEvent::key(u32::from(b'X'), true),
            ReplayKeyboardEvent::key(u32::from(b'X'), false),
        ]
    );
}

#[test]
fn overlapping_normal_typing_is_replayed_in_input_order() {
    let mut tracker = HotkeyChordTracker::default();
    tracker.set_chord(Some(parse_hotkey("Z+X").unwrap()));

    assert!(tracker.handle_key(u32::from(b'Z'), true).suppress);
    let unrelated = tracker.handle_key(u32::from(b'A'), true);
    assert!(unrelated.suppress);
    assert_eq!(
        unrelated.replay,
        vec![
            ReplayKeyboardEvent::key(u32::from(b'Z'), true),
            ReplayKeyboardEvent::key(u32::from(b'Z'), false),
            ReplayKeyboardEvent::key(u32::from(b'A'), true),
        ]
    );
    assert_eq!(
        tracker.handle_key(u32::from(b'A'), false),
        HotkeyHookResult::default()
    );
    assert!(tracker.handle_key(u32::from(b'Z'), false).suppress);
}

#[test]
fn incomplete_modified_multi_key_chord_replays_the_original_shortcut() {
    let mut tracker = HotkeyChordTracker::default();
    tracker.set_chord(Some(parse_hotkey("Ctrl+Z+X").unwrap()));

    assert_eq!(tracker.handle_key(0xa2, true), HotkeyHookResult::default());
    assert!(tracker.handle_key(u32::from(b'Z'), true).suppress);
    let z_up = tracker.handle_key(u32::from(b'Z'), false);
    assert_eq!(
        z_up.replay,
        vec![
            ReplayKeyboardEvent::key(u32::from(b'Z'), true),
            ReplayKeyboardEvent::key(u32::from(b'Z'), false),
        ]
    );
    assert!(z_up.suppress);
    assert_eq!(tracker.handle_key(0xa2, false), HotkeyHookResult::default());
}

#[test]
fn modified_ghost_hotkey_suppresses_the_action_key_but_not_modifiers() {
    let mut tracker = HotkeyChordTracker::default();
    tracker.set_chord(Some(parse_hotkey("Ctrl+Shift+Z").unwrap()));

    assert_eq!(tracker.handle_key(0xa2, true), HotkeyHookResult::default());
    assert_eq!(tracker.handle_key(0xa1, true), HotkeyHookResult::default());
    assert_eq!(
        tracker.handle_key(u32::from(b'Z'), true),
        HotkeyHookResult {
            trigger: true,
            suppress: true,
            ..HotkeyHookResult::default()
        }
    );
    assert!(tracker.handle_key(u32::from(b'Z'), false).suppress);
    assert!(!tracker.handle_key(0xa1, false).suppress);
    assert!(!tracker.handle_key(0xa2, false).suppress);
}

#[test]
fn hotkey_parser_reports_each_refusal() {
    assert!(parse_hotkey("").is_err());
    assert!(parse_hotkey("  ").is_err());
    assert!(parse_hotkey("Ctrl+").is_err());
    assert_eq!(parse_hotkey(" ctrl + Alt + G ").unwrap().keys, vec![0x11, 0x12, u32::from(b'G')]);
}

#[test]
fn tracker_without_a_chord_passes_every_key() {
    let mut tracker = HotkeyChordTracker::new();
    assert_eq!(tracker.handle_key(u32::from(b'Z'), true), HotkeyHookResult::pass());
    assert_eq!(tracker.handle_key(u32::from(b'Z'), false), HotkeyHookResult::pass());
}

#[test]
fn released_event_keeps_the_key() {
    let event = ReplayKeyboardEvent::key(0x41, true).released();
    assert_eq!(event, ReplayKeyboardEvent::key(0x41, false));
}
