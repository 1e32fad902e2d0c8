use dcreel::host::{box_menu_action, FENCE_MENU_COLOR_FIRST, FENCE_MENU_REFRESH, FENCE_MENU_REMOVE, FENCE_MENU_RENAME};
use dcreel::host::{
    action_patch, action_route, collapsed_message, color_message, locked_message, removed_message,
    renamed_message, reset_size_message, ActionRoute,
};
use dcreel::ipc::HostUserAction;
use dcreel::models::{
    apply_fence_patch, default_content_color, default_ghost_hotkey, default_icon_size, default_true,
    normalize_fence_attributes, normalized_ghost_hotkey, normalized_icon_size,
    normalized_group_id, normalized_ignored_version, state_version, FenceAttributes, FencePatch, NewFenceInput,
};

fn attributes() -> FenceAttributes {
    FenceAttributes {
        title: "项目".into(),
        color: "sage".into(),
        content_color: "paper".into(),
        collapsed: false,
        locked: false,
    }
}

#[test]
fn defaults_match_the_stored_format() {
    assert_eq!(default_icon_size(), 46);
    assert_eq!(default_ghost_hotkey(), "Ctrl+Alt+G");
    assert!(default_true());
    assert_eq!(state_version(), 6);
    assert_eq!(default_content_color(), "paper");
    let input = NewFenceInput { title: "a".into(), color: "sky".into(), content_color: default_content_color(), directory: None };
    assert_eq!(input.content_color, "paper");
}

#[test]
fn fence_patches_change_only_present_fields() {
    let patched = apply_fence_patch(attributes(), FencePatch { locked: Some(true), ..FencePatch::default() }).unwrap();
    assert_eq!(patched.title, "项目");
    assert_eq!(patched.color, "sage");
    assert!(patched.locked);
    assert!(!patched.collapsed);

    let patched = apply_fence_patch(
        attributes(),
        FencePatch { title: Some("  新名字 ".into()), color: Some("#abcdef".into()), content_color: Some("nope".into()), ..FencePatch::default() },
    )
    .unwrap();
    assert_eq!(patched.title, "新名字");
    assert_eq!(patched.color, "#ABCDEF");
    assert_eq!(patched.content_color, "paper");

    assert_eq!(
        apply_fence_patch(attributes(), FencePatch { title: Some("   ".into()), ..FencePatch::default() }).err(),
        Some("盒子名称不能为空".to_string())
    );
}

#[test]
fn stored_settings_are_normalised() {
    let normalized = normalize_fence_attributes(FenceAttributes {
        title: "  ".into(),
        color: "frosted".into(),
        content_color: "frosted".into(),
        collapsed: true,
        locked: false,
    });
    assert_eq!(normalized.title, "未命名盒子");
    assert_eq!(normalized.color, "coral");
    assert_eq!(normalized.content_color, "frosted");
    assert!(normalized.collapsed);
    assert_eq!(normalized_ghost_hotkey("  "), "Ctrl+Alt+G");
    assert_eq!(normalized_ghost_hotkey(" Ctrl+Z "), "Ctrl+Z");
    assert_eq!(normalized_icon_size(2), 36);
    assert_eq!(normalized_icon_size(100), 64);
    assert_eq!(normalized_icon_size(50), 50);
    assert_eq!(normalized_ignored_version(Some("  ".into())), None);
    assert_eq!(normalized_ignored_version(Some(" 1.2 ".into())), Some("1.2".to_string()));
    assert_eq!(normalized_ignored_version(None), None);
}

#[test]
fn user_actions_lead_to_fence_changes_and_messages() {
    let rename = HostUserAction::RenameFence { id: "f".into(), title: "新".into() };
    assert!(matches!(action_route(&rename), ActionRoute::Fence(id) if id == "f"));
    assert!(matches!(action_route(&HostUserAction::QuitApplication), ActionRoute::Quit));
    assert_eq!(action_patch(&rename, false, false).unwrap().title.as_deref(), Some("新"));
    let toggle = HostUserAction::ToggleFenceCollapsed { id: "f".into() };
    assert_eq!(action_patch(&toggle, true, false).unwrap().collapsed, Some(false));
    let lock = HostUserAction::ToggleFenceLocked { id: "f".into() };
    assert_eq!(action_patch(&lock, false, false).unwrap().locked, Some(true));
    assert!(action_patch(&HostUserAction::RemoveFence { id: "f".into() }, false, false).is_none());

    assert_eq!(renamed_message("新"), "已重命名为「新」");
    assert_eq!(collapsed_message(true, "a"), "已收起「a」");
    assert_eq!(collapsed_message(false, "a"), "已展开「a」");
    assert_eq!(locked_message(true, "a"), "已锁定「a」的位置");
    assert_eq!(locked_message(false, "a"), "已解锁「a」的位置");
    assert_eq!(color_message(), "已更新盒子颜色");
    assert_eq!(reset_size_message("a", 330, 280), "已把「a」恢复为默认大小 330 × 280");
    assert_eq!(reset_size_message("a", -5, 0), "已把「a」恢复为默认大小 -5 × 0");
    assert_eq!(removed_message("a"), "已移除「a」；文件夹和其中的内容没有删除");
}

#[test]
fn group_ids_are_trimmed_limited_and_dropped_when_blank() {
    assert_eq!(normalized_group_id("  fence-a  "), Some("fence-a".to_string()));
    assert_eq!(normalized_group_id(" \t "), None);
    let long = "g".repeat(200);
    assert_eq!(normalized_group_id(&long), Some("g".repeat(128)));
}

#[test]
fn box_menu_commands_become_user_actions() {
    assert_eq!(box_menu_action(100, "f1", "Work", None, false), Some(HostUserAction::CreateStorageBox));
    assert_eq!(
        box_menu_action(FENCE_MENU_RENAME, "f1", "Work", Some("  Play  "), false),
        Some(HostUserAction::RenameFence { id: "f1".into(), title: "Play".into() })
    );
    assert_eq!(box_menu_action(FENCE_MENU_RENAME, "f1", "Work", Some(" Work "), false), None);
    assert_eq!(box_menu_action(FENCE_MENU_RENAME, "f1", "Work", None, false), None);
    assert_eq!(
        box_menu_action(FENCE_MENU_COLOR_FIRST + 3, "f1", "Work", None, false),
        Some(HostUserAction::SetFenceColor { id: "f1".into(), color: "sky".into() })
    );
    assert_eq!(box_menu_action(FENCE_MENU_REMOVE, "f1", "Work", None, false), None);
    assert_eq!(
        box_menu_action(FENCE_MENU_REMOVE, "f1", "Work", None, true),
        Some(HostUserAction::RemoveFence { id: "f1".into() })
    );
    assert_eq!(box_menu_action(FENCE_MENU_REFRESH, "f1", "Work", None, false), None);
}
