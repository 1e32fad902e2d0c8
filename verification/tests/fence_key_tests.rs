use dcreel::fence_keys::{
    clear_selection, fence_key_command, navigate_selection, select_all, too_many_to_open,
    FenceKeyCommand, FenceSelection,
};
use dcreel::grid::{GridMetrics, NavigationDirection};
use dcreel::selection::{FolderItem, PathSet};
use std::collections::HashSet;

fn items() -> Vec<FolderItem> {
    ["a", "b", "c", "d", "e", "f", "g"]
        .into_iter()
        .map(|name| FolderItem {
            name: name.into(),
            path: format!(r"C:\keys\{name}"),
            is_dir: false,
            modified_at_nanos: 0,
            length: 0,
        })
        .collect()
}

fn empty_selection() -> FenceSelection {
    FenceSelection { selected: PathSet::new(), anchor: None, focused: None, scroll_row: 0 }
}

fn set_of(paths: &PathSet) -> HashSet<String> {
    paths.to_vec().into_iter().collect()
}

fn metrics() -> GridMetrics {
    GridMetrics { columns: 3, row_height: 90, visible_rows: 2, total_rows: 3, max_scroll_row: 1 }
}

#[test]
fn keys_map_to_commands() {
    assert_eq!(fence_key_command(0x74, false, false), FenceKeyCommand::Refresh);
    assert_eq!(fence_key_command(0x4e, true, true), FenceKeyCommand::NewFolder);
    assert_eq!(fence_key_command(0x4e, true, false), FenceKeyCommand::Unhandled);
    assert_eq!(fence_key_command(0x5d, false, false), FenceKeyCommand::ContextMenu);
    assert_eq!(fence_key_command(0x79, false, true), FenceKeyCommand::ContextMenu);
    assert_eq!(fence_key_command(0x1b, false, false), FenceKeyCommand::ClearSelection);
    assert_eq!(fence_key_command(0x41, true, false), FenceKeyCommand::SelectAll);
    assert_eq!(fence_key_command(0x41, false, false), FenceKeyCommand::Unhandled);
    assert_eq!(fence_key_command(0x28, false, true), FenceKeyCommand::Navigate(NavigationDirection::Down));
    assert_eq!(fence_key_command(0x0d, false, false), FenceKeyCommand::OpenSelection);
    assert_eq!(fence_key_command(0x2e, false, false), FenceKeyCommand::DeleteSelection);
    assert_eq!(fence_key_command(0x71, false, false), FenceKeyCommand::RenameSelection);
    assert!(too_many_to_open(17));
    assert!(!too_many_to_open(16));
}

#[test]
fn escape_clears_and_reports_change() {
    let items = items();
    let mut selection = empty_selection();
    assert!(!clear_selection(&mut selection, false, false));
    assert!(clear_selection(&mut selection, true, false));
    selection.selected.insert(items[0].path.clone());
    selection.focused = Some(items[0].path.clone());
    assert!(clear_selection(&mut selection, false, false));
    assert_eq!(selection.selected.len(), 0);
    assert_eq!(selection.focused, None);
}

#[test]
fn select_all_keeps_a_shown_focus() {
    let items = items();
    let mut selection = empty_selection();
    selection.focused = Some(items[2].path.clone());
    assert!(select_all(&mut selection, &items));
    assert_eq!(selection.selected.len(), 7);
    assert_eq!(selection.focused, Some(items[2].path.clone()));
    assert_eq!(selection.anchor, Some(items[2].path.clone()));
    assert!(!select_all(&mut selection, &items));
    selection.focused = Some("elsewhere".into());
    assert!(select_all(&mut selection, &items));
    assert_eq!(selection.focused, Some(items[0].path.clone()));
}

#[test]
fn arrows_move_the_focus_and_selection() {
    let items = items();
    let mut selection = empty_selection();
    assert!(navigate_selection(&mut selection, &items, metrics(), NavigationDirection::Right, false, false));
    assert_eq!(selection.focused, Some(items[0].path.clone()));
    assert!(navigate_selection(&mut selection, &items, metrics(), NavigationDirection::Down, false, false));
    assert_eq!(selection.focused, Some(items[3].path.clone()));
    assert_eq!(set_of(&selection.selected), HashSet::from([items[3].path.clone()]));
    assert!(navigate_selection(&mut selection, &items, metrics(), NavigationDirection::Down, false, true));
    assert_eq!(selection.focused, Some(items[6].path.clone()));
    assert_eq!(selection.scroll_row, 1);
    assert_eq!(
        set_of(&selection.selected),
        HashSet::from([items[3].path.clone(), items[4].path.clone(), items[5].path.clone(), items[6].path.clone()])
    );
    assert_eq!(selection.anchor, Some(items[3].path.clone()));
    assert!(!navigate_selection(&mut selection, &items, metrics(), NavigationDirection::Down, false, true));
    assert!(!navigate_selection(&mut empty_selection(), &[], metrics(), NavigationDirection::Down, false, false));
}
