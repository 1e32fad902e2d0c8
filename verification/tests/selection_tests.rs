use dcreel::selection::{
    apply_item_selection, header_count_text, selected_paths_for_drag, selected_paths_in_item_order, FolderItem,
    PathSet, SelectionModifiers,
};
use std::collections::HashSet;

fn selection_items() -> Vec<FolderItem> {
    ["a.txt", "b.txt", "c.txt", "d.txt"]
        .into_iter()
        .map(|name| FolderItem {
            name: name.into(),
            path: format!(r"C:\selection-test\{name}"),
            is_dir: false,
            modified_at_nanos: 0,
            length: 0,
        })
        .collect()
}

fn set_of(paths: &PathSet) -> HashSet<String> {
    paths.to_vec().into_iter().collect()
}

fn path_set(paths: &[&String]) -> PathSet {
    let mut set = PathSet::new();
    for path in paths {
        set.insert((*path).clone());
    }
    set
}

#[test]
fn item_selection_supports_plain_control_and_shift_clicks() {
    let items = selection_items();
    let mut selected = PathSet::new();
    let mut anchor = None;

    assert!(!apply_item_selection(&items, &mut selected, &mut anchor, 1, SelectionModifiers::default()));
    assert_eq!(set_of(&selected), HashSet::from([items[1].path.clone()]));

    assert!(!apply_item_selection(
        &items,
        &mut selected,
        &mut anchor,
        3,
        SelectionModifiers { control: true, shift: false },
    ));
    assert_eq!(set_of(&selected), HashSet::from([items[1].path.clone(), items[3].path.clone()]));

    assert!(!apply_item_selection(
        &items,
        &mut selected,
        &mut anchor,
        1,
        SelectionModifiers { control: false, shift: true },
    ));
    assert_eq!(
        set_of(&selected),
        HashSet::from([items[1].path.clone(), items[2].path.clone(), items[3].path.clone()])
    );
    assert!(apply_item_selection(&items, &mut selected, &mut anchor, 2, SelectionModifiers::default()));
    assert_eq!(selected.len(), 3);
}

#[test]
fn selected_drag_paths_follow_visible_item_order() {
    let items = selection_items();
    let selected = path_set(&[&items[2].path, &items[0].path]);
    assert_eq!(
        selected_paths_for_drag(&items, &selected, &items[0].path),
        vec![items[0].path.clone(), items[2].path.clone()]
    );
    assert_eq!(selected_paths_for_drag(&items, &selected, &items[1].path), vec![items[1].path.clone()]);
}

#[test]
fn ordered_selection_falls_back_to_the_focused_item() {
    let items = selection_items();
    let selected = path_set(&[&items[3].path, &items[1].path]);
    assert_eq!(
        selected_paths_in_item_order(&items, &selected, Some(&items[0].path)),
        vec![items[1].path.clone(), items[3].path.clone()]
    );
    assert_eq!(
        selected_paths_in_item_order(&items, &PathSet::new(), Some(&items[2].path)),
        vec![items[2].path.clone()]
    );
    assert!(selected_paths_in_item_order(&items, &PathSet::new(), Some(r"C:\selection-test\missing.txt")).is_empty());
}

#[test]
fn control_click_twice_restores_the_selection() {
    let items = selection_items();
    let mut selected = path_set(&[&items[0].path]);
    let mut anchor = None;
    let control = SelectionModifiers { control: true, shift: false };
    apply_item_selection(&items, &mut selected, &mut anchor, 2, control);
    assert_eq!(set_of(&selected), HashSet::from([items[0].path.clone(), items[2].path.clone()]));
    apply_item_selection(&items, &mut selected, &mut anchor, 2, control);
    assert_eq!(set_of(&selected), HashSet::from([items[0].path.clone()]));
    assert_eq!(anchor, Some(items[2].path.clone()));
}

#[test]
fn click_outside_the_items_changes_nothing() {
    let items = selection_items();
    let mut selected = path_set(&[&items[0].path]);
    let mut anchor = Some(items[0].path.clone());
    assert!(!apply_item_selection(&items, &mut selected, &mut anchor, 9, SelectionModifiers::default()));
    assert_eq!(set_of(&selected), HashSet::from([items[0].path.clone()]));
    assert_eq!(anchor, Some(items[0].path.clone()));
}

#[test]
fn shift_control_click_adds_the_range_to_the_selection() {
    let items = selection_items();
    let mut selected = path_set(&[&items[0].path]);
    let mut anchor = Some(items[3].path.clone());
    apply_item_selection(&items, &mut selected, &mut anchor, 2, SelectionModifiers { control: true, shift: true });
    assert_eq!(
        set_of(&selected),
        HashSet::from([items[0].path.clone(), items[2].path.clone(), items[3].path.clone()])
    );
    assert_eq!(anchor, Some(items[3].path.clone()));
}

#[test]
fn path_set_holds_each_path_once() {
    let mut set = PathSet::new();
    assert!(set.insert("a".to_string()));
    assert!(!set.insert("a".to_string()));
    assert_eq!(set.len(), 1);
    set.remove("a");
    assert!(!set.contains("a"));
    assert_eq!(set.len(), 0);
}

#[test]
fn header_count_shows_items_or_selection() {
    assert_eq!(header_count_text(0, 12), "12 项");
    assert_eq!(header_count_text(3, 12), "3/12 已选");
    assert_eq!(header_count_text(0, 0), "0 项");
}
