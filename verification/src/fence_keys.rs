//! What a key pressed in a fence does: which command a key stands for, and
//! how the selection, the focus and the scroll position change for the
//! commands that only touch them.

use vstd::prelude::*;
use crate::grid::{navigation, navigation_target, reveal_row, scroll_row_for_item, GridMetrics, NavigationDirection};
use crate::selection::{
    apply_item_selection, first_item_from, first_item_with, item_path, range_anchor, range_paths,
    FolderItem, PathSet, SelectionModifiers,
};
use crate::text::str_equal;

verus! {

pub const VK_RETURN: usize = 0x0d;

pub const VK_ESCAPE: usize = 0x1b;

pub const VK_LEFT: usize = 0x25;

pub const VK_UP: usize = 0x26;

pub const VK_RIGHT: usize = 0x27;

pub const VK_DOWN: usize = 0x28;

pub const VK_DELETE: usize = 0x2e;

pub const VK_A: usize = 0x41;

pub const VK_N: usize = 0x4e;

pub const VK_APPS: usize = 0x5d;

pub const VK_F2: usize = 0x71;

pub const VK_F5: usize = 0x74;

pub const VK_F10: usize = 0x79;

/// At most this many items are opened with Enter at once.
pub const MAX_KEYBOARD_OPEN_ITEMS: usize = 16;

#[derive(Clone, Copy, Debug, PartialEq, Eq, Structural)]
pub enum FenceKeyCommand {
    Refresh,
    NewFolder,
    ContextMenu,
    ClearSelection,
    SelectAll,
    Navigate(NavigationDirection),
    OpenSelection,
    DeleteSelection,
    RenameSelection,
    Unhandled,
}

/// The command a key stands for, with Ctrl and Shift as held.
pub open spec fn key_command(key: usize, control: bool, shift: bool) -> FenceKeyCommand {
    if key == VK_F5 {
        FenceKeyCommand::Refresh
    } else if control && shift && key == VK_N {
        FenceKeyCommand::NewFolder
    } else if key == VK_APPS || (shift && key == VK_F10) {
        FenceKeyCommand::ContextMenu
    } else if key == VK_ESCAPE {
        FenceKeyCommand::ClearSelection
    } else if control && key == VK_A {
        FenceKeyCommand::SelectAll
    } else if key == VK_LEFT {
        FenceKeyCommand::Navigate(NavigationDirection::Left)
    } else if key == VK_RIGHT {
        FenceKeyCommand::Navigate(NavigationDirection::Right)
    } else if key == VK_UP {
        FenceKeyCommand::Navigate(NavigationDirection::Up)
    } else if key == VK_DOWN {
        FenceKeyCommand::Navigate(NavigationDirection::Down)
    } else if key == VK_RETURN {
        FenceKeyCommand::OpenSelection
    } else if key == VK_DELETE {
        FenceKeyCommand::DeleteSelection
    } else if key == VK_F2 {
        FenceKeyCommand::RenameSelection
    } else {
        FenceKeyCommand::Unhandled
    }
}

pub fn fence_key_command(key: usize, control: bool, shift: bool) -> (c: FenceKeyCommand)
    ensures
        c == key_command(key, control, shift),
{
    if key == VK_F5 {
        FenceKeyCommand::Refresh
    } else if control && shift && key == VK_N {
        FenceKeyCommand::NewFolder
    } else if key == VK_APPS || (shift && key == VK_F10) {
        FenceKeyCommand::ContextMenu
    } else if key == VK_ESCAPE {
        FenceKeyCommand::ClearSelection
    } else if control && key == VK_A {
        FenceKeyCommand::SelectAll
    } else if key == VK_LEFT {
        FenceKeyCommand::Navigate(NavigationDirection::Left)
    } else if key == VK_RIGHT {
        FenceKeyCommand::Navigate(NavigationDirection::Right)
    } else if key == VK_UP {
        FenceKeyCommand::Navigate(NavigationDirection::Up)
    } else if key == VK_DOWN {
        FenceKeyCommand::Navigate(NavigationDirection::Down)
    } else if key == VK_RETURN {
        FenceKeyCommand::OpenSelection
    } else if key == VK_DELETE {
        FenceKeyCommand::DeleteSelection
    } else if key == VK_F2 {
        FenceKeyCommand::RenameSelection
    } else {
        FenceKeyCommand::Unhandled
    }
}

/// Whether Enter would open more items than allowed at once.
pub fn too_many_to_open(count: usize) -> (r: bool)
    ensures
        r == (count > MAX_KEYBOARD_OPEN_ITEMS),
{
    count > MAX_KEYBOARD_OPEN_ITEMS
}

/// The selection state of a fence.
pub struct FenceSelection {
    pub selected: PathSet,
    pub anchor: Option<String>,
    pub focused: Option<String>,
    pub scroll_row: usize,
}

pub open spec fn opt_text(value: Option<String>) -> Option<Seq<char>> {
    match value {
        Some(s) => Some(s@),
        None => None,
    }
}

fn same_opt_text(a: &Option<String>, b: &Option<String>) -> (r: bool)
    ensures
        r == (opt_text(*a) == opt_text(*b)),
{
    match (a, b) {
        (Some(x), Some(y)) => str_equal(x.as_str(), y.as_str()),
        (None, None) => true,
        _ => false,
    }
}

fn copy_opt_text(a: &Option<String>) -> (r: Option<String>)
    ensures
        r == *a,
{
    match a {
        Some(x) => Some(x.clone()),
        None => None,
    }
}

/// Escape: nothing stays selected or focused. The result says whether
/// anything changed, a drag or marquee in progress included.
pub fn clear_selection(selection: &mut FenceSelection, dragging: bool, marquee: bool) -> (changed: bool)
    ensures
        changed == (old(selection).selected@.len() > 0 || old(selection).anchor is Some || old(
            selection,
        ).focused is Some || dragging || marquee),
        final(selection).selected@ == Set::<Seq<char>>::empty(),
        final(selection).anchor is None,
        final(selection).focused is None,
        final(selection).scroll_row == old(selection).scroll_row,
{
    let changed = selection.selected.len() > 0 || selection.anchor.is_some()
        || selection.focused.is_some() || dragging || marquee;
    selection.selected.clear();
    selection.anchor = None;
    selection.focused = None;
    changed
}

/// The paths of all items.
pub open spec fn all_item_paths(items: Seq<FolderItem>) -> Set<Seq<char>> {
    range_paths(items, 0, items.len() - 1)
}

/// The focus after selecting everything: the old focus when it is one of
/// the items, else the first item.
pub open spec fn focus_after_select_all(items: Seq<FolderItem>, focused: Option<String>) -> Option<Seq<char>> {
    match focused {
        Some(f) if all_item_paths(items).contains(f@) => Some(f@),
        _ => if items.len() > 0 {
            Some(item_path(items, 0))
        } else {
            None
        },
    }
}

/// Ctrl+A: every item is selected; the focus (and the anchor with it) stays
/// on its item, or moves to the first item. The result says whether
/// anything changed.
pub fn select_all(selection: &mut FenceSelection, items: &[FolderItem]) -> (changed: bool)
    ensures
        final(selection).selected@ == all_item_paths(items@),
        opt_text(final(selection).focused) == focus_after_select_all(items@, old(selection).focused),
        opt_text(final(selection).anchor) == focus_after_select_all(items@, old(selection).focused),
        final(selection).scroll_row == old(selection).scroll_row,
        changed == !(old(selection).selected@ == all_item_paths(items@) && opt_text(
            old(selection).focused,
        ) == focus_after_select_all(items@, old(selection).focused) && opt_text(
            old(selection).anchor,
        ) == focus_after_select_all(items@, old(selection).focused)),
{
    let mut all = PathSet::new();
    let mut i: usize = 0;
    assert(range_paths(items@, 0, -1) =~= Set::<Seq<char>>::empty());
    while i < items.len()
        invariant
            i <= items@.len(),
            all@ == range_paths(items@, 0, i - 1),
        decreases items@.len() - i,
    {
        all.insert(items[i].path.clone());
        assert(range_paths(items@, 0, i as int) =~= range_paths(items@, 0, i - 1).insert(
            item_path(items@, i as int),
        ));
        i = i + 1;
    }
    let focus = match &selection.focused {
        Some(f) => {
            if all.contains(f.as_str()) {
                Some(f.clone())
            } else if items.len() > 0 {
                Some(items[0].path.clone())
            } else {
                None
            }
        },
        None => {
            if items.len() > 0 {
                Some(items[0].path.clone())
            } else {
                None
            }
        },
    };
    let same = all.same_as(&selection.selected) && same_opt_text(&focus, &selection.focused)
        && same_opt_text(&focus, &selection.anchor);
    selection.selected = all;
    selection.anchor = copy_opt_text(&focus);
    selection.focused = focus;
    !same
}

/// The first item, from position `i` on, that is selected.
pub open spec fn first_selected_from(items: Seq<FolderItem>, selected: Set<Seq<char>>, i: int) -> Option<int>
    decreases items.len() - i,
{
    if i < 0 || i >= items.len() {
        None
    } else if selected.contains(item_path(items, i)) {
        Some(i)
    } else {
        first_selected_from(items, selected, i + 1)
    }
}

proof fn lemma_first_selected_in_range(items: Seq<FolderItem>, selected: Set<Seq<char>>, i: int)
    requires
        0 <= i,
    ensures
        match first_selected_from(items, selected, i) {
            Some(k) => i <= k < items.len(),
            None => true,
        },
    decreases items.len() - i,
{
    if i < items.len() && !selected.contains(item_path(items, i)) {
        lemma_first_selected_in_range(items, selected, i + 1);
    }
}

proof fn lemma_first_item_range(items: Seq<FolderItem>, path: Seq<char>, i: int)
    requires
        0 <= i,
    ensures
        match first_item_from(items, path, i) {
            Some(k) => i <= k < items.len(),
            None => true,
        },
    decreases items.len() - i,
{
    if i < items.len() && item_path(items, i) != path {
        lemma_first_item_range(items, path, i + 1);
    }
}

/// The item the keyboard focus is on: the focused item when it is shown,
/// else the first selected item.
pub open spec fn focus_index(items: Seq<FolderItem>, selection: FenceSelection) -> Option<int> {
    let by_focus = match selection.focused {
        Some(f) => first_item_with(items, f@),
        None => None,
    };
    match by_focus {
        Some(k) => Some(k),
        None => first_selected_from(items, selection.selected@, 0),
    }
}

pub open spec fn as_usize_option(v: Option<int>) -> Option<usize> {
    match v {
        Some(k) => Some(k as usize),
        None => None,
    }
}

fn find_selected(items: &[FolderItem], selected: &PathSet) -> (r: Option<usize>)
    ensures
        match first_selected_from(items@, selected@, 0) {
            Some(k) => r == Some(k as usize) && 0 <= k < items@.len(),
            None => r is None,
        },
{
    proof {
        lemma_first_selected_in_range(items@, selected@, 0);
    }
    let mut i: usize = 0;
    while i < items.len()
        invariant
            i <= items@.len(),
            first_selected_from(items@, selected@, 0) == first_selected_from(items@, selected@, i as int),
        decreases items@.len() - i,
    {
        if selected.contains(items[i].path.as_str()) {
            return Some(i);
        }
        i = i + 1;
    }
    None
}

fn find_path(items: &[FolderItem], path: &str) -> (r: Option<usize>)
    ensures
        match first_item_with(items@, path@) {
            Some(k) => r == Some(k as usize) && 0 <= k < items@.len(),
            None => r is None,
        },
{
    proof {
        lemma_first_item_range(items@, path@, 0);
    }
    let mut i: usize = 0;
    while i < items.len()
        invariant
            i <= items@.len(),
            first_item_with(items@, path@) == first_item_from(items@, path@, i as int),
        decreases items@.len() - i,
    {
        if str_equal(items[i].path.as_str(), path) {
            return Some(i);
        }
        i = i + 1;
    }
    None
}

/// An arrow key: the focus moves to the target item and the grid scrolls
/// just enough to show it. Without Shift only the target is selected; with
/// Shift the range from the anchor is selected (added with Ctrl), the anchor
/// first set to the item the focus left. When there is no target nothing
/// changes. The result says whether anything changed.
pub fn navigate_selection(
    selection: &mut FenceSelection,
    items: &[FolderItem],
    metrics: GridMetrics,
    direction: NavigationDirection,
    control: bool,
    shift: bool,
) -> (changed: bool)
    ensures
        ({
            let current = focus_index(items@, *old(selection));
            let target = navigation(as_usize_option(current), items@.len() as int, metrics.columns as int, direction);
            match target {
                None => !changed && *final(selection) == *old(selection),
                Some(t) => {
                    let anchor = match old(selection).anchor {
                        Some(a) => Some(a),
                        None => match current {
                            Some(c) => Some(items@[c].path),
                            None => Some(items@[t].path),
                        },
                    };
                    let a = range_anchor(items@, anchor, t);
                    let first = if a <= t { a } else { t };
                    let last = if a <= t { t } else { a };
                    &&& final(selection).focused == Some(items@[t].path)
                    &&& final(selection).scroll_row == reveal_row(old(selection).scroll_row as int, t, metrics)
                    &&& shift ==> final(selection).selected@ == (if control {
                        old(selection).selected@
                    } else {
                        Set::empty()
                    }).union(range_paths(items@, first, last)) && final(selection).anchor == anchor
                    &&& !shift ==> final(selection).selected@ == set![item_path(items@, t)]
                        && final(selection).anchor == Some(items@[t].path)
                    &&& changed == !(final(selection).selected@ == old(selection).selected@
                        && opt_text(final(selection).focused) == opt_text(old(selection).focused)
                        && final(selection).scroll_row == old(selection).scroll_row)
                },
            }
        }),
{
    let by_focus = match &selection.focused {
        Some(f) => find_path(items, f.as_str()),
        None => None,
    };
    let current = match by_focus {
        Some(k) => Some(k),
        None => find_selected(items, &selection.selected),
    };
    assert(as_usize_option(focus_index(items@, *selection)) == current);
    let target = match navigation_target(current, items.len(), metrics.columns, direction) {
        Some(t) => t,
        None => {
            return false;
        },
    };
    let before = selection.selected.duplicate();
    let previous_focus = copy_opt_text(&selection.focused);
    let previous_scroll = selection.scroll_row;
    if shift {
        if selection.anchor.is_none() {
            selection.anchor = match current {
                Some(c) => Some(items[c].path.clone()),
                None => Some(items[target].path.clone()),
            };
        }
        apply_item_selection(
            items,
            &mut selection.selected,
            &mut selection.anchor,
            target,
            SelectionModifiers { control, shift: true },
        );
    } else {
        selection.selected.clear();
        selection.selected.insert(items[target].path.clone());
        assert(selection.selected@ =~= set![item_path(items@, target as int)]);
        selection.anchor = Some(items[target].path.clone());
    }
    selection.focused = Some(items[target].path.clone());
    selection.scroll_row = scroll_row_for_item(selection.scroll_row, target, metrics);
    let same = selection.selected.same_as(&before) && same_opt_text(&selection.focused, &previous_focus)
        && selection.scroll_row == previous_scroll;
    !same
}

} // verus!
