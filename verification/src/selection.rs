//! Selecting items in a fence: clicks with and without Ctrl and Shift, and
//! the selected paths in the order the items are shown.

use vstd::prelude::*;
use crate::text::{decimal_chars, decimal_digits, str_equal, string_from_chars};

verus! {

/// An entry of a fence's folder.
#[derive(Clone, Debug)]
pub struct FolderItem {
    pub name: String,
    pub path: String,
    pub is_dir: bool,
    pub modified_at_nanos: u128,
    pub length: u64,
}

pub open spec fn path_texts(paths: Seq<String>) -> Seq<Seq<char>> {
    paths.map_values(|p: String| p@)
}

pub open spec fn item_path(items: Seq<FolderItem>, i: int) -> Seq<char> {
    items[i].path@
}

/// A set of paths, each held once.
pub struct PathSet {
    paths: Vec<String>,
}

impl View for PathSet {
    type V = Set<Seq<char>>;

    closed spec fn view(&self) -> Set<Seq<char>> {
        path_texts(self.paths@).to_set()
    }
}

impl PathSet {
    #[verifier::type_invariant]
    closed spec fn holds_each_once(&self) -> bool {
        path_texts(self.paths@).no_duplicates()
    }

    pub fn new() -> (s: Self)
        ensures
            s@ == Set::<Seq<char>>::empty(),
    {
        let s = PathSet { paths: Vec::new() };
        assert(s@ =~= Set::<Seq<char>>::empty());
        s
    }

    fn position(&self, path: &str) -> (r: Option<usize>)
        ensures
            match r {
                Some(i) => i < self.paths@.len() && self.paths@[i as int]@ == path@,
                None => !self@.contains(path@),
            },
    {
        let mut i: usize = 0;
        while i < self.paths.len()
            invariant
                i <= self.paths@.len(),
                forall|j: int| 0 <= j < i ==> self.paths@[j]@ != path@,
            decreases self.paths@.len() - i,
        {
            if str_equal(self.paths[i].as_str(), path) {
                return Some(i);
            }
            i = i + 1;
        }
        proof {
            if path_texts(self.paths@).to_set().contains(path@) {
                let j = choose|j: int| 0 <= j < self.paths@.len() && path_texts(self.paths@)[j] == path@;
                assert(self.paths@[j]@ == path@);
            }
        }
        None
    }

    pub fn contains(&self, path: &str) -> (r: bool)
        ensures
            r == self@.contains(path@),
    {
        match self.position(path) {
            Some(i) => {
                assert(path_texts(self.paths@)[i as int] == path@);
                true
            },
            None => false,
        }
    }

    /// Adds `path`; the result says whether it was not held before.
    pub fn insert(&mut self, path: String) -> (added: bool)
        ensures
            final(self)@ == old(self)@.insert(path@),
            added == !old(self)@.contains(path@),
    {
        if self.contains(path.as_str()) {
            assert(self@.insert(path@) =~= self@);
            return false;
        }
        proof {
            use_type_invariant(&*self);
        }
        let ghost before = self.paths@;
        let mut paths = Vec::new();
        std::mem::swap(&mut paths, &mut self.paths);
        paths.push(path);
        proof {
            assert(path_texts(paths@) =~= path_texts(before).push(path@));
            assert(!path_texts(before).contains(path@));
            let t = path_texts(before);
            let u = path_texts(paths@);
            assert forall|x: Seq<char>| u.to_set().contains(x) <==> t.to_set().insert(path@).contains(x) by {
                if u.to_set().contains(x) {
                    let j = choose|j: int| 0 <= j < u.len() && u[j] == x;
                    if j < t.len() {
                        assert(t[j] == x);
                    }
                }
                if t.to_set().contains(x) {
                    let j = choose|j: int| 0 <= j < t.len() && t[j] == x;
                    assert(u[j] == x);
                }
                if x == path@ {
                    assert(u[t.len() as int] == x);
                }
            }
            assert(u.to_set() =~= t.to_set().insert(path@));
            assert forall|a: int, b: int| 0 <= a < u.len() && 0 <= b < u.len() && a != b implies u[a] != u[b] by {
                if a < t.len() && b < t.len() {
                    assert(t[a] == u[a] && t[b] == u[b]);
                } else if a < t.len() {
                    assert(t[a] == u[a]);
                    assert(t.contains(u[a]));
                } else if b < t.len() {
                    assert(t[b] == u[b]);
                    assert(t.contains(u[b]));
                }
            }
        }
        self.paths = paths;
        true
    }

    /// Removes `path` when it is held.
    pub fn remove(&mut self, path: &str)
        ensures
            final(self)@ == old(self)@.remove(path@),
    {
        proof {
            use_type_invariant(&*self);
        }
        match self.position(path) {
            None => {
                assert(self@.remove(path@) =~= self@);
            },
            Some(i) => {
                let ghost before = self.paths@;
                let mut paths = Vec::new();
                std::mem::swap(&mut paths, &mut self.paths);
                paths.remove(i);
                proof {
                    let t = path_texts(before);
                    assert(path_texts(paths@) =~= t.remove(i as int));
                    let u = path_texts(paths@);
                    assert(t[i as int] == path@);
                    assert forall|x: Seq<char>| u.to_set().contains(x) <==> t.to_set().remove(path@).contains(x) by {
                        if u.to_set().contains(x) {
                            let j = choose|j: int| 0 <= j < u.len() && u[j] == x;
                            if j < i {
                                assert(t[j] == x);
                                assert(t[j] != t[i as int]);
                            } else {
                                assert(t[j + 1] == x);
                                assert(t[j + 1] != t[i as int]);
                            }
                        }
                        if t.to_set().remove(path@).contains(x) {
                            let j = choose|j: int| 0 <= j < t.len() && t[j] == x;
                            assert(j != i);
                            if j < i {
                                assert(u[j] == x);
                            } else {
                                assert(u[j - 1] == x);
                            }
                        }
                    }
                    assert forall|a: int, b: int| 0 <= a < u.len() && 0 <= b < u.len() && a != b implies u[a] != u[b] by {
                        let a2 = if a < i { a } else { a + 1 };
                        let b2 = if b < i { b } else { b + 1 };
                        assert(u[a] == t[a2] && u[b] == t[b2]);
                    }
                    assert(path_texts(paths@).to_set() =~= t.to_set().remove(path@));
                }
                self.paths = paths;
            }
        }
    }

    pub fn clear(&mut self)
        ensures
            final(self)@ == Set::<Seq<char>>::empty(),
    {
        self.paths = Vec::new();
        assert(self@ =~= Set::<Seq<char>>::empty());
    }

    /// How many paths are held.
    pub fn len(&self) -> (r: usize)
        ensures
            r == self@.len(),
            self@.finite(),
    {
        proof {
            use_type_invariant(self);
            path_texts(self.paths@).unique_seq_to_set();
        }
        self.paths.len()
    }

    /// Another set holding the same paths.
    pub fn duplicate(&self) -> (r: PathSet)
        ensures
            r@ == self@,
    {
        proof {
            use_type_invariant(self);
        }
        let mut paths: Vec<String> = Vec::new();
        let mut i: usize = 0;
        while i < self.paths.len()
            invariant
                i <= self.paths@.len(),
                path_texts(paths@) == path_texts(self.paths@).take(i as int),
            decreases self.paths@.len() - i,
        {
            let ghost before = paths@;
            paths.push(self.paths[i].clone());
            assert(path_texts(paths@) =~= path_texts(before).push(self.paths@[i as int]@));
            assert(path_texts(self.paths@).take(i + 1) =~= path_texts(self.paths@).take(i as int).push(self.paths@[i as int]@));
            i = i + 1;
        }
        assert(path_texts(self.paths@).take(i as int) =~= path_texts(self.paths@));
        PathSet { paths }
    }

    /// Whether both sets hold the same paths.
    pub fn same_as(&self, other: &PathSet) -> (r: bool)
        ensures
            r == (self@ == other@),
    {
        proof {
            use_type_invariant(self);
            use_type_invariant(other);
        }
        if self.len() != other.len() {
            return false;
        }
        let mut i: usize = 0;
        while i < self.paths.len()
            invariant
                i <= self.paths@.len(),
                forall|j: int| 0 <= j < i ==> other@.contains(#[trigger] self.paths@[j]@),
            decreases self.paths@.len() - i,
        {
            if !other.contains(self.paths[i].as_str()) {
                assert(self@.contains(path_texts(self.paths@)[i as int]));
                return false;
            }
            i = i + 1;
        }
        proof {
            assert forall|x: Seq<char>| self@.contains(x) implies other@.contains(x) by {
                let j = choose|j: int| 0 <= j < path_texts(self.paths@).len() && path_texts(self.paths@)[j] == x;
                assert(other@.contains(self.paths@[j]@));
            }
            vstd::set_lib::lemma_subset_equality(self@, other@);
        }
        true
    }

    /// The held paths, in no particular order.
    pub fn to_vec(&self) -> (v: Vec<String>)
        ensures
            path_texts(v@).to_set() == self@,
            path_texts(v@).no_duplicates(),
    {
        proof {
            use_type_invariant(self);
        }
        let mut v: Vec<String> = Vec::new();
        let mut i: usize = 0;
        while i < self.paths.len()
            invariant
                i <= self.paths@.len(),
                v@ == self.paths@.take(i as int),
            decreases self.paths@.len() - i,
        {
            v.push(self.paths[i].clone());
            assert(self.paths@.take(i + 1) =~= self.paths@.take(i as int).push(self.paths@[i as int]));
            i = i + 1;
        }
        assert(self.paths@.take(i as int) =~= self.paths@);
        v
    }
}

#[derive(Clone, Copy, Debug, PartialEq, Eq, Structural)]
pub struct SelectionModifiers {
    pub control: bool,
    pub shift: bool,
}

impl Default for SelectionModifiers {
    fn default() -> (m: Self)
        ensures
            !m.control && !m.shift,
    {
        SelectionModifiers { control: false, shift: false }
    }
}

/// The first item, from position `i` on, whose path is `path`.
pub open spec fn first_item_from(items: Seq<FolderItem>, path: Seq<char>, i: int) -> Option<int>
    decreases items.len() - i,
{
    if i < 0 || i >= items.len() {
        None
    } else if item_path(items, i) == path {
        Some(i)
    } else {
        first_item_from(items, path, i + 1)
    }
}

/// The first item whose path is `path`.
pub open spec fn first_item_with(items: Seq<FolderItem>, path: Seq<char>) -> Option<int> {
    first_item_from(items, path, 0)
}

proof fn lemma_first_item_in_range(items: Seq<FolderItem>, path: Seq<char>, i: int)
    requires
        0 <= i,
    ensures
        match first_item_from(items, path, i) {
            Some(k) => i <= k < items.len() && item_path(items, k) == path,
            None => true,
        },
    decreases items.len() - i,
{
    if i < items.len() && item_path(items, i) != path {
        lemma_first_item_in_range(items, path, i + 1);
    }
}

/// The paths of the items from `first` to `last`, both included.
pub open spec fn range_paths(items: Seq<FolderItem>, first: int, last: int) -> Set<Seq<char>> {
    Set::new(|p: Seq<char>| exists|k: int| first <= k <= last && #[trigger] item_path(items, k) == p)
}

/// Where a Shift-click range starts: at the anchor's item, or at the
/// clicked item when there is no anchor or it is not shown.
pub open spec fn range_anchor(items: Seq<FolderItem>, anchor: Option<String>, index: int) -> int {
    match anchor {
        Some(a) => match first_item_with(items, a@) {
            Some(k) => k,
            None => index,
        },
        None => index,
    }
}

fn find_item(items: &[FolderItem], path: &str) -> (r: Option<usize>)
    ensures
        match first_item_with(items@, path@) {
            Some(k) => r == Some(k as usize) && 0 <= k < items@.len(),
            None => r is None,
        },
{
    proof {
        lemma_first_item_in_range(items@, path@, 0);
    }
    let mut i: usize = 0;
    while i < items.len()
        invariant
            i <= items@.len(),
            first_item_with(items@, path@) == first_item_from(items@, path@, i as int),
        decreases items@.len() - i,
    {
        if str_equal(items[i].path.as_str(), path) {
            return Some(i);
        }
        i = i + 1;
    }
    None
}

/// The selection after a Ctrl-click on the item with path `path`: the
/// item leaves the selection when it was in it, and joins it otherwise.
pub open spec fn control_clicked(selected: Set<Seq<char>>, path: Seq<char>) -> Set<Seq<char>> {
    if selected.contains(path) {
        selected.remove(path)
    } else {
        selected.insert(path)
    }
}

/// A second Ctrl-click on the same item undoes the first.
pub proof fn law_control_click_twice_restores(selected: Set<Seq<char>>, path: Seq<char>)
    ensures
        control_clicked(control_clicked(selected, path), path) == selected,
{
    if selected.contains(path) {
        assert(selected.remove(path).insert(path) =~= selected);
    } else {
        assert(selected.insert(path).remove(path) =~= selected);
    }
}

/// Applies a click on item `index` to the selection. A plain click selects
/// only that item, unless it is already part of a larger selection; then the
/// result is true, and the selection collapses to the item when the button
/// is released without a drag. Ctrl toggles the item, Shift selects the range
/// from the anchor (adding to the selection with Ctrl as well).
pub fn apply_item_selection(
    items: &[FolderItem],
    selected_paths: &mut PathSet,
    selection_anchor: &mut Option<String>,
    index: usize,
    modifiers: SelectionModifiers,
) -> (collapse_on_release: bool)
    ensures
        index >= items@.len() ==> !collapse_on_release && final(selected_paths)@ == old(
            selected_paths,
        )@ && *final(selection_anchor) == *old(selection_anchor),
        index < items@.len() && modifiers.shift ==> {
            let a = range_anchor(items@, *old(selection_anchor), index as int);
            let first = if a <= index { a } else { index as int };
            let last = if a <= index { index as int } else { a };
            &&& !collapse_on_release
            &&& final(selected_paths)@ == (if modifiers.control {
                old(selected_paths)@
            } else {
                Set::empty()
            }).union(range_paths(items@, first, last))
            &&& *final(selection_anchor) == (match *old(selection_anchor) {
                Some(a) => Some(a),
                None => Some(items@[index as int].path),
            })
        },
        index < items@.len() && !modifiers.shift && modifiers.control ==> {
            &&& !collapse_on_release
            &&& final(selected_paths)@ == control_clicked(old(selected_paths)@, item_path(items@, index as int))
            &&& *final(selection_anchor) == Some(items@[index as int].path)
        },
        index < items@.len() && !modifiers.shift && !modifiers.control ==> {
            let clicked = item_path(items@, index as int);
            &&& collapse_on_release == (old(selected_paths)@.contains(clicked) && old(
                selected_paths,
            )@.len() > 1)
            &&& final(selected_paths)@ == (if old(selected_paths)@.contains(clicked) {
                old(selected_paths)@
            } else {
                set![clicked]
            })
            &&& *final(selection_anchor) == Some(items@[index as int].path)
        },
{
    if index >= items.len() {
        return false;
    }
    let clicked = items[index].path.clone();
    if modifiers.shift {
        let anchor_index = match &*selection_anchor {
            Some(anchor) => match find_item(items, anchor.as_str()) {
                Some(k) => k,
                None => index,
            },
            None => index,
        };
        assert(anchor_index == range_anchor(items@, *old(selection_anchor), index as int));
        assert(anchor_index < items@.len());
        let ghost base = if modifiers.control {
            selected_paths@
        } else {
            Set::<Seq<char>>::empty()
        };
        if !modifiers.control {
            selected_paths.clear();
        }
        let first = if anchor_index <= index {
            anchor_index
        } else {
            index
        };
        let last = if anchor_index <= index {
            index
        } else {
            anchor_index
        };
        let mut k = first;
        assert(range_paths(items@, first as int, first - 1) =~= Set::<Seq<char>>::empty());
        assert(selected_paths@ =~= base.union(range_paths(items@, first as int, first - 1)));
        while k <= last
            invariant
                first <= k <= last + 1,
                last < items@.len(),
                selected_paths@ == base.union(range_paths(items@, first as int, k - 1)),
            decreases last + 1 - k,
        {
            selected_paths.insert(items[k].path.clone());
            proof {
                assert(range_paths(items@, first as int, k as int) =~= range_paths(items@, first as int, k - 1).insert(item_path(items@, k as int)));
            }
            k = k + 1;
        }
        if selection_anchor.is_none() {
            *selection_anchor = Some(clicked);
        }
        return false;
    }
    if modifiers.control {
        if !selected_paths.insert(clicked.clone()) {
            selected_paths.remove(clicked.as_str());
            proof {
                assert(old(selected_paths)@.insert(item_path(items@, index as int)).remove(item_path(items@, index as int))
                    =~= old(selected_paths)@.remove(item_path(items@, index as int)));
            }
        }
        *selection_anchor = Some(clicked);
        return false;
    }
    let present = selected_paths.contains(clicked.as_str());
    let collapse_on_release = present && selected_paths.len() > 1;
    if !present {
        selected_paths.clear();
        selected_paths.insert(clicked.clone());
        assert(selected_paths@ =~= set![item_path(items@, index as int)]);
    }
    *selection_anchor = Some(clicked);
    collapse_on_release
}

/// The paths of the first `count` items that are in `selected`, in item order.
pub open spec fn selected_in_order(items: Seq<FolderItem>, selected: Set<Seq<char>>, count: int) -> Seq<Seq<char>>
    decreases count,
{
    if count <= 0 {
        seq![]
    } else if selected.contains(item_path(items, count - 1)) {
        selected_in_order(items, selected, count - 1).push(item_path(items, count - 1))
    } else {
        selected_in_order(items, selected, count - 1)
    }
}

fn collect_selected(items: &[FolderItem], selected: &PathSet) -> (paths: Vec<String>)
    ensures
        path_texts(paths@) == selected_in_order(items@, selected@, items@.len() as int),
{
    let mut paths: Vec<String> = Vec::new();
    let mut i: usize = 0;
    while i < items.len()
        invariant
            i <= items@.len(),
            path_texts(paths@) == selected_in_order(items@, selected@, i as int),
        decreases items@.len() - i,
    {
        if selected.contains(items[i].path.as_str()) {
            let ghost before = paths@;
            paths.push(items[i].path.clone());
            assert(path_texts(paths@) =~= path_texts(before).push(item_path(items@, i as int)));
        }
        i = i + 1;
    }
    paths
}

/// The selected paths in the order the items are shown; when none of the
/// shown items is selected, the focused item's path if it is shown.
pub fn selected_paths_in_item_order(
    items: &[FolderItem],
    selected_paths: &PathSet,
    focused_path: Option<&str>,
) -> (paths: Vec<String>)
    ensures
        ({
            let ordered = selected_in_order(items@, selected_paths@, items@.len() as int);
            path_texts(paths@) == if ordered.len() > 0 {
                ordered
            } else {
                match focused_path {
                    Some(f) => if first_item_with(items@, f@) is Some {
                        seq![f@]
                    } else {
                        seq![]
                    },
                    None => seq![],
                }
            }
        }),
{
    let paths = collect_selected(items, selected_paths);
    if paths.len() > 0 {
        return paths;
    }
    let mut result: Vec<String> = Vec::new();
    match focused_path {
        Some(focused) => {
            if find_item(items, focused).is_some() {
                result.push(String::from_str(focused));
                assert(path_texts(result@) =~= seq![focused@]);
            } else {
                assert(path_texts(result@) =~= seq![]);
            }
        },
        None => {
            assert(path_texts(result@) =~= seq![]);
        },
    }
    result
}

/// The paths a drag of item `clicked_path` carries: the whole selection in
/// item order when the item is selected, else the item alone.
pub fn selected_paths_for_drag(items: &[FolderItem], selected_paths: &PathSet, clicked_path: &str) -> (paths:
    Vec<String>)
    ensures
        path_texts(paths@) == if selected_paths@.contains(clicked_path@) {
            selected_in_order(items@, selected_paths@, items@.len() as int)
        } else {
            seq![clicked_path@]
        },
{
    if !selected_paths.contains(clicked_path) {
        let mut v: Vec<String> = Vec::new();
        v.push(String::from_str(clicked_path));
        assert(path_texts(v@) =~= seq![clicked_path@]);
        return v;
    }
    collect_selected(items, selected_paths)
}

/// The count in a fence's header: the number of items when none is
/// selected, else the number selected and the number of items.
pub open spec fn header_count(selected: nat, total: nat) -> Seq<char> {
    if selected == 0 {
        decimal_digits(total) + " 项"@
    } else {
        decimal_digits(selected) + "/"@ + decimal_digits(total) + " 已选"@
    }
}

/// The text of a fence header's count, for `selected` selected entries of
/// `total`.
pub fn header_count_text(selected: usize, total: usize) -> (r: String)
    ensures
        r@ == header_count(selected as nat, total as nat),
{
    let total_text = string_from_chars(&decimal_chars(total as u64));
    if selected == 0 {
        let mut r = total_text;
        r.append(" 项");
        proof {
            reveal_strlit(" 项");
        }
        r
    } else {
        let mut r = string_from_chars(&decimal_chars(selected as u64));
        r.append("/");
        r.append(total_text.as_str());
        r.append(" 已选");
        proof {
            reveal_strlit("/");
            reveal_strlit(" 已选");
        }
        r
    }
}

} // verus!
