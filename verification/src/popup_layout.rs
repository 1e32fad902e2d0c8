//! Placement of the auxiliary popups (transfer progress first, notification
//! second) in the bottom-right corner of a monitor's work area: stacked
//! upwards when they fit, otherwise side by side.

use vstd::prelude::*;
use crate::geometry::{div_toward_zero, fits_i32, intersects, inside, max, max_i32, min, min_i32, Rect};

verus! {

pub open spec fn work_width(work: Rect) -> int {
    max(work.right - work.left, 1)
}

pub open spec fn work_height(work: Rect) -> int {
    max(work.bottom - work.top, 1)
}

/// The margin kept from the work area's edges and between popups.
pub open spec fn popup_gap(work: Rect, margin: int) -> int {
    min(min(max(margin, 0), work_width(work) / 8), work_height(work) / 8)
}

pub open spec fn sum_heights(sizes: Seq<(i32, i32)>) -> int
    decreases sizes.len(),
{
    if sizes.len() == 0 {
        0
    } else {
        sum_heights(sizes.drop_last()) + sizes.last().1
    }
}

pub open spec fn gaps_between(n: nat, gap: int) -> int {
    if n == 0 {
        0
    } else {
        gap * (n - 1)
    }
}

/// Whether the popups are stacked upwards (otherwise they stand side by side).
pub open spec fn stacks(work: Rect, sizes: Seq<(i32, i32)>, margin: int) -> bool {
    let gap = popup_gap(work, margin);
    sizes.len() <= 1 || sum_heights(sizes) + gaps_between(sizes.len(), gap) <= max(
        work_height(work) - 2 * gap,
        1,
    )
}

pub open spec fn popup_column_width(work: Rect, sizes: Seq<(i32, i32)>, margin: int) -> int {
    let gap = popup_gap(work, margin);
    let available = max(work_width(work) - 2 * gap, 1);
    if stacks(work, sizes, margin) {
        available
    } else {
        max(div_toward_zero(available - gaps_between(sizes.len(), gap), sizes.len() as int), 1)
    }
}

/// The popup rectangles, each placed against the previous one.
pub open spec fn placed(
    sizes: Seq<(i32, i32)>,
    stack: bool,
    column: int,
    available_height: int,
    gap: int,
    right: int,
    bottom: int,
) -> Seq<Rect>
    decreases sizes.len(),
{
    if sizes.len() == 0 {
        seq![]
    } else {
        let previous = placed(sizes.drop_last(), stack, column, available_height, gap, right, bottom);
        let (edge_x, edge_y) = if previous.len() == 0 {
            (right, bottom)
        } else if stack {
            (right, previous.last().top - gap)
        } else {
            (previous.last().left - gap, bottom)
        };
        let w = min(max(sizes.last().0 as int, 1), column);
        let h = min(max(sizes.last().1 as int, 1), available_height);
        previous.push(
            Rect {
                left: (edge_x - w) as i32,
                top: (edge_y - h) as i32,
                right: edge_x as i32,
                bottom: edge_y as i32,
            },
        )
    }
}

pub open spec fn arranged(work: Rect, sizes: Seq<(i32, i32)>, margin: int) -> Seq<Rect> {
    let gap = popup_gap(work, margin);
    placed(
        sizes,
        stacks(work, sizes, margin),
        popup_column_width(work, sizes, margin),
        max(work_height(work) - 2 * gap, 1),
        gap,
        work.right - gap,
        work.bottom - gap,
    )
}

proof fn lemma_placed_len(
    sizes: Seq<(i32, i32)>,
    stack: bool,
    column: int,
    available_height: int,
    gap: int,
    right: int,
    bottom: int,
)
    ensures
        placed(sizes, stack, column, available_height, gap, right, bottom).len() == sizes.len(),
    decreases sizes.len(),
{
    if sizes.len() > 0 {
        lemma_placed_len(sizes.drop_last(), stack, column, available_height, gap, right, bottom);
    }
}

proof fn lemma_sum_heights_step(sizes: Seq<(i32, i32)>, i: int)
    requires
        0 <= i < sizes.len(),
    ensures
        sum_heights(sizes.take(i + 1)) == sum_heights(sizes.take(i)) + sizes[i].1,
{
    assert(sizes.take(i + 1).drop_last() =~= sizes.take(i));
}

/// The width a popup is given in a column of the given width.
pub open spec fn clamped_width(size: (i32, i32), column: int) -> int {
    min(max(size.0 as int, 1), column)
}

/// The height a popup is given when `available` is free.
pub open spec fn clamped_height(size: (i32, i32), available: int) -> int {
    min(max(size.1 as int, 1), available)
}

/// The height that a stack of the placed popups takes, gaps between them included.
pub open spec fn stack_extent(sizes: Seq<(i32, i32)>, available: int, gap: int) -> int
    decreases sizes.len(),
{
    if sizes.len() == 0 {
        0
    } else if sizes.len() == 1 {
        clamped_height(sizes.last(), available)
    } else {
        stack_extent(sizes.drop_last(), available, gap) + gap + clamped_height(
            sizes.last(),
            available,
        )
    }
}

/// The width that a row of the placed popups takes, gaps between them included.
pub open spec fn row_extent(sizes: Seq<(i32, i32)>, column: int, gap: int) -> int
    decreases sizes.len(),
{
    if sizes.len() == 0 {
        0
    } else if sizes.len() == 1 {
        clamped_width(sizes.last(), column)
    } else {
        row_extent(sizes.drop_last(), column, gap) + gap + clamped_width(sizes.last(), column)
    }
}

/// Whether every value the arrangement computes fits in `i32`: the size of
/// the work area, the count of popups, each running sum of the heights, the
/// gaps and the stacked height, and every popup edge, down to the edge past
/// the last popup.
pub open spec fn arrangement_fits(work: Rect, sizes: Seq<(i32, i32)>, margin: int) -> bool {
    let gap = popup_gap(work, margin);
    let n = sizes.len();
    let column = popup_column_width(work, sizes, margin);
    let available = max(work_height(work) - 2 * gap, 1);
    let right = work.right - gap;
    let bottom = work.bottom - gap;
    &&& fits_i32(work.right - work.left)
    &&& fits_i32(work.bottom - work.top)
    &&& n <= 0x7fff_ffff
    &&& forall|k: int| 0 <= k <= n ==> fits_i32(#[trigger] sum_heights(sizes.take(k)))
    &&& fits_i32(gaps_between(n, gap))
    &&& fits_i32(sum_heights(sizes) + gaps_between(n, gap))
    &&& n >= 1 ==> if stacks(work, sizes, margin) {
        fits_i32(right - column) && fits_i32(bottom - stack_extent(sizes, available, gap) - gap)
    } else {
        fits_i32(bottom - available) && fits_i32(right - row_extent(sizes, column, gap) - gap)
    }
}

proof fn lemma_extents_nonneg(sizes: Seq<(i32, i32)>, column: int, available: int, gap: int)
    requires
        1 <= column,
        1 <= available,
        0 <= gap,
    ensures
        stack_extent(sizes, available, gap) >= 0,
        row_extent(sizes, column, gap) >= 0,
    decreases sizes.len(),
{
    if sizes.len() > 1 {
        lemma_extents_nonneg(sizes.drop_last(), column, available, gap);
    }
}

proof fn lemma_extent_prefix(sizes: Seq<(i32, i32)>, column: int, available: int, gap: int, k: int)
    requires
        1 <= column,
        1 <= available,
        0 <= gap,
        1 <= k <= sizes.len(),
    ensures
        stack_extent(sizes.take(k), available, gap) <= stack_extent(sizes, available, gap),
        row_extent(sizes.take(k), column, gap) <= row_extent(sizes, column, gap),
    decreases sizes.len(),
{
    if k == sizes.len() {
        assert(sizes.take(k) =~= sizes);
    } else {
        let prev = sizes.drop_last();
        lemma_extent_prefix(prev, column, available, gap, k);
        assert(prev.take(k) =~= sizes.take(k));
    }
}

/// Whether the gap lies between zero and an eighth of the work area's width
/// and height, so the edges it is taken from stay inside `i32`.
proof fn lemma_gap_range(work: Rect, margin: int)
    requires
        fits_i32(work.right - work.left),
        fits_i32(work.bottom - work.top),
    ensures
        0 <= popup_gap(work, margin),
        fits_i32(work.right - popup_gap(work, margin)),
        fits_i32(work.bottom - popup_gap(work, margin)),
        work.left < work.right ==> work.right - popup_gap(work, margin) >= work.left,
        work.top < work.bottom ==> work.bottom - popup_gap(work, margin) >= work.top,
{
    let w = work_width(work);
    let h = work_height(work);
    let gap = popup_gap(work, margin);
    assert(0 <= w / 8 <= w);
    assert(0 <= h / 8 <= h);
    assert(gap <= w / 8 && gap <= h / 8);
    if work.right - work.left < 1 {
        assert(w / 8 == 0);
    }
    if work.bottom - work.top < 1 {
        assert(h / 8 == 0);
    }
}

proof fn lemma_placed_shape(
    sizes: Seq<(i32, i32)>,
    stack: bool,
    column: int,
    available: int,
    gap: int,
    right: int,
    bottom: int,
)
    requires
        1 <= column,
        1 <= available,
        0 <= gap,
        fits_i32(right),
        fits_i32(bottom),
        sizes.len() >= 1 ==> if stack {
            fits_i32(right - column) && fits_i32(bottom - stack_extent(sizes, available, gap) - gap)
        } else {
            fits_i32(bottom - available) && fits_i32(right - row_extent(sizes, column, gap) - gap)
        },
    ensures
        ({
            let r = placed(sizes, stack, column, available, gap, right, bottom);
            &&& r.len() == sizes.len()
            &&& 0 <= stack_extent(sizes, available, gap)
            &&& 0 <= row_extent(sizes, column, gap)
            &&& forall|i: int|
                0 <= i < r.len() ==> 1 <= (#[trigger] r[i]).right - r[i].left <= column && 1
                    <= r[i].bottom - r[i].top <= available
            &&& stack && r.len() > 0 ==> {
                &&& r.last().top == bottom - stack_extent(sizes, available, gap)
                &&& forall|i: int|
                    0 <= i < r.len() ==> (#[trigger] r[i]).right == right && r[i].bottom <= bottom
                        && r[i].top >= r.last().top
            }
            &&& !stack && r.len() > 0 ==> {
                &&& r.last().left == right - row_extent(sizes, column, gap)
                &&& forall|i: int|
                    0 <= i < r.len() ==> (#[trigger] r[i]).bottom == bottom && r[i].right <= right
                        && r[i].left >= r.last().left
            }
            &&& stack ==> forall|i: int, j: int|
                0 <= i < j < r.len() ==> #[trigger] r[j].bottom <= #[trigger] r[i].top
            &&& !stack ==> forall|i: int, j: int|
                0 <= i < j < r.len() ==> #[trigger] r[j].right <= #[trigger] r[i].left
        }),
    decreases sizes.len(),
{
    let n = sizes.len();
    lemma_extents_nonneg(sizes, column, available, gap);
    if n > 0 {
        let prev_sizes = sizes.drop_last();
        lemma_extents_nonneg(prev_sizes, column, available, gap);
        lemma_placed_shape(prev_sizes, stack, column, available, gap, right, bottom);
        let prev = placed(prev_sizes, stack, column, available, gap, right, bottom);
        let r = placed(sizes, stack, column, available, gap, right, bottom);
        assert(r[n - 1] == r.last());
        assert forall|i: int| 0 <= i < n - 1 implies r[i] == prev[i] by {}
    }
}

/// Stacked popups lie one above another and popups in a row one beside
/// another, so no two of the arranged popups overlap.
pub proof fn law_arranged_popups_do_not_overlap(work: Rect, sizes: Seq<(i32, i32)>, margin: int)
    requires
        arrangement_fits(work, sizes, margin),
    ensures
        forall|i: int, j: int|
            0 <= i < sizes.len() && 0 <= j < sizes.len() && i != j ==> !intersects(
                #[trigger] arranged(work, sizes, margin)[i],
                #[trigger] arranged(work, sizes, margin)[j],
            ),
{
    let gap = popup_gap(work, margin);
    let stack = stacks(work, sizes, margin);
    let column = popup_column_width(work, sizes, margin);
    let available = max(work_height(work) - 2 * gap, 1);
    lemma_gap_range(work, margin);
    lemma_placed_shape(sizes, stack, column, available, gap, work.right - gap, work.bottom - gap);
}

/// When every popup has a positive size, and the popups either stack or
/// leave each column at least a pixel, every arranged popup lies inside the
/// work area.
pub proof fn law_arranged_popups_stay_inside_work_area(
    work: Rect,
    sizes: Seq<(i32, i32)>,
    margin: int,
)
    requires
        arrangement_fits(work, sizes, margin),
        work.left < work.right,
        work.top < work.bottom,
        forall|i: int| 0 <= i < sizes.len() ==> (#[trigger] sizes[i]).0 >= 1 && sizes[i].1 >= 1,
        stacks(work, sizes, margin) || max(work_width(work) - 2 * popup_gap(work, margin), 1)
            - gaps_between(sizes.len(), popup_gap(work, margin)) >= sizes.len(),
    ensures
        forall|i: int|
            0 <= i < sizes.len() ==> inside(#[trigger] arranged(work, sizes, margin)[i], work),
{
    let gap = popup_gap(work, margin);
    let stack = stacks(work, sizes, margin);
    let column = popup_column_width(work, sizes, margin);
    let width = work_width(work);
    let height = work_height(work);
    let available = max(height - 2 * gap, 1);
    let available_width = max(width - 2 * gap, 1);
    let n = sizes.len();
    let between = gaps_between(n, gap);
    lemma_gap_range(work, margin);
    assert(available == height - 2 * gap);
    assert(available_width == width - 2 * gap);
    if !stack {
        assert(n >= 2);
        assert(0 <= between) by (nonlinear_arith)
            requires
                between == gap * (n - 1),
                2 <= n,
                0 <= gap,
        ;
        let a = available_width - between;
        assert(a >= n);
        assert(div_toward_zero(a, n as int) == a / (n as int));
        assert(1 <= a / (n as int) <= a && (n as int) * (a / (n as int)) <= a) by (nonlinear_arith)
            requires
                a >= n,
                n >= 2,
        ;
        assert(column == a / (n as int));
        lemma_row_extent_bound(sizes, column, gap);
    } else if n >= 2 {
        lemma_stack_extent_bound(sizes, available, gap);
    }
    lemma_placed_shape(sizes, stack, column, available, gap, work.right - gap, work.bottom - gap);
}

proof fn lemma_stack_extent_bound(sizes: Seq<(i32, i32)>, available: int, gap: int)
    requires
        gap >= 0,
        forall|i: int| 0 <= i < sizes.len() ==> (#[trigger] sizes[i]).1 >= 1,
    ensures
        stack_extent(sizes, available, gap) <= sum_heights(sizes) + gaps_between(sizes.len(), gap),
    decreases sizes.len(),
{
    let n = sizes.len();
    if n > 0 {
        let prev = sizes.drop_last();
        assert forall|i: int| 0 <= i < prev.len() implies (#[trigger] prev[i]).1 >= 1 by {
            assert(prev[i] == sizes[i]);
        }
        lemma_stack_extent_bound(prev, available, gap);
        assert(sizes.last() == sizes[n - 1]);
        if n >= 2 {
            assert(gap * (n - 2) + gap == gap * (n - 1)) by (nonlinear_arith);
        }
    }
}

proof fn lemma_row_extent_bound(sizes: Seq<(i32, i32)>, column: int, gap: int)
    requires
        gap >= 0,
    ensures
        row_extent(sizes, column, gap) <= sizes.len() * column + gaps_between(sizes.len(), gap),
    decreases sizes.len(),
{
    let n = sizes.len();
    if n > 0 {
        lemma_row_extent_bound(sizes.drop_last(), column, gap);
        assert((n - 1) * column + column == n * column) by (nonlinear_arith);
        if n >= 2 {
            assert(gap * (n - 2) + gap == gap * (n - 1)) by (nonlinear_arith);
        }
    }
}

/// Arranges the popups of the given sizes (progress first) in the work area.
pub fn arrange(work: Rect, sizes: &Vec<(i32, i32)>, margin: i32) -> (rects: Vec<Rect>)
    requires
        arrangement_fits(work, sizes@, margin as int),
    ensures
        rects@ == arranged(work, sizes@, margin as int),
{
    proof {
        lemma_gap_range(work, margin as int);
    }
    let width = max_i32(work.right - work.left, 1);
    let height = max_i32(work.bottom - work.top, 1);
    let gap = min_i32(min_i32(max_i32(margin, 0), width / 8), height / 8);
    assert(gap == popup_gap(work, margin as int));
    let right = work.right - gap;
    let bottom = work.bottom - gap;
    let available_width = max_i32(width - 2 * gap, 1);
    let available_height = max_i32(height - 2 * gap, 1);
    let n = sizes.len();
    let mut total: i32 = 0;
    for i in 0..n
        invariant
            n == sizes@.len(),
            arrangement_fits(work, sizes@, margin as int),
            total == sum_heights(sizes@.take(i as int)),
    {
        proof {
            lemma_sum_heights_step(sizes@, i as int);
        }
        assert(fits_i32(sum_heights(sizes@.take(i + 1))));
        total = total + sizes[i].1;
    }
    assert(sizes@.take(n as int) =~= sizes@);
    let between: i32 = if n == 0 {
        0
    } else {
        let count: i32 = (n - 1) as i32;
        assert(count == n - 1);
        assert(fits_i32(gap * count));
        gap * count
    };
    assert(between == gaps_between(n as nat, gap as int));
    let stacked_height = total + between;
    let stack = n <= 1 || stacked_height <= available_height;
    assert(stack == stacks(work, sizes@, margin as int));
    let column_width = if stack {
        available_width
    } else {
        let count: i32 = n as i32;
        assert(0 <= between) by (nonlinear_arith)
            requires
                between == gap * (n - 1),
                2 <= n,
                0 <= gap,
        ;
        max_i32((available_width - between) / count, 1)
    };
    assert(column_width == popup_column_width(work, sizes@, margin as int));
    let ghost column = column_width as int;
    let ghost available = available_height as int;
    let mut rects: Vec<Rect> = Vec::new();
    let mut edge_x = right;
    let mut edge_y = bottom;
    for i in 0..n
        invariant
            n == sizes@.len(),
            0 <= gap,
            column == column_width,
            available == available_height,
            1 <= column_width,
            1 <= available_height,
            n >= 1 ==> if stack {
                fits_i32(right - column) && fits_i32(bottom - stack_extent(sizes@, available, gap as int) - gap)
            } else {
                fits_i32(bottom - available) && fits_i32(right - row_extent(sizes@, column, gap as int) - gap)
            },
            rects@ == placed(
                sizes@.take(i as int),
                stack,
                column,
                available,
                gap as int,
                right as int,
                bottom as int,
            ),
            rects@.len() == i,
            i == 0 ==> edge_x == right && edge_y == bottom,
            i > 0 ==> (if stack {
                &&& edge_x == right
                &&& edge_y == rects@.last().top - gap
                &&& rects@.last().top == bottom - stack_extent(sizes@.take(i as int), available, gap as int)
            } else {
                &&& edge_x == rects@.last().left - gap
                &&& edge_y == bottom
                &&& rects@.last().left == right - row_extent(sizes@.take(i as int), column, gap as int)
            }),
    {
        proof {
            lemma_extent_prefix(sizes@, column, available, gap as int, i + 1);
            lemma_extents_nonneg(sizes@.take(i + 1), column, available, gap as int);
            lemma_extents_nonneg(sizes@.take(i as int), column, available, gap as int);
        }
        assert(sizes@.take(i + 1).drop_last() =~= sizes@.take(i as int));
        assert(sizes@.take(i + 1).last() == sizes@[i as int]);
        let (w0, h0) = sizes[i];
        let w = min_i32(max_i32(w0, 1), column_width);
        let h = min_i32(max_i32(h0, 1), available_height);
        let rect = Rect { left: edge_x - w, top: edge_y - h, right: edge_x, bottom: edge_y };
        if stack {
            edge_y = rect.top - gap;
        } else {
            edge_x = rect.left - gap;
        }
        rects.push(rect);
    }
    assert(sizes@.take(n as int) =~= sizes@);
    rects
}

/// A popup window that exists: whether it is the one being shown by this
/// call, and whether it is on screen already.
#[derive(Clone, Copy, Debug, PartialEq, Eq, Structural)]
pub struct PopupWindow {
    pub incoming: bool,
    pub visible: bool,
}

/// Which popups to arrange (indices into the windows, in order), which one
/// decides the monitor, and whether the monitor is the one under the cursor
/// rather than the anchor's own.
#[derive(Debug)]
pub struct PopupPlan {
    pub arranged: Vec<usize>,
    pub anchor: usize,
    pub follow_cursor: bool,
}

/// A popup takes part in the arrangement when it is visible or is being shown.
pub open spec fn popup_active(w: PopupWindow, showing: bool) -> bool {
    w.visible || (showing && w.incoming)
}

/// A popup already on screen, other than the one being shown, keeps its
/// monitor when a companion is added.
pub open spec fn keeps_monitor(w: PopupWindow, showing: bool) -> bool {
    w.visible && (!showing || !w.incoming)
}

pub open spec fn active_indices(windows: Seq<PopupWindow>, showing: bool) -> Seq<usize>
    decreases windows.len(),
{
    if windows.len() == 0 {
        Seq::empty()
    } else {
        let rest = active_indices(windows.drop_last(), showing);
        if popup_active(windows.last(), showing) {
            rest.push((windows.len() - 1) as usize)
        } else {
            rest
        }
    }
}

/// Decides which popups to arrange and on which monitor; `None` when no
/// popup is visible or being shown.
pub fn plan_popups(windows: &Vec<PopupWindow>, showing: bool) -> (r: Option<PopupPlan>)
    ensures
        r is None <==> forall|i: int| 0 <= i < windows@.len() ==> !popup_active(#[trigger] windows@[i], showing),
        r matches Some(plan) ==> {
            &&& plan.arranged@ == active_indices(windows@, showing)
            &&& plan.anchor < windows@.len()
            &&& if exists|i: int| 0 <= i < windows@.len() && keeps_monitor(#[trigger] windows@[i], showing) {
                &&& keeps_monitor(windows@[plan.anchor as int], showing)
                &&& forall|j: int| 0 <= j < plan.anchor ==> !keeps_monitor(#[trigger] windows@[j], showing)
                &&& !plan.follow_cursor
            } else {
                &&& popup_active(windows@[plan.anchor as int], showing)
                &&& forall|j: int| 0 <= j < plan.anchor ==> !popup_active(#[trigger] windows@[j], showing)
                &&& plan.follow_cursor == showing
            }
        },
{
    let mut arranged: Vec<usize> = Vec::new();
    let mut first_active: Option<usize> = None;
    let mut first_keeping: Option<usize> = None;
    for i in 0..windows.len()
        invariant
            arranged@ == active_indices(windows@.take(i as int), showing),
            first_active matches Some(a) ==> a < i && popup_active(windows@[a as int], showing),
            first_active is None ==> forall|j: int| 0 <= j < i ==> !popup_active(#[trigger] windows@[j], showing),
            first_active matches Some(a) ==> forall|j: int| 0 <= j < a ==> !popup_active(#[trigger] windows@[j], showing),
            first_keeping matches Some(a) ==> a < i && keeps_monitor(windows@[a as int], showing),
            first_keeping is None ==> forall|j: int| 0 <= j < i ==> !keeps_monitor(#[trigger] windows@[j], showing),
            first_keeping matches Some(a) ==> forall|j: int| 0 <= j < a ==> !keeps_monitor(#[trigger] windows@[j], showing),
    {
        let w = windows[i];
        assert(windows@.take(i + 1).drop_last() =~= windows@.take(i as int));
        if w.visible || (showing && w.incoming) {
            arranged.push(i);
            if first_active.is_none() {
                first_active = Some(i);
            }
        }
        if w.visible && (!showing || !w.incoming) && first_keeping.is_none() {
            first_keeping = Some(i);
        }
    }
    assert(windows@.take(windows@.len() as int) =~= windows@);
    match first_active {
        None => None,
        Some(a) => match first_keeping {
            Some(k) => Some(PopupPlan { arranged, anchor: k, follow_cursor: false }),
            None => Some(PopupPlan { arranged, anchor: a, follow_cursor: showing }),
        },
    }
}

} // verus!

