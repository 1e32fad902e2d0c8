//! Moving and resizing a box with the pointer: the raw drag rectangle, snapping
//! to the work area and to sibling boxes, and keeping boxes from overlapping.

use vstd::prelude::*;
use crate::grid::title_bar_height;
use crate::geometry::{
    abs_diff, clamp, clamp_i32, fits_i32, intersects, max, max_i32, min, min_i32, nearest_snap, rects_intersect,
    sat, sat_add, sat_sub, snapped, contains_point, Point, Rect,
};

verus! {

pub const MIN_FENCE_WIDTH: i32 = 244;

pub const MAX_FENCE_WIDTH: i32 = 1_600;

pub const MIN_FENCE_HEIGHT: i32 = 148;

pub const MAX_FENCE_HEIGHT: i32 = 1_200;

/// How far the pointer must travel before an item drag starts.
pub const ITEM_DRAG_THRESHOLD: i32 = 6;

/// How wide the band along a box's edges is that starts a resize.
pub const RESIZE_BORDER: i32 = 8;

/// Which edges a resize drags.
#[derive(Clone, Copy, Debug, Default, PartialEq, Eq, Structural)]
pub struct ResizeEdges {
    pub left: bool,
    pub top: bool,
    pub right: bool,
    pub bottom: bool,
}

#[derive(Clone, Copy, Debug, PartialEq, Eq, Structural)]
pub enum InteractionMode {
    Move,
    Resize(ResizeEdges),
}

/// Coordinates this far from zero leave room for every sum and difference
/// the display, grid and overlay code forms without leaving `i32`.
pub open spec fn bounded(v: int) -> bool {
    -0x2000_0000 <= v <= 0x2000_0000
}

pub open spec fn rect_bounded(r: Rect) -> bool {
    bounded(r.left as int) && bounded(r.top as int) && bounded(r.right as int) && bounded(
        r.bottom as int,
    )
}

pub open spec fn point_bounded(p: Point) -> bool {
    bounded(p.x as int) && bounded(p.y as int)
}

/// What pressing the pointer at `cursor` on a box whose window covers
/// `rect` starts.
pub open spec fn mode_at(
    rect: Rect,
    cursor: Point,
    locked: bool,
    collapsed: bool,
    show_fence_titles: bool,
) -> Option<InteractionMode> {
    let edges = ResizeEdges {
        left: cursor.x < rect.left + RESIZE_BORDER,
        top: cursor.y < rect.top + RESIZE_BORDER,
        right: cursor.x >= rect.right - RESIZE_BORDER,
        bottom: cursor.y >= rect.bottom - RESIZE_BORDER,
    };
    let title = if show_fence_titles { crate::grid::HEADER_HEIGHT } else { crate::grid::COMPACT_HEADER_HEIGHT };
    if locked || !contains_point(rect, cursor) {
        None
    } else if !(collapsed && show_fence_titles) && (edges.left || edges.top || edges.right || edges.bottom) {
        Some(InteractionMode::Resize(edges))
    } else if cursor.y < rect.top + title {
        Some(InteractionMode::Move)
    } else {
        None
    }
}

/// Whether the pointer at `cursor` starts a resize (within `RESIZE_BORDER`
/// of an edge of an expanded box), a move (on the title bar), or nothing; a
/// locked box starts neither.
pub fn interaction_mode_at(
    rect: &Rect,
    cursor: Point,
    locked: bool,
    collapsed: bool,
    show_fence_titles: bool,
) -> (r: Option<InteractionMode>)
    requires
        !locked && contains_point(*rect, cursor) ==> {
            &&& !(collapsed && show_fence_titles) ==> {
                &&& fits_i32(rect.left + RESIZE_BORDER)
                &&& fits_i32(rect.top + RESIZE_BORDER)
                &&& fits_i32(rect.right - RESIZE_BORDER)
                &&& fits_i32(rect.bottom - RESIZE_BORDER)
            }
            &&& fits_i32(
                rect.top + (if show_fence_titles {
                    crate::grid::HEADER_HEIGHT
                } else {
                    crate::grid::COMPACT_HEADER_HEIGHT
                }),
            )
        },
    ensures
        r == mode_at(*rect, cursor, locked, collapsed, show_fence_titles),
{
    if locked || cursor.x < rect.left || cursor.x >= rect.right || cursor.y < rect.top || cursor.y
        >= rect.bottom {
        return None;
    }
    if !(collapsed && show_fence_titles) {
        let edges = ResizeEdges {
            left: cursor.x < rect.left + RESIZE_BORDER,
            top: cursor.y < rect.top + RESIZE_BORDER,
            right: cursor.x >= rect.right - RESIZE_BORDER,
            bottom: cursor.y >= rect.bottom - RESIZE_BORDER,
        };
        if edges.left || edges.top || edges.right || edges.bottom {
            return Some(InteractionMode::Resize(edges));
        }
    }
    if cursor.y < rect.top + title_bar_height(show_fence_titles) {
        Some(InteractionMode::Move)
    } else {
        None
    }
}

/// Whether the pointer moved at least `ITEM_DRAG_THRESHOLD` pixels along an axis.
pub fn item_drag_crossed_threshold(start: Point, current: Point) -> (r: bool)
    ensures
        r == ((if current.x >= start.x {
            current.x - start.x
        } else {
            start.x - current.x
        }) >= ITEM_DRAG_THRESHOLD || (if current.y >= start.y {
            current.y - start.y
        } else {
            start.y - current.y
        }) >= ITEM_DRAG_THRESHOLD),
{
    abs_diff(current.x, start.x) >= ITEM_DRAG_THRESHOLD as u64 || abs_diff(current.y, start.y)
        >= ITEM_DRAG_THRESHOLD as u64
}

/// The rectangle a move or resize gives before any snapping. The pointer's
/// travel and the moved edges saturate at the ends of `i32`.
pub open spec fn dragged_rect(
    mode: InteractionMode,
    start_cursor: Point,
    start: Rect,
    cursor: Point,
    min_height: int,
    max_height: int,
) -> Rect {
    let dx = sat(cursor.x - start_cursor.x);
    let dy = sat(cursor.y - start_cursor.y);
    match mode {
        InteractionMode::Move => {
            let width = start.right - start.left;
            let height = start.bottom - start.top;
            let left = clamp(sat(start.left + dx), -32_768, 32_768);
            let top = clamp(sat(start.top + dy), -32_768, 32_768);
            Rect {
                left: left as i32,
                top: top as i32,
                right: (left + width) as i32,
                bottom: (top + height) as i32,
            }
        },
        InteractionMode::Resize(edges) => Rect {
            left: if edges.left {
                clamp(
                    clamp(
                        sat(start.left + dx),
                        start.right - MAX_FENCE_WIDTH,
                        start.right - MIN_FENCE_WIDTH,
                    ),
                    -32_768,
                    32_768,
                ) as i32
            } else {
                start.left
            },
            right: if edges.right {
                clamp(
                    sat(start.right + dx),
                    start.left + MIN_FENCE_WIDTH,
                    start.left + MAX_FENCE_WIDTH,
                ) as i32
            } else {
                start.right
            },
            top: if edges.top {
                clamp(
                    clamp(sat(start.top + dy), start.bottom - max_height, start.bottom - min_height),
                    -32_768,
                    32_768,
                ) as i32
            } else {
                start.top
            },
            bottom: if edges.bottom {
                clamp(sat(start.bottom + dy), start.top + min_height, start.top + max_height) as i32
            } else {
                start.bottom
            },
        },
    }
}

/// Whether every value a move or resize forms fits in `i32`, and every range
/// a dragged edge is kept in is not empty.
pub open spec fn drag_fits(
    mode: InteractionMode,
    start_cursor: Point,
    start: Rect,
    cursor: Point,
    min_height: int,
    max_height: int,
) -> bool {
    let dx = sat(cursor.x - start_cursor.x);
    let dy = sat(cursor.y - start_cursor.y);
    match mode {
        InteractionMode::Move => {
            let width = start.right - start.left;
            let height = start.bottom - start.top;
            &&& fits_i32(width)
            &&& fits_i32(height)
            &&& fits_i32(clamp(sat(start.left + dx), -32_768, 32_768) + width)
            &&& fits_i32(clamp(sat(start.top + dy), -32_768, 32_768) + height)
        },
        InteractionMode::Resize(edges) => {
            &&& edges.left ==> fits_i32(start.right - MAX_FENCE_WIDTH)
            &&& edges.right ==> fits_i32(start.left + MAX_FENCE_WIDTH)
            &&& edges.top ==> min_height <= max_height && fits_i32(start.bottom - max_height)
                && fits_i32(start.bottom - min_height)
            &&& edges.bottom ==> min_height <= max_height && fits_i32(start.top + min_height)
                && fits_i32(start.top + max_height)
        },
    }
}

/// The rectangle a move or resize gives for the current pointer position.
/// A move keeps the size; a resize keeps the dragged width and height within
/// the box limits.
pub fn interaction_rect(
    mode: InteractionMode,
    start_cursor: Point,
    start: Rect,
    cursor: Point,
    min_height: i32,
    max_height: i32,
) -> (r: Rect)
    requires
        drag_fits(mode, start_cursor, start, cursor, min_height as int, max_height as int),
    ensures
        r == dragged_rect(mode, start_cursor, start, cursor, min_height as int, max_height as int),
        mode == InteractionMode::Move ==> r.right - r.left == start.right - start.left
            && r.bottom - r.top == start.bottom - start.top,
        mode matches InteractionMode::Resize(edges) && edges.right && !edges.left ==> (
        MIN_FENCE_WIDTH <= r.right - r.left <= MAX_FENCE_WIDTH),
        mode matches InteractionMode::Resize(edges) && edges.bottom && !edges.top ==> (min_height
            <= r.bottom - r.top <= max_height),
{
    let delta_x = sat_sub(cursor.x, start_cursor.x);
    let delta_y = sat_sub(cursor.y, start_cursor.y);
    match mode {
        InteractionMode::Move => {
            let width = start.right - start.left;
            let height = start.bottom - start.top;
            let left = clamp_i32(sat_add(start.left, delta_x), -32_768, 32_768);
            let top = clamp_i32(sat_add(start.top, delta_y), -32_768, 32_768);
            Rect { left, top, right: left + width, bottom: top + height }
        },
        InteractionMode::Resize(edges) => {
            let mut rect = start;
            if edges.left {
                rect.left = clamp_i32(
                    clamp_i32(
                        sat_add(start.left, delta_x),
                        start.right - MAX_FENCE_WIDTH,
                        start.right - MIN_FENCE_WIDTH,
                    ),
                    -32_768,
                    32_768,
                );
            }
            if edges.right {
                rect.right = clamp_i32(
                    sat_add(start.right, delta_x),
                    start.left + MIN_FENCE_WIDTH,
                    start.left + MAX_FENCE_WIDTH,
                );
            }
            if edges.top {
                rect.top = clamp_i32(
                    clamp_i32(
                        sat_add(start.top, delta_y),
                        start.bottom - max_height,
                        start.bottom - min_height,
                    ),
                    -32_768,
                    32_768,
                );
            }
            if edges.bottom {
                rect.bottom = clamp_i32(
                    sat_add(start.bottom, delta_y),
                    start.top + min_height,
                    start.top + max_height,
                );
            }
            rect
        },
    }
}

/// The edges of a resized box after the dragged edges snap to the work area
/// and every edge is pulled inside it, before the size limits apply.
pub open spec fn resize_within_work(rect: Rect, work: Rect, edges: ResizeEdges, min_height: int) -> (int, int, int, int) {
    let l1 = if edges.left {
        clamp(
            snapped(rect.left as int, seq![work.left]),
            work.left as int,
            max(sat(rect.right - MIN_FENCE_WIDTH), work.left as int),
        )
    } else {
        rect.left as int
    };
    let r1 = if edges.right {
        clamp(
            snapped(rect.right as int, seq![work.right]),
            min(sat(l1 + MIN_FENCE_WIDTH), work.right as int),
            work.right as int,
        )
    } else {
        rect.right as int
    };
    let t1 = if edges.top {
        clamp(
            snapped(rect.top as int, seq![work.top]),
            work.top as int,
            max(sat(rect.bottom - min_height), work.top as int),
        )
    } else {
        rect.top as int
    };
    let b1 = if edges.bottom {
        clamp(
            snapped(rect.bottom as int, seq![work.bottom]),
            min(sat(t1 + min_height), work.bottom as int),
            work.bottom as int,
        )
    } else {
        rect.bottom as int
    };
    (max(l1, work.left as int), max(t1, work.top as int), min(r1, work.right as int), min(b1, work.bottom as int))
}

/// The work-area part of snapping: edges within `SNAP_DISTANCE` of the work
/// area's edges snap to them, and the result is kept inside the work area.
pub open spec fn work_area_rect(
    mode: InteractionMode,
    rect: Rect,
    work: Rect,
    min_height: int,
    max_height: int,
) -> Rect {
    let work_width = max(work.right - work.left, 1);
    let work_height = max(work.bottom - work.top, 1);
    match mode {
        InteractionMode::Move => {
            let width = min(rect.right - rect.left, work_width);
            let height = min(rect.bottom - rect.top, work_height);
            let left = clamp(
                snapped(rect.left as int, seq![work.left, (work.right - width) as i32]),
                work.left as int,
                work.right - width,
            );
            let top = clamp(
                snapped(rect.top as int, seq![work.top, (work.bottom - height) as i32]),
                work.top as int,
                work.bottom - height,
            );
            Rect {
                left: left as i32,
                top: top as i32,
                right: (left + width) as i32,
                bottom: (top + height) as i32,
            }
        },
        InteractionMode::Resize(edges) => {
            let (l2, t2, r2, b2) = resize_within_work(rect, work, edges, min_height);
            let (l3, r3) = if r2 - l2 > MAX_FENCE_WIDTH {
                if edges.left {
                    (r2 - MAX_FENCE_WIDTH, r2)
                } else {
                    (l2, l2 + MAX_FENCE_WIDTH)
                }
            } else {
                (l2, r2)
            };
            let bounded_max_height = min(max_height, work_height);
            let (t3, b3) = if b2 - t2 > bounded_max_height {
                if edges.top {
                    (b2 - bounded_max_height, b2)
                } else {
                    (t2, t2 + bounded_max_height)
                }
            } else {
                (t2, b2)
            };
            Rect { left: l3 as i32, top: t3 as i32, right: r3 as i32, bottom: b3 as i32 }
        },
    }
}

/// Whether every value the work-area snapping forms fits in `i32`, and every
/// range a moved box is kept in is not empty.
pub open spec fn work_area_fits(
    mode: InteractionMode,
    rect: Rect,
    work: Rect,
    min_height: int,
    max_height: int,
) -> bool {
    let work_width = max(work.right - work.left, 1);
    let work_height = max(work.bottom - work.top, 1);
    &&& fits_i32(work.right - work.left)
    &&& fits_i32(work.bottom - work.top)
    &&& match mode {
        InteractionMode::Move => {
            let width = min(rect.right - rect.left, work_width);
            let height = min(rect.bottom - rect.top, work_height);
            &&& fits_i32(rect.right - rect.left)
            &&& fits_i32(rect.bottom - rect.top)
            &&& fits_i32(work.right - width)
            &&& fits_i32(work.bottom - height)
            &&& work.left <= work.right - width
            &&& work.top <= work.bottom - height
            &&& fits_i32(work.left + width)
            &&& fits_i32(work.top + height)
        },
        InteractionMode::Resize(edges) => {
            let (l2, t2, r2, b2) = resize_within_work(rect, work, edges, min_height);
            let bounded_max_height = min(max_height, work_height);
            &&& fits_i32(r2 - l2)
            &&& fits_i32(b2 - t2)
            &&& r2 - l2 > MAX_FENCE_WIDTH ==> if edges.left {
                fits_i32(r2 - MAX_FENCE_WIDTH)
            } else {
                fits_i32(l2 + MAX_FENCE_WIDTH)
            }
            &&& b2 - t2 > bounded_max_height ==> if edges.top {
                fits_i32(b2 - bounded_max_height)
            } else {
                fits_i32(t2 + bounded_max_height)
            }
        },
    }
}

fn pair(a: i32, b: i32) -> (v: Vec<i32>)
    ensures
        v@ == seq![a, b],
{
    let mut v: Vec<i32> = Vec::new();
    v.push(a);
    v.push(b);
    v
}

fn single(a: i32) -> (v: Vec<i32>)
    ensures
        v@ == seq![a],
{
    let mut v: Vec<i32> = Vec::new();
    v.push(a);
    v
}

proof fn lemma_snapped_near(value: int, candidates: Seq<i32>)
    ensures
        snapped(value, candidates) == value || (candidates.contains(snapped(value, candidates) as i32)
            && -12 <= snapped(value, candidates) - value <= 12),
{
    crate::geometry::lemma_snapped_is_near(value, candidates);
}

/// Snaps the dragged rectangle to the work area's edges and keeps it inside.
/// A move keeps the size whenever the box fits the work area.
pub fn snap_and_constrain_to_work_area(
    mode: InteractionMode,
    rect: Rect,
    work: &Rect,
    min_height: i32,
    max_height: i32,
) -> (r: Rect)
    requires
        work_area_fits(mode, rect, *work, min_height as int, max_height as int),
    ensures
        r == work_area_rect(mode, rect, *work, min_height as int, max_height as int),
        mode == InteractionMode::Move ==> crate::geometry::inside(r, *work),
        mode == InteractionMode::Move && rect.right - rect.left <= work.right - work.left
            ==> r.right - r.left == rect.right - rect.left,
{
    let work_width = max_i32(work.right - work.left, 1);
    let work_height = max_i32(work.bottom - work.top, 1);
    let mut rect = rect;
    match mode {
        InteractionMode::Move => {
            let width = min_i32(rect.right - rect.left, work_width);
            let height = min_i32(rect.bottom - rect.top, work_height);
            rect.left = clamp_i32(
                nearest_snap(rect.left, &pair(work.left, work.right - width)),
                work.left,
                work.right - width,
            );
            rect.top = clamp_i32(
                nearest_snap(rect.top, &pair(work.top, work.bottom - height)),
                work.top,
                work.bottom - height,
            );
            rect.right = rect.left + width;
            rect.bottom = rect.top + height;
        },
        InteractionMode::Resize(edges) => {
            let ghost initial = rect;
            if edges.left {
                let maximum_left = max_i32(sat_sub(rect.right, MIN_FENCE_WIDTH), work.left);
                proof {
                    lemma_snapped_near(rect.left as int, seq![work.left]);
                }
                rect.left = clamp_i32(nearest_snap(rect.left, &single(work.left)), work.left, maximum_left);
            }
            if edges.right {
                let minimum_right = min_i32(sat_add(rect.left, MIN_FENCE_WIDTH), work.right);
                proof {
                    lemma_snapped_near(rect.right as int, seq![work.right]);
                }
                rect.right = clamp_i32(
                    nearest_snap(rect.right, &single(work.right)),
                    minimum_right,
                    work.right,
                );
            }
            if edges.top {
                let maximum_top = max_i32(sat_sub(rect.bottom, min_height), work.top);
                proof {
                    lemma_snapped_near(rect.top as int, seq![work.top]);
                }
                rect.top = clamp_i32(nearest_snap(rect.top, &single(work.top)), work.top, maximum_top);
            }
            if edges.bottom {
                let minimum_bottom = min_i32(sat_add(rect.top, min_height), work.bottom);
                proof {
                    lemma_snapped_near(rect.bottom as int, seq![work.bottom]);
                }
                rect.bottom = clamp_i32(
                    nearest_snap(rect.bottom, &single(work.bottom)),
                    minimum_bottom,
                    work.bottom,
                );
            }
            rect.left = max_i32(rect.left, work.left);
            rect.top = max_i32(rect.top, work.top);
            rect.right = min_i32(rect.right, work.right);
            rect.bottom = min_i32(rect.bottom, work.bottom);
            if rect.right - rect.left > MAX_FENCE_WIDTH {
                if edges.left {
                    rect.left = rect.right - MAX_FENCE_WIDTH;
                } else {
                    rect.right = rect.left + MAX_FENCE_WIDTH;
                }
            }
            let bounded_max_height = min_i32(max_height, work_height);
            if rect.bottom - rect.top > bounded_max_height {
                if edges.top {
                    rect.top = rect.bottom - bounded_max_height;
                } else {
                    rect.bottom = rect.top + bounded_max_height;
                }
            }
        },
    }
    rect
}

} // verus!

verus! {

/// Rust's `/ 2` on a signed value (rounding toward zero).
pub open spec fn half_toward_zero(v: int) -> int {
    if v >= 0 {
        v / 2
    } else {
        -((-v) / 2)
    }
}

fn half_i32(v: i32) -> (r: i32)
    ensures
        r == half_toward_zero(v as int),
{
    v / 2
}

/// Where a moving box's left edge may snap: against each sibling's edges,
/// outside them, and centred on them.
pub open spec fn move_x_candidates(siblings: Seq<Rect>, width: int) -> Seq<i32>
    decreases siblings.len(),
{
    if siblings.len() == 0 {
        seq![]
    } else {
        let s = siblings.last();
        move_x_candidates(siblings.drop_last(), width) + seq![
            s.left,
            s.right,
            (s.left - width) as i32,
            (s.right - width) as i32,
            (s.left + half_toward_zero(s.right - s.left - width)) as i32,
        ]
    }
}

pub open spec fn move_y_candidates(siblings: Seq<Rect>, height: int) -> Seq<i32>
    decreases siblings.len(),
{
    if siblings.len() == 0 {
        seq![]
    } else {
        let s = siblings.last();
        move_y_candidates(siblings.drop_last(), height) + seq![
            s.top,
            s.bottom,
            (s.top - height) as i32,
            (s.bottom - height) as i32,
            (s.top + half_toward_zero(s.bottom - s.top - height)) as i32,
        ]
    }
}

/// Where a resized edge may snap: against each sibling's two edges along that
/// axis, and where the box would take the sibling's size.
pub open spec fn edge_candidates(siblings: Seq<Rect>, horizontal: bool, opposite: int, sign: int) -> Seq<i32>
    decreases siblings.len(),
{
    if siblings.len() == 0 {
        seq![]
    } else {
        let s = siblings.last();
        let (a, b) = if horizontal {
            (s.left, s.right)
        } else {
            (s.top, s.bottom)
        };
        edge_candidates(siblings.drop_last(), horizontal, opposite, sign) + seq![
            a,
            b,
            (opposite + sign * (b - a)) as i32,
        ]
    }
}

/// Whether the candidates a moving box takes from `s` fit in `i32`.
pub open spec fn move_candidates_fit(s: Rect, width: int, height: int) -> bool {
    &&& fits_i32(s.right - s.left)
    &&& fits_i32(s.left - width)
    &&& fits_i32(s.right - width)
    &&& fits_i32(s.right - s.left - width)
    &&& fits_i32(s.left + half_toward_zero(s.right - s.left - width))
    &&& fits_i32(s.bottom - s.top)
    &&& fits_i32(s.top - height)
    &&& fits_i32(s.bottom - height)
    &&& fits_i32(s.bottom - s.top - height)
    &&& fits_i32(s.top + half_toward_zero(s.bottom - s.top - height))
}

/// Whether the candidates a resized edge takes from `s` fit in `i32`.
pub open spec fn edge_candidates_fit(s: Rect, horizontal: bool, opposite: int, sign: int) -> bool {
    let (a, b) = if horizontal {
        (s.left, s.right)
    } else {
        (s.top, s.bottom)
    };
    fits_i32(b - a) && fits_i32(opposite + sign * (b - a))
}

/// The sibling-snapping part of an interaction.
pub open spec fn sibling_snapped_rect(
    mode: InteractionMode,
    rect: Rect,
    siblings: Seq<Rect>,
    min_height: int,
    max_height: int,
) -> Rect {
    if siblings.len() == 0 {
        rect
    } else {
        match mode {
            InteractionMode::Move => {
                let width = rect.right - rect.left;
                let height = rect.bottom - rect.top;
                let left = snapped(rect.left as int, move_x_candidates(siblings, width));
                let top = snapped(rect.top as int, move_y_candidates(siblings, height));
                Rect {
                    left: left as i32,
                    top: top as i32,
                    right: (left + width) as i32,
                    bottom: (top + height) as i32,
                }
            },
            InteractionMode::Resize(edges) => {
                let sl = snapped(rect.left as int, edge_candidates(siblings, true, rect.right as int, -1));
                let l = if edges.left && MIN_FENCE_WIDTH <= rect.right - sl <= MAX_FENCE_WIDTH {
                    sl
                } else {
                    rect.left as int
                };
                let sr = snapped(rect.right as int, edge_candidates(siblings, true, l, 1));
                let r = if edges.right && MIN_FENCE_WIDTH <= sr - l <= MAX_FENCE_WIDTH {
                    sr
                } else {
                    rect.right as int
                };
                let st = snapped(rect.top as int, edge_candidates(siblings, false, rect.bottom as int, -1));
                let t = if edges.top && min_height <= rect.bottom - st <= max_height {
                    st
                } else {
                    rect.top as int
                };
                let sb = snapped(rect.bottom as int, edge_candidates(siblings, false, t, 1));
                let b = if edges.bottom && min_height <= sb - t <= max_height {
                    sb
                } else {
                    rect.bottom as int
                };
                Rect { left: l as i32, top: t as i32, right: r as i32, bottom: b as i32 }
            },
        }
    }
}

/// Whether every value the sibling snapping forms fits in `i32`.
pub open spec fn sibling_snap_fits(
    mode: InteractionMode,
    rect: Rect,
    siblings: Seq<Rect>,
    min_height: int,
    max_height: int,
) -> bool {
    siblings.len() > 0 ==> match mode {
        InteractionMode::Move => {
            let width = rect.right - rect.left;
            let height = rect.bottom - rect.top;
            &&& fits_i32(width)
            &&& fits_i32(height)
            &&& forall|i: int| 0 <= i < siblings.len() ==> move_candidates_fit(#[trigger] siblings[i], width, height)
            &&& fits_i32(snapped(rect.left as int, move_x_candidates(siblings, width)) + width)
            &&& fits_i32(snapped(rect.top as int, move_y_candidates(siblings, height)) + height)
        },
        InteractionMode::Resize(edges) => {
            let sl = snapped(rect.left as int, edge_candidates(siblings, true, rect.right as int, -1));
            let l = if edges.left && MIN_FENCE_WIDTH <= rect.right - sl <= MAX_FENCE_WIDTH {
                sl
            } else {
                rect.left as int
            };
            let sr = snapped(rect.right as int, edge_candidates(siblings, true, l, 1));
            let st = snapped(rect.top as int, edge_candidates(siblings, false, rect.bottom as int, -1));
            let t = if edges.top && min_height <= rect.bottom - st <= max_height {
                st
            } else {
                rect.top as int
            };
            let sb = snapped(rect.bottom as int, edge_candidates(siblings, false, t, 1));
            &&& edges.left ==> fits_i32(rect.right - sl) && forall|i: int|
                0 <= i < siblings.len() ==> edge_candidates_fit(#[trigger] siblings[i], true, rect.right as int, -1)
            &&& edges.right ==> fits_i32(sr - l) && forall|i: int|
                0 <= i < siblings.len() ==> edge_candidates_fit(#[trigger] siblings[i], true, l, 1)
            &&& edges.top ==> fits_i32(rect.bottom - st) && forall|i: int|
                0 <= i < siblings.len() ==> edge_candidates_fit(#[trigger] siblings[i], false, rect.bottom as int, -1)
            &&& edges.bottom ==> fits_i32(sb - t) && forall|i: int|
                0 <= i < siblings.len() ==> edge_candidates_fit(#[trigger] siblings[i], false, t, 1)
        },
    }
}

fn move_candidates(siblings: &Vec<Rect>, width: i32, height: i32, horizontal: bool) -> (c: Vec<i32>)
    requires
        forall|i: int| 0 <= i < siblings@.len() ==> move_candidates_fit(#[trigger] siblings@[i], width as int, height as int),
    ensures
        c@ == (if horizontal {
            move_x_candidates(siblings@, width as int)
        } else {
            move_y_candidates(siblings@, height as int)
        }),
{
    let size = if horizontal {
        width
    } else {
        height
    };
    let mut c: Vec<i32> = Vec::new();
    for i in 0..siblings.len()
        invariant
            forall|i: int| 0 <= i < siblings@.len() ==> move_candidates_fit(#[trigger] siblings@[i], width as int, height as int),
            size == (if horizontal {
                width
            } else {
                height
            }),
            c@ == (if horizontal {
                move_x_candidates(siblings@.take(i as int), width as int)
            } else {
                move_y_candidates(siblings@.take(i as int), height as int)
            }),
    {
        let s = siblings[i];
        assert(move_candidates_fit(siblings@[i as int], width as int, height as int));
        assert(siblings@.take(i + 1).drop_last() =~= siblings@.take(i as int));
        assert(siblings@.take(i + 1).last() == s);
        let (a, b) = if horizontal {
            (s.left, s.right)
        } else {
            (s.top, s.bottom)
        };
        c.push(a);
        c.push(b);
        c.push(a - size);
        c.push(b - size);
        c.push(a + half_i32(b - a - size));
    }
    assert(siblings@.take(siblings.len() as int) =~= siblings@);
    c
}

fn resize_candidates(siblings: &Vec<Rect>, horizontal: bool, opposite: i32, sign: i32) -> (c: Vec<
    i32,
>)
    requires
        sign == 1 || sign == -1,
        forall|i: int|
            0 <= i < siblings@.len() ==> edge_candidates_fit(#[trigger] siblings@[i], horizontal, opposite as int, sign as int),
    ensures
        c@ == edge_candidates(siblings@, horizontal, opposite as int, sign as int),
{
    let mut c: Vec<i32> = Vec::new();
    for i in 0..siblings.len()
        invariant
            sign == 1 || sign == -1,
            forall|i: int|
                0 <= i < siblings@.len() ==> edge_candidates_fit(#[trigger] siblings@[i], horizontal, opposite as int, sign as int),
            c@ == edge_candidates(siblings@.take(i as int), horizontal, opposite as int, sign as int),
    {
        let s = siblings[i];
        assert(edge_candidates_fit(siblings@[i as int], horizontal, opposite as int, sign as int));
        assert(siblings@.take(i + 1).drop_last() =~= siblings@.take(i as int));
        assert(siblings@.take(i + 1).last() == s);
        let (a, b) = if horizontal {
            (s.left, s.right)
        } else {
            (s.top, s.bottom)
        };
        c.push(a);
        c.push(b);
        let extent = b - a;
        if sign == 1 {
            c.push(opposite + extent);
        } else {
            c.push(opposite - extent);
        }
    }
    assert(siblings@.take(siblings.len() as int) =~= siblings@);
    c
}

/// Snaps a moved box's edges, or a resized box's dragged edges, to the edges
/// and sizes of its siblings; a resize snap is kept only when the size stays
/// within the box limits.
pub fn snap_interaction_rect(
    mode: InteractionMode,
    rect: Rect,
    siblings: &Vec<Rect>,
    min_height: i32,
    max_height: i32,
) -> (r: Rect)
    requires
        sibling_snap_fits(mode, rect, siblings@, min_height as int, max_height as int),
    ensures
        r == sibling_snapped_rect(mode, rect, siblings@, min_height as int, max_height as int),
        mode == InteractionMode::Move ==> r.right - r.left == rect.right - rect.left
            && r.bottom - r.top == rect.bottom - rect.top,
{
    if siblings.len() == 0 {
        return rect;
    }
    let mut rect = rect;
    match mode {
        InteractionMode::Move => {
            let width = rect.right - rect.left;
            let height = rect.bottom - rect.top;
            let xs = move_candidates(siblings, width, height, true);
            let ys = move_candidates(siblings, width, height, false);
            proof {
                lemma_snapped_near(rect.left as int, xs@);
                lemma_snapped_near(rect.top as int, ys@);
            }
            rect.left = nearest_snap(rect.left, &xs);
            rect.top = nearest_snap(rect.top, &ys);
            rect.right = rect.left + width;
            rect.bottom = rect.top + height;
        },
        InteractionMode::Resize(edges) => {
            if edges.left {
                let cl = resize_candidates(siblings, true, rect.right, -1);
                proof {
                    lemma_snapped_near(rect.left as int, cl@);
                }
                let snapped_left = nearest_snap(rect.left, &cl);
                if MIN_FENCE_WIDTH <= rect.right - snapped_left && rect.right - snapped_left <= MAX_FENCE_WIDTH {
                    rect.left = snapped_left;
                }
            }
            if edges.right {
                let cr = resize_candidates(siblings, true, rect.left, 1);
                proof {
                    lemma_snapped_near(rect.right as int, cr@);
                }
                let snapped_right = nearest_snap(rect.right, &cr);
                if MIN_FENCE_WIDTH <= snapped_right - rect.left && snapped_right - rect.left <= MAX_FENCE_WIDTH {
                    rect.right = snapped_right;
                }
            }
            if edges.top {
                let ct = resize_candidates(siblings, false, rect.bottom, -1);
                proof {
                    lemma_snapped_near(rect.top as int, ct@);
                }
                let snapped_top = nearest_snap(rect.top, &ct);
                if min_height <= rect.bottom - snapped_top && rect.bottom - snapped_top <= max_height {
                    rect.top = snapped_top;
                }
            }
            if edges.bottom {
                let cb = resize_candidates(siblings, false, rect.top, 1);
                proof {
                    lemma_snapped_near(rect.bottom as int, cb@);
                }
                let snapped_bottom = nearest_snap(rect.bottom, &cb);
                if min_height <= snapped_bottom - rect.top && snapped_bottom - rect.top <= max_height {
                    rect.bottom = snapped_bottom;
                }
            }
        },
    }
    rect
}

} // verus!

verus! {

pub open spec fn overlaps_any(rect: Rect, siblings: Seq<Rect>) -> bool {
    exists|i: int| 0 <= i < siblings.len() && intersects(rect, #[trigger] siblings[i])
}

/// The index of the first sibling that `rect` overlaps.
pub open spec fn first_overlap(rect: Rect, siblings: Seq<Rect>) -> int
    decreases siblings.len(),
{
    if siblings.len() == 0 {
        0
    } else if intersects(rect, siblings[0]) {
        0
    } else {
        1 + first_overlap(rect, siblings.drop_first())
    }
}

pub open spec fn abs(v: int) -> int {
    if v >= 0 {
        v
    } else {
        -v
    }
}

/// The shift that moves a dragged box back out of `sibling`, along the axes
/// it was moving on; the smaller one when both apply.
pub open spec fn move_correction(rect: Rect, sibling: Rect, dx: int, dy: int) -> Option<(int, int)> {
    let cx: Option<(int, int)> = if dx > 0 {
        Some((sat(sibling.left - rect.right), 0))
    } else if dx < 0 {
        Some((sat(sibling.right - rect.left), 0))
    } else {
        None
    };
    let cy: Option<(int, int)> = if dy > 0 {
        Some((0, sat(sibling.top - rect.bottom)))
    } else if dy < 0 {
        Some((0, sat(sibling.bottom - rect.top)))
    } else {
        None
    };
    match (cx, cy) {
        (None, None) => None,
        (Some(a), None) => Some(a),
        (None, Some(b)) => Some(b),
        (Some(a), Some(b)) => if abs(b.0) + abs(b.1) < abs(a.0) + abs(a.1) {
            Some(b)
        } else {
            Some(a)
        },
    }
}

pub open spec fn shifted(rect: Rect, sx: int, sy: int) -> Rect {
    Rect {
        left: sat(rect.left + sx) as i32,
        right: sat(rect.right + sx) as i32,
        top: sat(rect.top + sy) as i32,
        bottom: sat(rect.bottom + sy) as i32,
    }
}

/// The rectangles a resize may fall back to: each dragged edge pulled back
/// to the facing edge of `sibling`.
pub open spec fn edge_retreats(rect: Rect, sibling: Rect, edges: ResizeEdges) -> Seq<Rect> {
    (if edges.left {
        seq![Rect { left: sibling.right, ..rect }]
    } else {
        seq![]
    }) + (if edges.right {
        seq![Rect { right: sibling.left, ..rect }]
    } else {
        seq![]
    }) + (if edges.top {
        seq![Rect { top: sibling.bottom, ..rect }]
    } else {
        seq![]
    }) + (if edges.bottom {
        seq![Rect { bottom: sibling.top, ..rect }]
    } else {
        seq![]
    })
}

pub open spec fn retreat_allowed(c: Rect, sibling: Rect, min_height: int, max_height: int) -> bool {
    &&& MIN_FENCE_WIDTH <= c.right - c.left <= MAX_FENCE_WIDTH
    &&& min_height <= c.bottom - c.top <= max_height
    &&& !intersects(c, sibling)
}

pub open spec fn retreat_distance(c: Rect, rect: Rect) -> int {
    abs(c.left - rect.left) + abs(c.top - rect.top) + abs(c.right - rect.right) + abs(
        c.bottom - rect.bottom,
    )
}

/// The allowed retreat that changes the rectangle least (the earliest on a tie).
pub open spec fn best_retreat(
    candidates: Seq<Rect>,
    rect: Rect,
    sibling: Rect,
    min_height: int,
    max_height: int,
) -> Option<Rect>
    decreases candidates.len(),
{
    if candidates.len() == 0 {
        None
    } else {
        let previous = best_retreat(candidates.drop_last(), rect, sibling, min_height, max_height);
        let c = candidates.last();
        if !retreat_allowed(c, sibling, min_height, max_height) {
            previous
        } else {
            match previous {
                None => Some(c),
                Some(p) => if retreat_distance(c, rect) < retreat_distance(p, rect) {
                    Some(c)
                } else {
                    previous
                },
            }
        }
    }
}

/// One correction pass; `None` means the interaction falls back to its start.
pub open spec fn overlap_pass(
    mode: InteractionMode,
    rect: Rect,
    sibling: Rect,
    dx: int,
    dy: int,
    min_height: int,
    max_height: int,
) -> Option<Rect> {
    match mode {
        InteractionMode::Move => match move_correction(rect, sibling, dx, dy) {
            None => None,
            Some((sx, sy)) => Some(shifted(rect, sx, sy)),
        },
        InteractionMode::Resize(edges) => best_retreat(
            edge_retreats(rect, sibling, edges),
            rect,
            sibling,
            min_height,
            max_height,
        ),
    }
}

pub open spec fn overlap_passes(
    mode: InteractionMode,
    start: Rect,
    rect: Rect,
    siblings: Seq<Rect>,
    dx: int,
    dy: int,
    min_height: int,
    max_height: int,
    passes: nat,
) -> Rect
    decreases passes,
{
    if !overlaps_any(rect, siblings) {
        rect
    } else if passes == 0 {
        start
    } else {
        match overlap_pass(
            mode,
            rect,
            siblings[first_overlap(rect, siblings)],
            dx,
            dy,
            min_height,
            max_height,
        ) {
            None => start,
            Some(next) => overlap_passes(
                mode,
                start,
                next,
                siblings,
                dx,
                dy,
                min_height,
                max_height,
                (passes - 1) as nat,
            ),
        }
    }
}

pub open spec fn pass_limit(count: nat) -> nat {
    let four = if count * 4 > usize::MAX {
        usize::MAX as nat
    } else {
        count * 4
    };
    if four == 0 {
        1
    } else {
        four
    }
}

/// The rectangle after sibling-overlap prevention.
pub open spec fn non_overlapping_rect(
    mode: InteractionMode,
    start: Rect,
    rect: Rect,
    siblings: Seq<Rect>,
    min_height: int,
    max_height: int,
) -> Rect {
    overlap_passes(
        mode,
        start,
        rect,
        siblings,
        sat(rect.left - start.left),
        sat(rect.top - start.top),
        min_height,
        max_height,
        pass_limit(siblings.len()),
    )
}

proof fn lemma_first_overlap(rect: Rect, siblings: Seq<Rect>)
    requires
        overlaps_any(rect, siblings),
    ensures
        0 <= first_overlap(rect, siblings) < siblings.len(),
        intersects(rect, siblings[first_overlap(rect, siblings)]),
        forall|j: int| 0 <= j < first_overlap(rect, siblings) ==> !intersects(rect, siblings[j]),
    decreases siblings.len(),
{
    if !intersects(rect, siblings[0]) {
        let i = choose|i: int| 0 <= i < siblings.len() && intersects(rect, #[trigger] siblings[i]);
        assert(siblings.drop_first()[i - 1] == siblings[i]);
        lemma_first_overlap(rect, siblings.drop_first());
        assert forall|j: int| 0 <= j < first_overlap(rect, siblings) implies !intersects(
            rect,
            siblings[j],
        ) by {
            if j > 0 {
                assert(siblings.drop_first()[j - 1] == siblings[j]);
            }
        }
    }
}

/// Either the interaction falls back to its start, or the result overlaps no sibling.
pub proof fn law_overlap_passes_resolve(
    mode: InteractionMode,
    start: Rect,
    rect: Rect,
    siblings: Seq<Rect>,
    dx: int,
    dy: int,
    min_height: int,
    max_height: int,
    passes: nat,
)
    ensures
        ({
            let r = overlap_passes(mode, start, rect, siblings, dx, dy, min_height, max_height, passes);
            r == start || !overlaps_any(r, siblings)
        }),
    decreases passes,
{
    if overlaps_any(rect, siblings) && passes > 0 {
        lemma_first_overlap(rect, siblings);
        match overlap_pass(
            mode,
            rect,
            siblings[first_overlap(rect, siblings)],
            dx,
            dy,
            min_height,
            max_height,
        ) {
            None => {},
            Some(next) => law_overlap_passes_resolve(
                mode,
                start,
                next,
                siblings,
                dx,
                dy,
                min_height,
                max_height,
                (passes - 1) as nat,
            ),
        }
    }
}

fn find_overlap(rect: &Rect, siblings: &Vec<Rect>) -> (r: Option<usize>)
    ensures
        match r {
            None => !overlaps_any(*rect, siblings@),
            Some(i) => overlaps_any(*rect, siblings@) && i == first_overlap(*rect, siblings@),
        },
{
    for i in 0..siblings.len()
        invariant
            forall|j: int| 0 <= j < i ==> !intersects(*rect, #[trigger] siblings@[j]),
    {
        if rects_intersect(rect, &siblings[i]) {
            proof {
                lemma_first_overlap(*rect, siblings@);
            }
            return Some(i);
        }
    }
    None
}

fn abs_i64(v: i64) -> (r: i64)
    requires
        v > i64::MIN,
    ensures
        r == abs(v as int),
{
    if v >= 0 {
        v
    } else {
        -v
    }
}

fn move_pass(rect: Rect, sibling: Rect, dx: i32, dy: i32) -> (r: Option<Rect>)
    ensures
        r == (match move_correction(rect, sibling, dx as int, dy as int) {
            None => None,
            Some((sx, sy)) => Some(shifted(rect, sx, sy)),
        }),
{
    let cx: Option<(i32, i32)> = if dx > 0 {
        Some((sat_sub(sibling.left, rect.right), 0))
    } else if dx < 0 {
        Some((sat_sub(sibling.right, rect.left), 0))
    } else {
        None
    };
    let cy: Option<(i32, i32)> = if dy > 0 {
        Some((0, sat_sub(sibling.top, rect.bottom)))
    } else if dy < 0 {
        Some((0, sat_sub(sibling.bottom, rect.top)))
    } else {
        None
    };
    let chosen: Option<(i32, i32)> = match (cx, cy) {
        (None, None) => None,
        (Some(a), None) => Some(a),
        (None, Some(b)) => Some(b),
        (Some(a), Some(b)) => {
            let ka = abs_i64(a.0 as i64) + abs_i64(a.1 as i64);
            let kb = abs_i64(b.0 as i64) + abs_i64(b.1 as i64);
            if kb < ka {
                Some(b)
            } else {
                Some(a)
            }
        },
    };
    match chosen {
        None => None,
        Some((sx, sy)) => Some(
            Rect {
                left: sat_add(rect.left, sx),
                right: sat_add(rect.right, sx),
                top: sat_add(rect.top, sy),
                bottom: sat_add(rect.bottom, sy),
            },
        ),
    }
}

fn retreat_key(c: &Rect, rect: &Rect) -> (k: i64)
    ensures
        k == retreat_distance(*c, *rect),
{
    abs_i64(c.left as i64 - rect.left as i64) + abs_i64(c.top as i64 - rect.top as i64) + abs_i64(
        c.right as i64 - rect.right as i64,
    ) + abs_i64(c.bottom as i64 - rect.bottom as i64)
}

fn resize_pass(
    rect: Rect,
    sibling: Rect,
    edges: ResizeEdges,
    min_height: i32,
    max_height: i32,
) -> (r: Option<Rect>)
    ensures
        r == best_retreat(
            edge_retreats(rect, sibling, edges),
            rect,
            sibling,
            min_height as int,
            max_height as int,
        ),
{
    let mut candidates: Vec<Rect> = Vec::new();
    if edges.left {
        candidates.push(Rect { left: sibling.right, ..rect });
    }
    if edges.right {
        candidates.push(Rect { right: sibling.left, ..rect });
    }
    if edges.top {
        candidates.push(Rect { top: sibling.bottom, ..rect });
    }
    if edges.bottom {
        candidates.push(Rect { bottom: sibling.top, ..rect });
    }
    let ghost cs = edge_retreats(rect, sibling, edges);
    assert(candidates@ =~= cs);
    let mut best: Option<Rect> = None;
    let mut best_key: i64 = 0;
    for i in 0..candidates.len()
        invariant
            candidates@ == cs,
            best == best_retreat(cs.take(i as int), rect, sibling, min_height as int, max_height as int),
            best matches Some(b) ==> best_key == retreat_distance(b, rect),
    {
        let c = candidates[i];
        assert(cs.take(i + 1).drop_last() =~= cs.take(i as int));
        assert(cs.take(i + 1).last() == c);
        let width = c.right as i64 - c.left as i64;
        let height = c.bottom as i64 - c.top as i64;
        if MIN_FENCE_WIDTH as i64 <= width && width <= MAX_FENCE_WIDTH as i64 && min_height as i64
            <= height && height <= max_height as i64 && !rects_intersect(&c, &sibling) {
            let key = retreat_key(&c, &rect);
            match best {
                None => {
                    best = Some(c);
                    best_key = key;
                },
                Some(_) => {
                    if key < best_key {
                        best = Some(c);
                        best_key = key;
                    }
                },
            }
        }
    }
    assert(cs.take(candidates.len() as int) =~= cs);
    best
}

/// Keeps a moved or resized box from overlapping its siblings: a move is
/// pushed back along its direction of travel, a resize pulls a dragged edge
/// back to the sibling; when that cannot resolve the overlap the interaction
/// falls back to its starting rectangle.
pub fn prevent_sibling_overlap(
    mode: InteractionMode,
    start: Rect,
    rect: Rect,
    siblings: &Vec<Rect>,
    min_height: i32,
    max_height: i32,
) -> (r: Rect)
    ensures
        r == non_overlapping_rect(mode, start, rect, siblings@, min_height as int, max_height as int),
        r == start || !overlaps_any(r, siblings@),
        !overlaps_any(rect, siblings@) ==> r == rect,
{
    let dx = sat_sub(rect.left, start.left);
    let dy = sat_sub(rect.top, start.top);
    let passes: usize = if siblings.len() <= usize::MAX / 4 {
        if siblings.len() == 0 {
            1
        } else {
            siblings.len() * 4
        }
    } else {
        usize::MAX
    };
    assert(passes == pass_limit(siblings@.len()));
    let ghost goal = non_overlapping_rect(
        mode,
        start,
        rect,
        siblings@,
        min_height as int,
        max_height as int,
    );
    proof {
        law_overlap_passes_resolve(
            mode,
            start,
            rect,
            siblings@,
            dx as int,
            dy as int,
            min_height as int,
            max_height as int,
            passes as nat,
        );
    }
    let mut current = rect;
    let mut remaining: usize = passes;
    loop
        invariant
            remaining <= passes,
            goal == non_overlapping_rect(
                mode,
                start,
                rect,
                siblings@,
                min_height as int,
                max_height as int,
            ),
            goal == start || !overlaps_any(goal, siblings@),
            !overlaps_any(rect, siblings@) ==> goal == rect,
            goal == overlap_passes(
                mode,
                start,
                current,
                siblings@,
                dx as int,
                dy as int,
                min_height as int,
                max_height as int,
                remaining as nat,
            ),
        decreases remaining,
    {
        let found = find_overlap(&current, siblings);
        let index = match found {
            None => {
                return current;
            },
            Some(i) => i,
        };
        if remaining == 0 {
            return start;
        }
        proof {
            lemma_first_overlap(current, siblings@);
        }
        let sibling = siblings[index];
        let next = match mode {
            InteractionMode::Move => move_pass(current, sibling, dx, dy),
            InteractionMode::Resize(edges) => resize_pass(current, sibling, edges, min_height, max_height),
        };
        match next {
            None => {
                return start;
            },
            Some(n) => {
                current = n;
            },
        }
        remaining = remaining - 1;
    }
}

} // verus!
