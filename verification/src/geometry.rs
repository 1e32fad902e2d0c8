//! Integer rectangles and points in physical pixels, and the small
//! operations on them that layout, hit testing and snapping share.

use vstd::prelude::*;

verus! {

/// A rectangle; `right` and `bottom` are exclusive.
#[derive(Clone, Copy, Debug, PartialEq, Eq, Structural)]
pub struct Rect {
    pub left: i32,
    pub top: i32,
    pub right: i32,
    pub bottom: i32,
}

#[derive(Clone, Copy, Debug, PartialEq, Eq, Structural)]
pub struct Point {
    pub x: i32,
    pub y: i32,
}

pub open spec fn clamp(v: int, lo: int, hi: int) -> int {
    if v < lo {
        lo
    } else if v > hi {
        hi
    } else {
        v
    }
}

/// The value saturated to the range of `i32`.
pub open spec fn sat(v: int) -> int {
    clamp(v, i32::MIN as int, i32::MAX as int)
}

pub open spec fn min(a: int, b: int) -> int {
    if a <= b {
        a
    } else {
        b
    }
}

pub open spec fn max(a: int, b: int) -> int {
    if a >= b {
        a
    } else {
        b
    }
}

/// Rust's integer division (rounding toward zero), for a positive divisor.
pub open spec fn div_toward_zero(a: int, b: int) -> int {
    if a >= 0 {
        a / b
    } else {
        -((-a) / b)
    }
}

pub open spec fn fits_i32(v: int) -> bool {
    i32::MIN <= v <= i32::MAX
}

pub fn min_i32(a: i32, b: i32) -> (r: i32)
    ensures
        r == min(a as int, b as int),
{
    if a <= b {
        a
    } else {
        b
    }
}

pub fn max_i32(a: i32, b: i32) -> (r: i32)
    ensures
        r == max(a as int, b as int),
{
    if a >= b {
        a
    } else {
        b
    }
}

/// `i32::clamp`; it panics when `lo > hi`, which the precondition excludes.
pub fn clamp_i32(v: i32, lo: i32, hi: i32) -> (r: i32)
    requires
        lo <= hi,
    ensures
        r == clamp(v as int, lo as int, hi as int),
{
    if v < lo {
        lo
    } else if v > hi {
        hi
    } else {
        v
    }
}

/// `i32::saturating_add`.
pub fn sat_add(a: i32, b: i32) -> (r: i32)
    ensures
        r == sat(a + b),
{
    let s = a as i64 + b as i64;
    if s < i32::MIN as i64 {
        i32::MIN
    } else if s > i32::MAX as i64 {
        i32::MAX
    } else {
        s as i32
    }
}

/// `i32::saturating_sub`.
pub fn sat_sub(a: i32, b: i32) -> (r: i32)
    ensures
        r == sat(a - b),
{
    let s = a as i64 - b as i64;
    if s < i32::MIN as i64 {
        i32::MIN
    } else if s > i32::MAX as i64 {
        i32::MAX
    } else {
        s as i32
    }
}

/// `i32::abs_diff`, as a wide integer.
pub fn abs_diff(a: i32, b: i32) -> (r: u64)
    ensures
        r == (if a >= b { a - b } else { b - a }),
{
    if a >= b {
        (a as i64 - b as i64) as u64
    } else {
        (b as i64 - a as i64) as u64
    }
}

pub open spec fn intersects(a: Rect, b: Rect) -> bool {
    a.left < b.right && a.right > b.left && a.top < b.bottom && a.bottom > b.top
}

/// Whether two rectangles share at least one pixel.
pub fn rects_intersect(a: &Rect, b: &Rect) -> (r: bool)
    ensures
        r == intersects(*a, *b),
{
    a.left < b.right && a.right > b.left && a.top < b.bottom && a.bottom > b.top
}

pub open spec fn contains_point(r: Rect, p: Point) -> bool {
    p.x >= r.left && p.x < r.right && p.y >= r.top && p.y < r.bottom
}

pub fn point_in_rect(point: Point, rect: &Rect) -> (r: bool)
    ensures
        r == contains_point(*rect, point),
{
    point.x >= rect.left && point.x < rect.right && point.y >= rect.top && point.y < rect.bottom
}

/// The rectangle a marquee drag spans, inclusive of both corner pixels.
pub fn selection_rectangle(start: Point, current: Point) -> (r: Rect)
    ensures
        r.left == min(start.x as int, current.x as int),
        r.top == min(start.y as int, current.y as int),
        r.right == sat(max(start.x as int, current.x as int) + 1),
        r.bottom == sat(max(start.y as int, current.y as int) + 1),
{
    Rect {
        left: min_i32(start.x, current.x),
        top: min_i32(start.y, current.y),
        right: sat_add(max_i32(start.x, current.x), 1),
        bottom: sat_add(max_i32(start.y, current.y), 1),
    }
}

/// The rectangle moved by a delta (each coordinate saturating).
pub fn translate_rect(rect: Rect, delta_x: i32, delta_y: i32) -> (r: Rect)
    ensures
        r.left == sat(rect.left + delta_x),
        r.top == sat(rect.top + delta_y),
        r.right == sat(rect.right + delta_x),
        r.bottom == sat(rect.bottom + delta_y),
{
    Rect {
        left: sat_add(rect.left, delta_x),
        top: sat_add(rect.top, delta_y),
        right: sat_add(rect.right, delta_x),
        bottom: sat_add(rect.bottom, delta_y),
    }
}

/// Whether `r` lies within `bounds`.
pub open spec fn inside(r: Rect, bounds: Rect) -> bool {
    bounds.left <= r.left && r.right <= bounds.right && bounds.top <= r.top && r.bottom
        <= bounds.bottom
}

/// The smallest rectangle holding all of `rects` (`None` for none).
pub fn rect_bounds(rects: &Vec<Rect>) -> (r: Option<Rect>)
    ensures
        rects@.len() == 0 <==> r is None,
        r matches Some(b) ==> {
            &&& forall|i: int| 0 <= i < rects@.len() ==> #[trigger] inside(rects@[i], b)
            &&& exists|i: int| 0 <= i < rects@.len() && rects@[i].left == b.left
            &&& exists|i: int| 0 <= i < rects@.len() && rects@[i].top == b.top
            &&& exists|i: int| 0 <= i < rects@.len() && rects@[i].right == b.right
            &&& exists|i: int| 0 <= i < rects@.len() && rects@[i].bottom == b.bottom
        },
{
    if rects.len() == 0 {
        return None;
    }
    let mut b = rects[0];
    let mut il: usize = 0;
    let mut it: usize = 0;
    let mut ir: usize = 0;
    let mut ib: usize = 0;
    for i in 1..rects.len()
        invariant
            1 <= rects.len(),
            forall|j: int| 0 <= j < i ==> #[trigger] inside(rects@[j], b),
            il < i && rects@[il as int].left == b.left,
            it < i && rects@[it as int].top == b.top,
            ir < i && rects@[ir as int].right == b.right,
            ib < i && rects@[ib as int].bottom == b.bottom,
    {
        let r = rects[i];
        let ghost old_b = b;
        if r.left < b.left {
            b.left = r.left;
            il = i;
        }
        if r.top < b.top {
            b.top = r.top;
            it = i;
        }
        if r.right > b.right {
            b.right = r.right;
            ir = i;
        }
        if r.bottom > b.bottom {
            b.bottom = r.bottom;
            ib = i;
        }
        assert forall|j: int| 0 <= j < i + 1 implies #[trigger] inside(rects@[j], b) by {
            if j < i {
                assert(inside(rects@[j], old_b));
            }
        }
    }
    Some(b)
}

/// The area two rectangles share (zero when they do not overlap).
pub fn rect_intersection_area(a: &Rect, b: &Rect) -> (area: i64)
    requires
        fits_i32(min(a.right as int, b.right as int) - max(a.left as int, b.left as int)),
        fits_i32(min(a.bottom as int, b.bottom as int) - max(a.top as int, b.top as int)),
    ensures
        area == max(min(a.right as int, b.right as int) - max(a.left as int, b.left as int), 0)
            * max(min(a.bottom as int, b.bottom as int) - max(a.top as int, b.top as int), 0),
{
    let width = max_i32(min_i32(a.right, b.right) - max_i32(a.left, b.left), 0) as i64;
    let height = max_i32(min_i32(a.bottom, b.bottom) - max_i32(a.top, b.top), 0) as i64;
    assert(0 <= width * height <= 0x7fff_ffff * 0x7fff_ffff) by (nonlinear_arith)
        requires
            0 <= width <= 0x7fff_ffff,
            0 <= height <= 0x7fff_ffff,
    ;
    width * height
}

/// The candidate closest to `value` among those within `SNAP_DISTANCE`, the
/// earliest one on a tie.
pub open spec fn snap_best(value: int, candidates: Seq<i32>) -> Option<(int, i32)>
    decreases candidates.len(),
{
    if candidates.len() == 0 {
        None
    } else {
        let previous = snap_best(value, candidates.drop_last());
        let c = candidates.last();
        let d = if c >= value {
            c - value
        } else {
            value - c
        };
        if d > SNAP_DISTANCE {
            previous
        } else {
            match previous {
                None => Some((d, c)),
                Some((pd, pc)) => if d < pd {
                    Some((d, c))
                } else {
                    previous
                },
            }
        }
    }
}

pub open spec fn snapped(value: int, candidates: Seq<i32>) -> int {
    match snap_best(value, candidates) {
        Some((_, c)) => c as int,
        None => value,
    }
}

/// How close (in pixels) an edge must come to another to snap to it.
pub const SNAP_DISTANCE: i32 = 12;

proof fn lemma_snap_best_is_candidate(value: int, candidates: Seq<i32>)
    ensures
        snap_best(value, candidates) matches Some((d, c)) ==> {
            &&& candidates.contains(c)
            &&& d == (if c >= value { c - value } else { value - c })
            &&& d <= SNAP_DISTANCE
        },
    decreases candidates.len(),
{
    if candidates.len() > 0 {
        lemma_snap_best_is_candidate(value, candidates.drop_last());
        if let Some((d, c)) = snap_best(value, candidates) {
            if snap_best(value, candidates.drop_last()) == snap_best(value, candidates) {
                let j = choose|j: int|
                    0 <= j < candidates.drop_last().len() && candidates.drop_last()[j] == c;
                assert(candidates[j] == c);
            } else {
                assert(candidates[candidates.len() - 1] == c);
            }
        }
    }
}

pub open spec fn widen(best: Option<(u64, i32)>) -> Option<(int, i32)> {
    match best {
        Some((d, c)) => Some((d as int, c)),
        None => None,
    }
}

/// A snapped value is the value itself or a candidate within `SNAP_DISTANCE`.
pub proof fn lemma_snapped_is_near(value: int, candidates: Seq<i32>)
    ensures
        snapped(value, candidates) == value || (candidates.contains(snapped(value, candidates) as i32)
            && -12 <= snapped(value, candidates) - value <= 12),
{
    lemma_snap_best_is_candidate(value, candidates);
}

/// Snaps `value` to the nearest candidate within `SNAP_DISTANCE` (the earliest
/// on a tie); `value` itself when none is that close.
pub fn nearest_snap(value: i32, candidates: &Vec<i32>) -> (r: i32)
    ensures
        r == snapped(value as int, candidates@),
        r == value || (candidates@.contains(r) && (if r >= value {
            r - value
        } else {
            value - r
        }) <= SNAP_DISTANCE),
{
    let mut best: Option<(u64, i32)> = None;
    for i in 0..candidates.len()
        invariant
            widen(best) == snap_best(value as int, candidates@.take(i as int)),
    {
        let c = candidates[i];
        assert(candidates@.take(i + 1).drop_last() =~= candidates@.take(i as int));
        assert(candidates@.take(i + 1).last() == c);
        let d = abs_diff(c, value);
        if d <= SNAP_DISTANCE as u64 {
            match best {
                None => {
                    best = Some((d, c));
                },
                Some((bd, _)) => {
                    if d < bd {
                        best = Some((d, c));
                    }
                },
            }
        }
    }
    assert(candidates@.take(candidates.len() as int) =~= candidates@);
    proof {
        lemma_snap_best_is_candidate(value as int, candidates@);
    }
    match best {
        Some((_, c)) => c,
        None => value,
    }
}

} // verus!
