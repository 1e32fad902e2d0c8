//! Moving a group of fences, as one block, off the fences that already
//! occupy a monitor: the group is tried at the positions that line it up
//! with the work area's edges or with an occupied fence, and goes to the
//! nearest one where it fits without overlapping anything.

use vstd::prelude::*;
use crate::geometry::{inside, intersects, min, rect_bounds, rects_intersect, sat, sat_sub, translate_rect, Rect};
use crate::interaction::{abs, rect_bounded};

verus! {

/// `b` is the smallest rectangle that holds every rectangle of `rects`.
pub open spec fn is_bounds(rects: Seq<Rect>, b: Rect) -> bool {
    &&& forall|i: int| 0 <= i < rects.len() ==> #[trigger] inside(rects[i], b)
    &&& exists|i: int| 0 <= i < rects.len() && rects[i].left == b.left
    &&& exists|i: int| 0 <= i < rects.len() && rects[i].top == b.top
    &&& exists|i: int| 0 <= i < rects.len() && rects[i].right == b.right
    &&& exists|i: int| 0 <= i < rects.len() && rects[i].bottom == b.bottom
}

/// The bounding rectangle of a non-empty group.
pub open spec fn group_bounds(rects: Seq<Rect>) -> Rect {
    choose|b: Rect| is_bounds(rects, b)
}

pub proof fn lemma_bounds_unique(rects: Seq<Rect>, b1: Rect, b2: Rect)
    requires
        is_bounds(rects, b1),
        is_bounds(rects, b2),
    ensures
        b1 == b2,
{
    let i = choose|i: int| 0 <= i < rects.len() && rects[i].left == b1.left;
    let j = choose|i: int| 0 <= i < rects.len() && rects[i].left == b2.left;
    assert(inside(rects[i], b2) && inside(rects[j], b1));
    let i = choose|i: int| 0 <= i < rects.len() && rects[i].top == b1.top;
    let j = choose|i: int| 0 <= i < rects.len() && rects[i].top == b2.top;
    assert(inside(rects[i], b2) && inside(rects[j], b1));
    let i = choose|i: int| 0 <= i < rects.len() && rects[i].right == b1.right;
    let j = choose|i: int| 0 <= i < rects.len() && rects[i].right == b2.right;
    assert(inside(rects[i], b2) && inside(rects[j], b1));
    let i = choose|i: int| 0 <= i < rects.len() && rects[i].bottom == b1.bottom;
    let j = choose|i: int| 0 <= i < rects.len() && rects[i].bottom == b2.bottom;
    assert(inside(rects[i], b2) && inside(rects[j], b1));
}

/// Whether some rectangle of the group overlaps some occupied rectangle.
pub open spec fn group_hits(rects: Seq<Rect>, occupied: Seq<Rect>) -> bool {
    exists|i: int, j: int|
        0 <= i < rects.len() && 0 <= j < occupied.len() && #[trigger] intersects(
            rects[i],
            occupied[j],
        )
}

fn group_intersects(rects: &Vec<Rect>, occupied: &Vec<Rect>) -> (r: bool)
    ensures
        r == group_hits(rects@, occupied@),
{
    for i in 0..rects.len()
        invariant
            forall|a: int, j: int|
                0 <= a < i && 0 <= j < occupied@.len() ==> !#[trigger] intersects(
                    rects@[a],
                    occupied@[j],
                ),
    {
        for j in 0..occupied.len()
            invariant
                i < rects@.len(),
                forall|a: int, k: int|
                    0 <= a < i && 0 <= k < occupied@.len() ==> !#[trigger] intersects(
                        rects@[a],
                        occupied@[k],
                    ),
                forall|k: int| 0 <= k < j ==> !#[trigger] intersects(rects@[i as int], occupied@[k]),
        {
            if rects_intersect(&rects[i], &occupied[j]) {
                return true;
            }
        }
    }
    false
}

/// The rectangle moved by a delta, each coordinate saturating.
pub open spec fn moved(r: Rect, dx: int, dy: int) -> Rect {
    Rect {
        left: sat(r.left + dx) as i32,
        top: sat(r.top + dy) as i32,
        right: sat(r.right + dx) as i32,
        bottom: sat(r.bottom + dy) as i32,
    }
}

pub open spec fn moved_group(rects: Seq<Rect>, dx: int, dy: int) -> Seq<Rect> {
    Seq::new(rects.len(), |i: int| moved(rects[i], dx, dy))
}

fn move_all(rects: &Vec<Rect>, dx: i32, dy: i32) -> (r: Vec<Rect>)
    ensures
        r@ == moved_group(rects@, dx as int, dy as int),
{
    let mut out: Vec<Rect> = Vec::new();
    for i in 0..rects.len()
        invariant
            out@ == moved_group(rects@.take(i as int), dx as int, dy as int),
    {
        out.push(translate_rect(rects[i], dx, dy));
        assert(moved_group(rects@.take(i + 1), dx as int, dy as int) =~= moved_group(
            rects@.take(i as int),
            dx as int,
            dy as int,
        ).push(moved(rects@[i as int], dx as int, dy as int)));
    }
    assert(rects@.take(rects@.len() as int) =~= rects@);
    out
}

/// Whether the group lies in the work area and clear of every occupied rectangle.
pub open spec fn fits(rects: Seq<Rect>, occupied: Seq<Rect>, work: Rect) -> bool {
    &&& forall|i: int| 0 <= i < rects.len() ==> #[trigger] inside(rects[i], work)
    &&& !group_hits(rects, occupied)
}

fn group_fits(rects: &Vec<Rect>, occupied: &Vec<Rect>, work: &Rect) -> (r: bool)
    ensures
        r == fits(rects@, occupied@, *work),
{
    for i in 0..rects.len()
        invariant
            forall|a: int| 0 <= a < i ==> #[trigger] inside(rects@[a], *work),
    {
        let r = &rects[i];
        if !(work.left <= r.left && r.right <= work.right && work.top <= r.top && r.bottom
            <= work.bottom) {
            assert(!inside(rects@[i as int], *work));
            return false;
        }
    }
    !group_intersects(rects, occupied)
}

/// A left edge the group is tried at: where it is now, flush with either side
/// of the work area, or just beside an occupied rectangle.
pub open spec fn column_candidate(x: int, b: Rect, occupied: Seq<Rect>, work: Rect) -> bool {
    let width = b.right - b.left;
    ||| x == b.left
    ||| x == work.left
    ||| x == work.right - width
    ||| exists|j: int|
        0 <= j < occupied.len() && (x == occupied[j].left - width || x == occupied[j].right)
}

/// A top edge the group is tried at, as `column_candidate` on the other axis.
pub open spec fn row_candidate(y: int, b: Rect, occupied: Seq<Rect>, work: Rect) -> bool {
    let height = b.bottom - b.top;
    ||| y == b.top
    ||| y == work.top
    ||| y == work.bottom - height
    ||| exists|j: int|
        0 <= j < occupied.len() && (y == occupied[j].top - height || y == occupied[j].bottom)
}

pub open spec fn all_bounded(rects: Seq<Rect>) -> bool {
    forall|i: int| 0 <= i < rects.len() ==> #[trigger] rect_bounded(rects[i])
}

fn column_candidates(b: Rect, occupied: &Vec<Rect>, work: &Rect) -> (v: Vec<i32>)
    requires
        rect_bounded(b),
        rect_bounded(*work),
        all_bounded(occupied@),
    ensures
        forall|k: int| 0 <= k < v@.len() ==> column_candidate(#[trigger] v@[k] as int, b, occupied@, *work),
        forall|x: int| column_candidate(x, b, occupied@, *work) ==> exists|k: int| 0 <= k < v@.len() && #[trigger] v@[k] == x,
{
    let width = b.right - b.left;
    let flush_right = work.right - width;
    let mut v: Vec<i32> = vec![b.left, work.left, flush_right];
    for j in 0..occupied.len()
        invariant
            width == b.right - b.left,
            rect_bounded(b),
            all_bounded(occupied@),
            forall|k: int| 0 <= k < v@.len() ==> column_candidate(#[trigger] v@[k] as int, b, occupied@, *work),
            v@.len() == 3 + 2 * j,
            v@[0] == b.left,
            v@[1] == work.left,
            v@[2] == work.right - width,
            forall|a: int| 0 <= a < j ==> #[trigger] v@[3 + 2 * a] == occupied@[a].left - width && v@[4 + 2 * a] == occupied@[a].right,
    {
        let other = occupied[j];
        assert(rect_bounded(occupied@[j as int]));
        let ghost before = v@;
        v.push(other.left - width);
        v.push(other.right);
        assert forall|a: int| 0 <= a < j + 1 implies #[trigger] v@[3 + 2 * a] == occupied@[a].left - width && v@[4 + 2 * a] == occupied@[a].right by {
            if a < j {
                assert(v@[3 + 2 * a] == before[3 + 2 * a]);
                assert(before[3 + 2 * a] == occupied@[a].left - width);
                assert(v@[4 + 2 * a] == before[4 + 2 * a]);
            }
        }
    }
    assert forall|x: int| column_candidate(x, b, occupied@, *work) implies exists|k: int| 0 <= k < v@.len() && #[trigger] v@[k] == x by {
        if x == b.left {
            assert(v@[0] == x);
        } else if x == work.left {
            assert(v@[1] == x);
        } else if x == work.right - width {
            assert(v@[2] == x);
        } else {
            let j = choose|j: int|
                0 <= j < occupied@.len() && (x == occupied@[j].left - width || x == occupied@[j].right);
            assert(v@[3 + 2 * j] == occupied@[j].left - width);
            if x == occupied@[j].right {
                assert(v@[4 + 2 * j] == x);
            }
        }
    }
    v
}

fn row_candidates(b: Rect, occupied: &Vec<Rect>, work: &Rect) -> (v: Vec<i32>)
    requires
        rect_bounded(b),
        rect_bounded(*work),
        all_bounded(occupied@),
    ensures
        forall|k: int| 0 <= k < v@.len() ==> row_candidate(#[trigger] v@[k] as int, b, occupied@, *work),
        forall|y: int| row_candidate(y, b, occupied@, *work) ==> exists|k: int| 0 <= k < v@.len() && #[trigger] v@[k] == y,
{
    let height = b.bottom - b.top;
    let flush_bottom = work.bottom - height;
    let mut v: Vec<i32> = vec![b.top, work.top, flush_bottom];
    for j in 0..occupied.len()
        invariant
            height == b.bottom - b.top,
            rect_bounded(b),
            all_bounded(occupied@),
            forall|k: int| 0 <= k < v@.len() ==> row_candidate(#[trigger] v@[k] as int, b, occupied@, *work),
            v@.len() == 3 + 2 * j,
            v@[0] == b.top,
            v@[1] == work.top,
            v@[2] == work.bottom - height,
            forall|a: int| 0 <= a < j ==> #[trigger] v@[3 + 2 * a] == occupied@[a].top - height && v@[4 + 2 * a] == occupied@[a].bottom,
    {
        let other = occupied[j];
        assert(rect_bounded(occupied@[j as int]));
        let ghost before = v@;
        v.push(other.top - height);
        v.push(other.bottom);
        assert forall|a: int| 0 <= a < j + 1 implies #[trigger] v@[3 + 2 * a] == occupied@[a].top - height && v@[4 + 2 * a] == occupied@[a].bottom by {
            if a < j {
                assert(v@[3 + 2 * a] == before[3 + 2 * a]);
                assert(before[3 + 2 * a] == occupied@[a].top - height);
                assert(v@[4 + 2 * a] == before[4 + 2 * a]);
            }
        }
    }
    assert forall|y: int| row_candidate(y, b, occupied@, *work) implies exists|k: int| 0 <= k < v@.len() && #[trigger] v@[k] == y by {
        if y == b.top {
            assert(v@[0] == y);
        } else if y == work.top {
            assert(v@[1] == y);
        } else if y == work.bottom - height {
            assert(v@[2] == y);
        } else {
            let j = choose|j: int|
                0 <= j < occupied@.len() && (y == occupied@[j].top - height || y == occupied@[j].bottom);
            assert(v@[3 + 2 * j] == occupied@[j].top - height);
            if y == occupied@[j].bottom {
                assert(v@[4 + 2 * j] == y);
            }
        }
    }
    v
}

/// How far a move travels: the two offsets added, saturating at `u32::MAX`.
pub open spec fn move_distance(dx: int, dy: int) -> int {
    min(abs(dx) + abs(dy), u32::MAX as int)
}

fn move_cost(dx: i32, dy: i32) -> (d: u32)
    ensures
        d == move_distance(dx as int, dy as int),
{
    let ax: u64 = if dx < 0 { (0i64 - dx as i64) as u64 } else { dx as u64 };
    let ay: u64 = if dy < 0 { (0i64 - dy as i64) as u64 } else { dy as u64 };
    let total = ax + ay;
    if total > u32::MAX as u64 {
        u32::MAX
    } else {
        total as u32
    }
}

/// Whether the group must move: it is not empty, overlaps an occupied
/// rectangle, and is no wider and no higher than the work area.
pub open spec fn needs_moving(rects: Seq<Rect>, occupied: Seq<Rect>, work: Rect) -> bool {
    let b = group_bounds(rects);
    &&& rects.len() > 0
    &&& group_hits(rects, occupied)
    &&& b.right - b.left <= work.right - work.left
    &&& b.bottom - b.top <= work.bottom - work.top
}

/// The group with its bounding rectangle's corner moved to `(left, top)`.
pub open spec fn placed_at(rects: Seq<Rect>, left: int, top: int) -> Seq<Rect> {
    let b = group_bounds(rects);
    moved_group(rects, sat(left - b.left), sat(top - b.top))
}

/// A position the group may land at: a candidate on both axes where the
/// moved group fits.
pub open spec fn landing(rects: Seq<Rect>, occupied: Seq<Rect>, work: Rect, left: int, top: int) -> bool {
    let b = group_bounds(rects);
    &&& column_candidate(left, b, occupied, work)
    &&& row_candidate(top, b, occupied, work)
    &&& fits(placed_at(rects, left, top), occupied, work)
}

pub open spec fn landing_cost(rects: Seq<Rect>, left: int, top: int) -> int {
    let b = group_bounds(rects);
    move_distance(sat(left - b.left), sat(top - b.top))
}

/// Landing at `(l1, t1)` is preferred to landing at `(l2, t2)`, or is the
/// same: shorter moves first, then the smaller left edge, then the smaller
/// top edge.
pub open spec fn precedes(rects: Seq<Rect>, l1: int, t1: int, l2: int, t2: int) -> bool {
    let c1 = landing_cost(rects, l1, t1);
    let c2 = landing_cost(rects, l2, t2);
    ||| c1 < c2
    ||| c1 == c2 && l1 < l2
    ||| c1 == c2 && l1 == l2 && t1 <= t2
}

/// The preferred landing: one that precedes every other.
pub open spec fn nearest_landing(rects: Seq<Rect>, occupied: Seq<Rect>, work: Rect, left: int, top: int) -> bool {
    &&& landing(rects, occupied, work, left, top)
    &&& forall|l: int, t: int| #[trigger] landing(rects, occupied, work, l, t) ==> precedes(rects, left, top, l, t)
}

/// There is at most one preferred landing.
pub proof fn lemma_nearest_landing_unique(
    rects: Seq<Rect>,
    occupied: Seq<Rect>,
    work: Rect,
    l1: int,
    t1: int,
    l2: int,
    t2: int,
)
    requires
        nearest_landing(rects, occupied, work, l1, t1),
        nearest_landing(rects, occupied, work, l2, t2),
    ensures
        l1 == l2 && t1 == t2,
{
    assert(precedes(rects, l1, t1, l2, t2));
    assert(precedes(rects, l2, t2, l1, t1));
}

/// Moves a group that overlaps occupied rectangles to the nearest position,
/// among those lined up with the work area's edges or with an occupied
/// rectangle, where it lies inside the work area and overlaps nothing; the
/// group keeps its shape. Where it needs no move, or no such position
/// exists, it stays where it is.
pub fn move_group_away_from_occupied(rects: &mut Vec<Rect>, occupied: &Vec<Rect>, work: &Rect)
    requires
        all_bounded(old(rects)@),
        all_bounded(occupied@),
        rect_bounded(*work),
    ensures
        !needs_moving(old(rects)@, occupied@, *work) ==> final(rects)@ == old(rects)@,
        needs_moving(old(rects)@, occupied@, *work) ==> if exists|l: int, t: int|
            landing(old(rects)@, occupied@, *work, l, t) {
            exists|l: int, t: int|
                nearest_landing(old(rects)@, occupied@, *work, l, t) && final(rects)@ == placed_at(
                    old(rects)@,
                    l,
                    t,
                )
        } else {
            final(rects)@ == old(rects)@
        },
{
    let ghost start = rects@;
    let bounds = match rect_bounds(rects) {
        Some(b) => b,
        None => {
            return ;
        },
    };
    proof {
        assert(is_bounds(start, bounds));
        lemma_bounds_unique(start, bounds, group_bounds(start));
        let i = choose|i: int| 0 <= i < start.len() && start[i].left == bounds.left;
        assert(rect_bounded(start[i]));
        let i = choose|i: int| 0 <= i < start.len() && start[i].top == bounds.top;
        assert(rect_bounded(start[i]));
        let i = choose|i: int| 0 <= i < start.len() && start[i].right == bounds.right;
        assert(rect_bounded(start[i]));
        let i = choose|i: int| 0 <= i < start.len() && start[i].bottom == bounds.bottom;
        assert(rect_bounded(start[i]));
    }
    if !group_intersects(rects, occupied) {
        return ;
    }
    let width = bounds.right - bounds.left;
    let height = bounds.bottom - bounds.top;
    if width > work.right - work.left || height > work.bottom - work.top {
        return ;
    }
    let columns = column_candidates(bounds, occupied, work);
    let rows = row_candidates(bounds, occupied, work);
    let mut best: Option<(u32, i32, i32)> = None;
    let mut best_rects: Vec<Rect> = Vec::new();
    for ci in 0..columns.len()
        invariant
            rects@ == start,
            bounds == group_bounds(start),
            forall|k: int| 0 <= k < columns@.len() ==> column_candidate(#[trigger] columns@[k] as int, bounds, occupied@, *work),
            forall|k: int| 0 <= k < rows@.len() ==> row_candidate(#[trigger] rows@[k] as int, bounds, occupied@, *work),
            best matches Some((d, l, t)) ==> {
                &&& landing(start, occupied@, *work, l as int, t as int)
                &&& d == landing_cost(start, l as int, t as int)
                &&& best_rects@ == placed_at(start, l as int, t as int)
            },
            forall|a: int, k: int|
                0 <= a < ci && 0 <= k < rows@.len() && #[trigger] landing(
                    start,
                    occupied@,
                    *work,
                    columns@[a] as int,
                    rows@[k] as int,
                ) ==> (best matches Some((d, l, t)) && precedes(start, l as int, t as int, columns@[a] as int, rows@[k] as int)),
    {
        for ri in 0..rows.len()
            invariant
                ci < columns@.len(),
                rects@ == start,
                bounds == group_bounds(start),
                forall|k: int| 0 <= k < columns@.len() ==> column_candidate(#[trigger] columns@[k] as int, bounds, occupied@, *work),
                forall|k: int| 0 <= k < rows@.len() ==> row_candidate(#[trigger] rows@[k] as int, bounds, occupied@, *work),
                best matches Some((d, l, t)) ==> {
                    &&& landing(start, occupied@, *work, l as int, t as int)
                    &&& d == landing_cost(start, l as int, t as int)
                    &&& best_rects@ == placed_at(start, l as int, t as int)
                },
                forall|a: int, k: int|
                    ((0 <= a < ci && 0 <= k < rows@.len()) || (a == ci && 0 <= k < ri)) && #[trigger] landing(
                        start,
                        occupied@,
                        *work,
                        columns@[a] as int,
                        rows@[k] as int,
                    ) ==> (best matches Some((d, l, t)) && precedes(start, l as int, t as int, columns@[a] as int, rows@[k] as int)),
        {
            let left = columns[ci];
            let top = rows[ri];
            let dx = sat_sub(left, bounds.left);
            let dy = sat_sub(top, bounds.top);
            let candidate = move_all(rects, dx, dy);
            let ok = group_fits(&candidate, occupied, work);
            proof {
                assert(column_candidate(columns@[ci as int] as int, bounds, occupied@, *work));
                assert(row_candidate(rows@[ri as int] as int, bounds, occupied@, *work));
                assert(candidate@ == placed_at(start, left as int, top as int));
                assert(ok == landing(start, occupied@, *work, left as int, top as int));
            }
            if ok {
                let d = move_cost(dx, dy);
                let better = match best {
                    None => true,
                    Some((bd, bl, bt)) => d < bd || (d == bd && (left < bl || (left == bl && top < bt))),
                };
                if better {
                    best = Some((d, left, top));
                    best_rects = candidate;
                }
            }
        }
    }
    match best {
        Some((d, l, t)) => {
            proof {
                assert forall|l2: int, t2: int| #[trigger] landing(start, occupied@, *work, l2, t2) implies precedes(start, l as int, t as int, l2, t2) by {
                    let a = choose|a: int| 0 <= a < columns@.len() && #[trigger] columns@[a] == l2;
                    let k = choose|k: int| 0 <= k < rows@.len() && #[trigger] rows@[k] == t2;
                    assert(landing(start, occupied@, *work, columns@[a] as int, rows@[k] as int));
                }
                assert(nearest_landing(start, occupied@, *work, l as int, t as int));
            }
            *rects = best_rects;
        },
        None => {
            proof {
                assert forall|l2: int, t2: int| !#[trigger] landing(start, occupied@, *work, l2, t2) by {
                    if landing(start, occupied@, *work, l2, t2) {
                        let a = choose|a: int| 0 <= a < columns@.len() && #[trigger] columns@[a] == l2;
                        let k = choose|k: int| 0 <= k < rows@.len() && #[trigger] rows@[k] == t2;
                        assert(landing(start, occupied@, *work, columns@[a] as int, rows@[k] as int));
                    }
                }
            }
        },
    }
}

} // verus!
