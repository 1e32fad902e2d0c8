//! Pulling apart fences that landed on top of each other after a layout was
//! carried to another monitor. The fences are placed one at a time, starting
//! from the side the layout is anchored to; each keeps its mapped position
//! when that is free, and otherwise moves to the nearest free spot beside a
//! fence placed before it, at the distance the two had in the old layout.

use vstd::prelude::*;
use crate::display::{constrain_layout_rect, constrained_layout_rect};
use crate::geometry::{intersects, min, rects_intersect, sat, sat_add, sat_sub, Rect};
use crate::interaction::{abs, rect_bounded};
use crate::occupancy::all_bounded;

verus! {

/// Where a fence stands in the placing order: along the anchored side
/// first (the right edge, largest first, when anchored right; the left
/// edge otherwise), then likewise vertically.
pub open spec fn order_key(r: Rect, from_right: bool, from_bottom: bool) -> (int, int) {
    (
        if from_right { -(r.right as int) } else { r.left as int },
        if from_bottom { -(r.bottom as int) } else { r.top as int },
    )
}

/// Whether fence `a` is placed before fence `b`; equal keys keep the
/// fences' own order.
pub open spec fn goes_before(sources: Seq<Rect>, a: int, b: int, from_right: bool, from_bottom: bool) -> bool {
    let ka = order_key(sources[a], from_right, from_bottom);
    let kb = order_key(sources[b], from_right, from_bottom);
    ||| ka.0 < kb.0
    ||| ka.0 == kb.0 && ka.1 < kb.1
    ||| ka.0 == kb.0 && ka.1 == kb.1 && a < b
}

/// The first fence below `m`, in placing order, that is not placed yet.
pub open spec fn earliest(sources: Seq<Rect>, placed: Seq<usize>, m: int, from_right: bool, from_bottom: bool) -> Option<int>
    decreases m,
{
    if m <= 0 {
        None
    } else {
        let rest = earliest(sources, placed, m - 1, from_right, from_bottom);
        let j = m - 1;
        if placed.contains(j as usize) {
            rest
        } else {
            match rest {
                None => Some(j),
                Some(b) => if goes_before(sources, j, b, from_right, from_bottom) {
                    Some(j)
                } else {
                    Some(b)
                },
            }
        }
    }
}

proof fn lemma_earliest_in_range(sources: Seq<Rect>, placed: Seq<usize>, m: int, from_right: bool, from_bottom: bool)
    ensures
        earliest(sources, placed, m, from_right, from_bottom) matches Some(i) ==> 0 <= i < m,
    decreases m,
{
    if m > 0 {
        lemma_earliest_in_range(sources, placed, m - 1, from_right, from_bottom);
    }
}

fn key_before(a: &Rect, ia: usize, b: &Rect, ib: usize, from_right: bool, from_bottom: bool) -> (r: bool)
    ensures
        r == ({
            let ka = order_key(*a, from_right, from_bottom);
            let kb = order_key(*b, from_right, from_bottom);
            ||| ka.0 < kb.0
            ||| ka.0 == kb.0 && ka.1 < kb.1
            ||| ka.0 == kb.0 && ka.1 == kb.1 && ia < ib
        }),
{
    let (ha, hb) = if from_right { (b.right, a.right) } else { (a.left, b.left) };
    let (va, vb) = if from_bottom { (b.bottom, a.bottom) } else { (a.top, b.top) };
    ha < hb || (ha == hb && (va < vb || (va == vb && ia < ib)))
}

fn next_to_place(sources: &Vec<Rect>, used: &Vec<bool>, from_right: bool, from_bottom: bool, placed: Ghost<Seq<usize>>) -> (r: Option<usize>)
    requires
        used@.len() == sources@.len(),
        forall|j: int| 0 <= j < sources@.len() ==> #[trigger] used@[j] == placed@.contains(j as usize),
    ensures
        r matches Some(i) ==> earliest(sources@, placed@, sources@.len() as int, from_right, from_bottom) == Some(i as int),
        r is None ==> earliest(sources@, placed@, sources@.len() as int, from_right, from_bottom) is None,
{
    let mut best: Option<usize> = None;
    for j in 0..sources.len()
        invariant
            used@.len() == sources@.len(),
            forall|k: int| 0 <= k < sources@.len() ==> #[trigger] used@[k] == placed@.contains(k as usize),
            best matches Some(b) ==> earliest(sources@, placed@, j as int, from_right, from_bottom) == Some(b as int),
            best is None ==> earliest(sources@, placed@, j as int, from_right, from_bottom) is None,
    {
        assert(used@[j as int] == placed@.contains(j));
        if !used[j] {
            match best {
                None => {
                    best = Some(j);
                },
                Some(b) => {
                    proof {
                        lemma_earliest_in_range(sources@, placed@, j as int, from_right, from_bottom);
                    }
                    if key_before(&sources[j], j, &sources[b], b, from_right, from_bottom) {
                        best = Some(j);
                    }
                },
            }
        }
    }
    best
}

/// The gap tables: `gaps[a][b]` is the distance from fence `b`'s far edge to
/// fence `a`'s near edge in the old layout, scaled to the new monitor (used
/// only where `a` lay wholly past `b`).
pub open spec fn table(gaps: Seq<Vec<i32>>) -> Seq<Seq<i32>> {
    gaps.map_values(|row: Vec<i32>| row@)
}

pub open spec fn square(gaps: Seq<Seq<i32>>, n: int) -> bool {
    gaps.len() == n && forall|a: int| 0 <= a < n ==> #[trigger] gaps[a].len() == n
}

/// The spots at the old distance past each side of `other` that the fence
/// lay past in the old layout.
pub open spec fn offset_spots(
    desired: Rect,
    other: Rect,
    source: Rect,
    other_source: Rect,
    gap_after_x: int,
    gap_before_x: int,
    gap_after_y: int,
    gap_before_y: int,
) -> Seq<Rect> {
    let width = desired.right - desired.left;
    let height = desired.bottom - desired.top;
    let right_of = sat(other.right + gap_after_x);
    let left_of = sat(other.left - gap_before_x);
    let below = sat(other.bottom + gap_after_y);
    let above = sat(other.top - gap_before_y);
    (if source.left >= other_source.right {
        seq![Rect { left: right_of as i32, top: desired.top, right: sat(right_of + width) as i32, bottom: desired.bottom }]
    } else {
        seq![]
    }) + (if source.right <= other_source.left {
        seq![Rect { left: sat(left_of - width) as i32, top: desired.top, right: left_of as i32, bottom: desired.bottom }]
    } else {
        seq![]
    }) + (if source.top >= other_source.bottom {
        seq![Rect { left: desired.left, top: below as i32, right: desired.right, bottom: sat(below + height) as i32 }]
    } else {
        seq![]
    }) + (if source.bottom <= other_source.top {
        seq![Rect { left: desired.left, top: sat(above - height) as i32, right: desired.right, bottom: above as i32 }]
    } else {
        seq![]
    })
}

/// The spots flush against each side of `other`.
pub open spec fn flush_spots(desired: Rect, other: Rect) -> Seq<Rect> {
    let width = desired.right - desired.left;
    let height = desired.bottom - desired.top;
    seq![
        Rect { left: other.right, top: desired.top, right: sat(other.right + width) as i32, bottom: desired.bottom },
        Rect { left: sat(other.left - width) as i32, top: desired.top, right: other.left, bottom: desired.bottom },
        Rect { left: desired.left, top: other.bottom, right: desired.right, bottom: sat(other.bottom + height) as i32 },
        Rect { left: desired.left, top: sat(other.top - height) as i32, right: desired.right, bottom: other.top },
    ]
}

/// The spots tried for a fence next to one placed before it: at the old
/// distance past each side it lay past, then flush against each side.
pub open spec fn beside(
    desired: Rect,
    other: Rect,
    source: Rect,
    other_source: Rect,
    gap_after_x: int,
    gap_before_x: int,
    gap_after_y: int,
    gap_before_y: int,
) -> Seq<Rect> {
    offset_spots(desired, other, source, other_source, gap_after_x, gap_before_x, gap_after_y, gap_before_y)
        + flush_spots(desired, other)
}

/// Every spot tried for fence `index`: its mapped position, then the spots
/// beside each fence placed so far, in the order they were placed.
pub open spec fn candidates(
    desired: Seq<Rect>,
    rects: Seq<Rect>,
    placed: Seq<usize>,
    index: int,
    sources: Seq<Rect>,
    gaps_x: Seq<Seq<i32>>,
    gaps_y: Seq<Seq<i32>>,
) -> Seq<Rect>
    decreases placed.len(),
{
    if placed.len() == 0 {
        seq![desired[index]]
    } else {
        let previous = placed.last() as int;
        candidates(desired, rects, placed.drop_last(), index, sources, gaps_x, gaps_y) + beside(
            desired[index],
            rects[previous],
            sources[index],
            sources[previous],
            gaps_x[index][previous] as int,
            gaps_x[previous][index] as int,
            gaps_y[index][previous] as int,
            gaps_y[previous][index] as int,
        )
    }
}

fn push_offset_spots(
    out: &mut Vec<Rect>,
    desired: Rect,
    other: Rect,
    source: &Rect,
    other_source: &Rect,
    gap_after_x: i32,
    gap_before_x: i32,
    gap_after_y: i32,
    gap_before_y: i32,
)
    requires
        rect_bounded(desired),
    ensures
        final(out)@ == old(out)@ + offset_spots(
            desired,
            other,
            *source,
            *other_source,
            gap_after_x as int,
            gap_before_x as int,
            gap_after_y as int,
            gap_before_y as int,
        ),
{
    let ghost start = out@;
    let width = desired.right - desired.left;
    let height = desired.bottom - desired.top;
    let right_of = sat_add(other.right, gap_after_x);
    let left_of = sat_sub(other.left, gap_before_x);
    let below = sat_add(other.bottom, gap_after_y);
    let above = sat_sub(other.top, gap_before_y);
    let ghost a: Seq<Rect> = if source.left >= other_source.right {
        seq![Rect { left: right_of, top: desired.top, right: sat(right_of + width) as i32, bottom: desired.bottom }]
    } else {
        seq![]
    };
    if source.left >= other_source.right {
        out.push(Rect { left: right_of, top: desired.top, right: sat_add(right_of, width), bottom: desired.bottom });
    }
    assert(out@ =~= start + a);
    let ghost b: Seq<Rect> = if source.right <= other_source.left {
        seq![Rect { left: sat(left_of - width) as i32, top: desired.top, right: left_of, bottom: desired.bottom }]
    } else {
        seq![]
    };
    if source.right <= other_source.left {
        out.push(Rect { left: sat_sub(left_of, width), top: desired.top, right: left_of, bottom: desired.bottom });
    }
    assert(out@ =~= start + a + b);
    let ghost c: Seq<Rect> = if source.top >= other_source.bottom {
        seq![Rect { left: desired.left, top: below, right: desired.right, bottom: sat(below + height) as i32 }]
    } else {
        seq![]
    };
    if source.top >= other_source.bottom {
        out.push(Rect { left: desired.left, top: below, right: desired.right, bottom: sat_add(below, height) });
    }
    assert(out@ =~= start + a + b + c);
    let ghost d: Seq<Rect> = if source.bottom <= other_source.top {
        seq![Rect { left: desired.left, top: sat(above - height) as i32, right: desired.right, bottom: above }]
    } else {
        seq![]
    };
    if source.bottom <= other_source.top {
        out.push(Rect { left: desired.left, top: sat_sub(above, height), right: desired.right, bottom: above });
    }
    assert(out@ =~= start + (a + b + c + d));
}

fn push_flush_spots(out: &mut Vec<Rect>, desired: Rect, other: Rect)
    requires
        rect_bounded(desired),
    ensures
        final(out)@ == old(out)@ + flush_spots(desired, other),
{
    let ghost start = out@;
    let width = desired.right - desired.left;
    let height = desired.bottom - desired.top;
    out.push(Rect { left: other.right, top: desired.top, right: sat_add(other.right, width), bottom: desired.bottom });
    out.push(Rect { left: sat_sub(other.left, width), top: desired.top, right: other.left, bottom: desired.bottom });
    out.push(Rect { left: desired.left, top: other.bottom, right: desired.right, bottom: sat_add(other.bottom, height) });
    out.push(Rect { left: desired.left, top: sat_sub(other.top, height), right: desired.right, bottom: other.top });
    assert(out@ =~= start + flush_spots(desired, other));
}

/// How far a spot lies from the fence's mapped position: the two offsets
/// added, saturating at `u32::MAX`.
pub open spec fn spot_cost(c: Rect, desired: Rect) -> int {
    min(abs(c.left - desired.left) + abs(c.top - desired.top), u32::MAX as int)
}

/// Whether a spot overlaps none of the fences placed so far.
pub open spec fn clear_of(c: Rect, rects: Seq<Rect>, placed: Seq<usize>) -> bool {
    forall|k: int| 0 <= k < placed.len() ==> !#[trigger] intersects(c, rects[placed[k] as int])
}

/// The spot chosen among `spots`: each is first kept within the work area,
/// those that overlap a placed fence are dropped, and the nearest remaining
/// one wins, the earliest on a tie.
pub open spec fn best_spot(
    spots: Seq<Rect>,
    desired: Rect,
    rects: Seq<Rect>,
    placed: Seq<usize>,
    work: Rect,
    minimum_height: int,
) -> Option<Rect>
    decreases spots.len(),
{
    if spots.len() == 0 {
        None
    } else {
        let previous = best_spot(spots.drop_last(), desired, rects, placed, work, minimum_height);
        let c = constrained_layout_rect(spots.last(), work, minimum_height);
        if !clear_of(c, rects, placed) {
            previous
        } else {
            match previous {
                None => Some(c),
                Some(b) => if spot_cost(c, desired) < spot_cost(b, desired) {
                    Some(c)
                } else {
                    Some(b)
                },
            }
        }
    }
}

fn spot_cost_exec(c: &Rect, desired: &Rect) -> (r: u32)
    ensures
        r == spot_cost(*c, *desired),
{
    let dx: u64 = if c.left >= desired.left {
        (c.left as i64 - desired.left as i64) as u64
    } else {
        (desired.left as i64 - c.left as i64) as u64
    };
    let dy: u64 = if c.top >= desired.top {
        (c.top as i64 - desired.top as i64) as u64
    } else {
        (desired.top as i64 - c.top as i64) as u64
    };
    let total = dx + dy;
    if total > u32::MAX as u64 {
        u32::MAX
    } else {
        total as u32
    }
}

fn clear_of_exec(c: &Rect, rects: &Vec<Rect>, placed: &Vec<usize>) -> (r: bool)
    requires
        forall|k: int| 0 <= k < placed@.len() ==> #[trigger] placed@[k] < rects@.len(),
    ensures
        r == clear_of(*c, rects@, placed@),
{
    for k in 0..placed.len()
        invariant
            forall|q: int| 0 <= q < placed@.len() ==> #[trigger] placed@[q] < rects@.len(),
            forall|q: int| 0 <= q < k ==> !#[trigger] intersects(*c, rects@[placed@[q] as int]),
    {
        let other = placed[k];
        if rects_intersect(c, &rects[other]) {
            return false;
        }
    }
    true
}

fn choose_spot(
    spots: &Vec<Rect>,
    desired: &Rect,
    rects: &Vec<Rect>,
    placed: &Vec<usize>,
    work: &Rect,
    minimum_height: i32,
) -> (r: Option<Rect>)
    requires
        rect_bounded(*work),
        forall|k: int| 0 <= k < placed@.len() ==> #[trigger] placed@[k] < rects@.len(),
    ensures
        r == best_spot(spots@, *desired, rects@, placed@, *work, minimum_height as int),
{
    let mut best: Option<(u32, Rect)> = None;
    for i in 0..spots.len()
        invariant
            rect_bounded(*work),
            forall|k: int| 0 <= k < placed@.len() ==> #[trigger] placed@[k] < rects@.len(),
            best matches Some((d, b)) ==> d == spot_cost(b, *desired),
            (match best {
                Some((_, b)) => Some(b),
                None => None,
            }) == best_spot(spots@.take(i as int), *desired, rects@, placed@, *work, minimum_height as int),
    {
        assert(spots@.take(i + 1).drop_last() =~= spots@.take(i as int));
        assert(spots@.take(i + 1).last() == spots@[i as int]);
        let c = constrain_layout_rect(spots[i], work, minimum_height);
        if clear_of_exec(&c, rects, placed) {
            let d = spot_cost_exec(&c, desired);
            match best {
                None => {
                    best = Some((d, c));
                },
                Some((bd, _)) => {
                    if d < bd {
                        best = Some((d, c));
                    }
                },
            }
        }
    }
    assert(spots@.take(spots@.len() as int) =~= spots@);
    match best {
        Some((_, b)) => Some(b),
        None => None,
    }
}

fn build_candidates(
    desired: &Vec<Rect>,
    rects: &Vec<Rect>,
    placed: &Vec<usize>,
    index: usize,
    sources: &Vec<Rect>,
    gaps_x: &Vec<Vec<i32>>,
    gaps_y: &Vec<Vec<i32>>,
) -> (spots: Vec<Rect>)
    requires
        index < desired@.len(),
        rects@.len() == desired@.len(),
        sources@.len() == desired@.len(),
        square(table(gaps_x@), desired@.len() as int),
        square(table(gaps_y@), desired@.len() as int),
        all_bounded(desired@),
        forall|k: int| 0 <= k < placed@.len() ==> #[trigger] placed@[k] < desired@.len(),
    ensures
        spots@ == candidates(desired@, rects@, placed@, index as int, sources@, table(gaps_x@), table(gaps_y@)),
{
    let mut spots: Vec<Rect> = vec![desired[index]];
    assert(spots@ =~= candidates(desired@, rects@, placed@.take(0), index as int, sources@, table(gaps_x@), table(gaps_y@)));
    for k in 0..placed.len()
        invariant
            index < desired@.len(),
            rects@.len() == desired@.len(),
            sources@.len() == desired@.len(),
            square(table(gaps_x@), desired@.len() as int),
            square(table(gaps_y@), desired@.len() as int),
            all_bounded(desired@),
            forall|q: int| 0 <= q < placed@.len() ==> #[trigger] placed@[q] < desired@.len(),
            spots@ == candidates(desired@, rects@, placed@.take(k as int), index as int, sources@, table(gaps_x@), table(gaps_y@)),
    {
        let previous = placed[k];
        assert(placed@.take(k + 1).drop_last() =~= placed@.take(k as int));
        assert(placed@.take(k + 1).last() == previous);
        assert(table(gaps_x@)[index as int] == gaps_x@[index as int]@);
        assert(table(gaps_x@)[previous as int] == gaps_x@[previous as int]@);
        assert(table(gaps_y@)[index as int] == gaps_y@[index as int]@);
        assert(table(gaps_y@)[previous as int] == gaps_y@[previous as int]@);
        assert(rect_bounded(desired@[index as int]));
        push_offset_spots(
            &mut spots,
            desired[index],
            rects[previous],
            &sources[index],
            &sources[previous],
            gaps_x[index][previous],
            gaps_x[previous][index],
            gaps_y[index][previous],
            gaps_y[previous][index],
        );
        push_flush_spots(&mut spots, desired[index], rects[previous]);
        proof {
            let b = beside(
                desired@[index as int],
                rects@[previous as int],
                sources@[index as int],
                sources@[previous as int],
                gaps_x@[index as int]@[previous as int] as int,
                gaps_x@[previous as int]@[index as int] as int,
                gaps_y@[index as int]@[previous as int] as int,
                gaps_y@[previous as int]@[index as int] as int,
            );
            let prefix = candidates(desired@, rects@, placed@.take(k as int), index as int, sources@, table(gaps_x@), table(gaps_y@));
            assert(spots@ =~= prefix + b);
        }
    }
    assert(placed@.take(placed@.len() as int) =~= placed@);
    spots
}

/// One placement: the next fence in placing order takes the best spot, if
/// there is one, and counts as placed either way.
pub open spec fn separation_step(
    state: (Seq<Rect>, Seq<usize>),
    desired: Seq<Rect>,
    sources: Seq<Rect>,
    gaps_x: Seq<Seq<i32>>,
    gaps_y: Seq<Seq<i32>>,
    work: Rect,
    minimum_height: int,
    from_right: bool,
    from_bottom: bool,
) -> (Seq<Rect>, Seq<usize>) {
    let (rects, placed) = state;
    match earliest(sources, placed, sources.len() as int, from_right, from_bottom) {
        None => state,
        Some(i) => {
            let spots = candidates(desired, rects, placed, i, sources, gaps_x, gaps_y);
            let moved = match best_spot(spots, desired[i], rects, placed, work, minimum_height) {
                Some(b) => rects.update(i, b),
                None => rects,
            };
            (moved, placed.push(i as usize))
        },
    }
}

/// The fences, and the order they were placed in, after `t` placements.
pub open spec fn separated(
    desired: Seq<Rect>,
    t: nat,
    sources: Seq<Rect>,
    gaps_x: Seq<Seq<i32>>,
    gaps_y: Seq<Seq<i32>>,
    work: Rect,
    minimum_height: int,
    from_right: bool,
    from_bottom: bool,
) -> (Seq<Rect>, Seq<usize>)
    decreases t,
{
    if t == 0 {
        (desired, Seq::empty())
    } else {
        separation_step(
            separated(desired, (t - 1) as nat, sources, gaps_x, gaps_y, work, minimum_height, from_right, from_bottom),
            desired,
            sources,
            gaps_x,
            gaps_y,
            work,
            minimum_height,
            from_right,
            from_bottom,
        )
    }
}

fn copy_rects(rects: &Vec<Rect>) -> (r: Vec<Rect>)
    ensures
        r@ == rects@,
{
    let mut r: Vec<Rect> = Vec::new();
    for i in 0..rects.len()
        invariant
            r@ == rects@.take(i as int),
    {
        r.push(rects[i]);
        assert(rects@.take(i + 1) =~= rects@.take(i as int).push(rects@[i as int]));
    }
    assert(rects@.take(rects@.len() as int) =~= rects@);
    r
}

/// Pulls apart fences carried to a new monitor. `rects` holds where each
/// fence was mapped to and `source_rects` where it stood before;
/// `scaled_gaps_x[a][b]` is the distance from fence `b`'s right edge to fence
/// `a`'s left edge before, in the new monitor's pixels, and `scaled_gaps_y`
/// the same vertically; `from_right` and `from_bottom` tell which sides the
/// layout is anchored to. The fences are placed in order (see
/// `goes_before`); each one takes the nearest spot, among its mapped
/// position and the spots beside the fences placed before it, that stays in
/// the work area and overlaps none of them, and keeps its position when
/// there is none.
#[verifier::rlimit(40)]
pub fn separate_mapped_rects(
    rects: &mut Vec<Rect>,
    source_rects: &Vec<Rect>,
    work: &Rect,
    minimum_height: i32,
    scaled_gaps_x: &Vec<Vec<i32>>,
    scaled_gaps_y: &Vec<Vec<i32>>,
    from_right: bool,
    from_bottom: bool,
)
    requires
        source_rects@.len() == old(rects)@.len(),
        all_bounded(old(rects)@),
        rect_bounded(*work),
        square(table(scaled_gaps_x@), old(rects)@.len() as int),
        square(table(scaled_gaps_y@), old(rects)@.len() as int),
    ensures
        final(rects)@ == separated(
            old(rects)@,
            old(rects)@.len() as nat,
            source_rects@,
            table(scaled_gaps_x@),
            table(scaled_gaps_y@),
            *work,
            minimum_height as int,
            from_right,
            from_bottom,
        ).0,
{
    let ghost start = rects@;
    let n = rects.len();
    let desired = copy_rects(rects);
    let mut placed: Vec<usize> = Vec::new();
    let mut used: Vec<bool> = Vec::new();
    for j in 0..n
        invariant
            used@.len() == j,
            forall|k: int| 0 <= k < j ==> !#[trigger] used@[k],
    {
        used.push(false);
    }
    proof {
        assert forall|j: int| 0 <= j < n implies #[trigger] used@[j] == placed@.contains(j as usize) by {
            assert(!used@[j]);
        }
    }
    for t in 0..n
        invariant
            n == start.len(),
            desired@ == start,
            rects@.len() == n,
            source_rects@.len() == n,
            all_bounded(start),
            rect_bounded(*work),
            square(table(scaled_gaps_x@), n as int),
            square(table(scaled_gaps_y@), n as int),
            used@.len() == n,
            forall|j: int| 0 <= j < n ==> #[trigger] used@[j] == placed@.contains(j as usize),
            forall|k: int| 0 <= k < placed@.len() ==> #[trigger] placed@[k] < n,
            (rects@, placed@) == separated(
                start,
                t as nat,
                source_rects@,
                table(scaled_gaps_x@),
                table(scaled_gaps_y@),
                *work,
                minimum_height as int,
                from_right,
                from_bottom,
            ),
    {
        let next = next_to_place(source_rects, &used, from_right, from_bottom, Ghost(placed@));
        match next {
            None => {},
            Some(i) => {
                proof {
                    lemma_earliest_in_range(source_rects@, placed@, n as int, from_right, from_bottom);
                }
                let spots = build_candidates(&desired, rects, &placed, i, source_rects, scaled_gaps_x, scaled_gaps_y);
                let best = choose_spot(&spots, &desired[i], rects, &placed, work, minimum_height);
                match best {
                    Some(b) => {
                        rects.set(i, b);
                    },
                    None => {},
                }
                let ghost before = placed@;
                placed.push(i);
                used.set(i, true);
                proof {
                    assert forall|j: int| 0 <= j < n implies #[trigger] used@[j] == placed@.contains(j as usize) by {
                        if j == i {
                            assert(placed@[before.len() as int] == i);
                        } else {
                            if before.contains(j as usize) {
                                let k = choose|k: int| 0 <= k < before.len() && before[k] == j as usize;
                                assert(placed@[k] == j as usize);
                            }
                            if placed@.contains(j as usize) {
                                let k = choose|k: int| 0 <= k < placed@.len() && placed@[k] == j as usize;
                                assert(k < before.len());
                                assert(before[k] == j as usize);
                            }
                        }
                    }
                }
            },
        }
    }
}

proof fn lemma_earliest_unplaced(sources: Seq<Rect>, placed: Seq<usize>, m: int, from_right: bool, from_bottom: bool)
    ensures
        earliest(sources, placed, m, from_right, from_bottom) matches Some(i) ==> !placed.contains(i as usize),
        earliest(sources, placed, m, from_right, from_bottom) is None ==> forall|j: int|
            0 <= j < m ==> #[trigger] placed.contains(j as usize),
    decreases m,
{
    if m > 0 {
        lemma_earliest_unplaced(sources, placed, m - 1, from_right, from_bottom);
    }
}

/// What holds after `t` placements: the placed fences are distinct, a fence
/// not placed yet is still at its mapped position, and a placed fence either
/// stayed at its mapped position or overlaps none placed before it.
pub open spec fn separation_holds(desired: Seq<Rect>, rects: Seq<Rect>, placed: Seq<usize>) -> bool {
    let n = desired.len();
    &&& rects.len() == n
    &&& placed.no_duplicates()
    &&& forall|k: int| 0 <= k < placed.len() ==> #[trigger] placed[k] < n
    &&& forall|j: int| 0 <= j < n && !placed.contains(j as usize) ==> #[trigger] rects[j] == desired[j]
    &&& forall|k1: int, k2: int|
        0 <= k1 < k2 < placed.len() ==> rects[placed[k2] as int] == desired[placed[k2] as int] || !intersects(
            #[trigger] rects[placed[k2] as int],
            #[trigger] rects[placed[k1] as int],
        )
}

proof fn lemma_separation_holds(
    desired: Seq<Rect>,
    t: nat,
    sources: Seq<Rect>,
    gaps_x: Seq<Seq<i32>>,
    gaps_y: Seq<Seq<i32>>,
    work: Rect,
    minimum_height: int,
    from_right: bool,
    from_bottom: bool,
)
    requires
        sources.len() == desired.len(),
        desired.len() <= usize::MAX,
    ensures
        ({
            let (rects, placed) = separated(desired, t, sources, gaps_x, gaps_y, work, minimum_height, from_right, from_bottom);
            &&& separation_holds(desired, rects, placed)
            &&& placed.len() == if t <= desired.len() { t as int } else { desired.len() as int }
        }),
    decreases t,
{
    let n = desired.len();
    if t > 0 {
        lemma_separation_holds(desired, (t - 1) as nat, sources, gaps_x, gaps_y, work, minimum_height, from_right, from_bottom);
        let (rects, placed) = separated(desired, (t - 1) as nat, sources, gaps_x, gaps_y, work, minimum_height, from_right, from_bottom);
        lemma_earliest_in_range(sources, placed, n as int, from_right, from_bottom);
        lemma_earliest_unplaced(sources, placed, n as int, from_right, from_bottom);
        match earliest(sources, placed, n as int, from_right, from_bottom) {
            None => {
                lemma_all_placed(placed, n as int);
            },
            Some(i) => {
                if placed.len() >= n {
                    lemma_all_placed_when_full(placed, n as int, i);
                }
                let spots = candidates(desired, rects, placed, i, sources, gaps_x, gaps_y);
                let best = best_spot(spots, desired[i], rects, placed, work, minimum_height);
                lemma_best_spot_clear(spots, desired[i], rects, placed, work, minimum_height);
                let moved = match best {
                    Some(b) => rects.update(i, b),
                    None => rects,
                };
                let placed2 = placed.push(i as usize);
                assert(placed2.no_duplicates()) by {
                    assert forall|a: int, b: int| 0 <= a < b < placed2.len() implies placed2[a] != placed2[b] by {
                        if b == placed.len() {
                            assert(placed.contains(placed[a]));
                        }
                    }
                }
                assert forall|j: int| 0 <= j < n && !placed2.contains(j as usize) implies #[trigger] moved[j] == desired[j] by {
                    assert(placed2[placed.len() as int] == i as usize);
                    if placed.contains(j as usize) {
                        let k = choose|k: int| 0 <= k < placed.len() && placed[k] == j as usize;
                        assert(placed2[k] == j as usize);
                    }
                }
                assert forall|k1: int, k2: int| 0 <= k1 < k2 < placed2.len() implies moved[placed2[k2] as int] == desired[placed2[k2] as int] || !intersects(
                    #[trigger] moved[placed2[k2] as int],
                    #[trigger] moved[placed2[k1] as int],
                ) by {
                    assert(placed.contains(placed[k1]));
                    assert(moved[placed2[k1] as int] == rects[placed[k1] as int]);
                    if k2 < placed.len() {
                        assert(placed.contains(placed[k2]));
                        assert(moved[placed2[k2] as int] == rects[placed[k2] as int]);
                    } else {
                        assert(placed2[k2] == i as usize);
                        match best {
                            Some(b) => {
                                assert(clear_of(b, rects, placed));
                                assert(!intersects(b, rects[placed[k1] as int]));
                            },
                            None => {
                                assert(rects[i] == desired[i]);
                            },
                        }
                    }
                }
            },
        }
    }
}

proof fn lemma_best_spot_clear(
    spots: Seq<Rect>,
    desired: Rect,
    rects: Seq<Rect>,
    placed: Seq<usize>,
    work: Rect,
    minimum_height: int,
)
    ensures
        best_spot(spots, desired, rects, placed, work, minimum_height) matches Some(b) ==> clear_of(b, rects, placed),
    decreases spots.len(),
{
    if spots.len() > 0 {
        lemma_best_spot_clear(spots.drop_last(), desired, rects, placed, work, minimum_height);
    }
}

/// When every index below `n` is placed, at least `n` fences are.
proof fn lemma_all_placed(placed: Seq<usize>, n: int)
    requires
        placed.no_duplicates(),
        0 <= n <= usize::MAX,
        forall|j: int| 0 <= j < n ==> #[trigger] placed.contains(j as usize),
    ensures
        placed.len() >= n,
{
    let m = placed.map(|k: int, x: usize| x as int);
    assert forall|a: int, b: int| 0 <= a < m.len() && 0 <= b < m.len() && a != b implies m[a] != m[b] by {
        assert(placed[a] != placed[b]);
    }
    assert(m.no_duplicates());
    m.unique_seq_to_set();
    assert forall|x: int| vstd::set_lib::set_int_range(0, n).contains(x) implies m.to_set().contains(x) by {
        assert(placed.contains(x as usize));
        let k = choose|k: int| 0 <= k < placed.len() && placed[k] == x as usize;
        assert(m[k] == x);
    }
    vstd::set_lib::lemma_int_range(0, n);
    vstd::set_lib::lemma_len_subset(vstd::set_lib::set_int_range(0, n), m.to_set());
}

/// With `n` distinct fences below `n` placed, every index below `n` is placed.
proof fn lemma_all_placed_when_full(placed: Seq<usize>, n: int, i: int)
    requires
        placed.no_duplicates(),
        0 <= i < n <= usize::MAX,
        placed.len() >= n,
        forall|k: int| 0 <= k < placed.len() ==> #[trigger] placed[k] < n,
    ensures
        placed.contains(i as usize),
{
    let m = placed.map(|k: int, x: usize| x as int);
    assert forall|a: int, b: int| 0 <= a < m.len() && 0 <= b < m.len() && a != b implies m[a] != m[b] by {
        assert(placed[a] != placed[b]);
    }
    assert(m.no_duplicates());
    m.unique_seq_to_set();
    if !placed.contains(i as usize) {
        assert forall|x: int| m.to_set().contains(x) implies vstd::set_lib::set_int_range(0, n).remove(i).contains(x) by {
            let k = choose|k: int| 0 <= k < m.len() && m[k] == x;
            assert(placed[k] < n);
            assert(placed[k] != i as usize);
        }
        vstd::set_lib::lemma_int_range(0, n);
        vstd::set_lib::lemma_len_subset(m.to_set(), vstd::set_lib::set_int_range(0, n).remove(i));
    }
}

/// After separation every fence has been placed exactly once, and each
/// fence either stayed at its mapped position or overlaps no fence placed
/// before it.
pub proof fn law_separated_fences_clear_earlier_ones(
    desired: Seq<Rect>,
    sources: Seq<Rect>,
    gaps_x: Seq<Seq<i32>>,
    gaps_y: Seq<Seq<i32>>,
    work: Rect,
    minimum_height: int,
    from_right: bool,
    from_bottom: bool,
)
    requires
        sources.len() == desired.len(),
        desired.len() <= usize::MAX,
    ensures
        ({
            let (rects, placed) = separated(
                desired,
                desired.len(),
                sources,
                gaps_x,
                gaps_y,
                work,
                minimum_height,
                from_right,
                from_bottom,
            );
            &&& placed.len() == desired.len()
            &&& placed.no_duplicates()
            &&& forall|k: int| 0 <= k < placed.len() ==> #[trigger] placed[k] < desired.len()
            &&& forall|k1: int, k2: int|
                0 <= k1 < k2 < placed.len() ==> rects[placed[k2] as int] == desired[placed[k2] as int] || !intersects(
                    #[trigger] rects[placed[k2] as int],
                    #[trigger] rects[placed[k1] as int],
                )
        }),
{
    lemma_separation_holds(desired, desired.len(), sources, gaps_x, gaps_y, work, minimum_height, from_right, from_bottom);
}

proof fn lemma_goes_before_order(sources: Seq<Rect>, a: int, b: int, c: int, from_right: bool, from_bottom: bool)
    ensures
        !goes_before(sources, a, a, from_right, from_bottom),
        a != b ==> goes_before(sources, a, b, from_right, from_bottom) || goes_before(sources, b, a, from_right, from_bottom),
        goes_before(sources, a, b, from_right, from_bottom) && goes_before(sources, b, c, from_right, from_bottom)
            ==> goes_before(sources, a, c, from_right, from_bottom),
{
}

/// The fence `earliest` picks goes before every other fence not placed yet.
proof fn lemma_earliest_goes_first(sources: Seq<Rect>, placed: Seq<usize>, m: int, from_right: bool, from_bottom: bool)
    requires
        0 <= m <= usize::MAX,
    ensures
        earliest(sources, placed, m, from_right, from_bottom) matches Some(i) ==> forall|j: int|
            0 <= j < m && j != i && !placed.contains(j as usize) ==> #[trigger] goes_before(
                sources,
                i,
                j,
                from_right,
                from_bottom,
            ),
    decreases m,
{
    if m > 0 {
        lemma_earliest_goes_first(sources, placed, m - 1, from_right, from_bottom);
        lemma_earliest_unplaced(sources, placed, m - 1, from_right, from_bottom);
        lemma_earliest_in_range(sources, placed, m - 1, from_right, from_bottom);
        let j0 = m - 1;
        match earliest(sources, placed, m, from_right, from_bottom) {
            None => {},
            Some(i) => {
                assert forall|j: int|
                    0 <= j < m && j != i && !placed.contains(j as usize) implies #[trigger] goes_before(
                    sources,
                    i,
                    j,
                    from_right,
                    from_bottom,
                ) by {
                    match earliest(sources, placed, m - 1, from_right, from_bottom) {
                        None => {},
                        Some(b) => {
                            lemma_goes_before_order(sources, i, b, j, from_right, from_bottom);
                            lemma_goes_before_order(sources, b, i, j, from_right, from_bottom);
                        },
                    }
                }
            },
        }
    }
}

/// The placing order so far: every fence placed goes before the next ones
/// placed and before every fence not placed yet.
proof fn lemma_placing_order(
    desired: Seq<Rect>,
    t: nat,
    sources: Seq<Rect>,
    gaps_x: Seq<Seq<i32>>,
    gaps_y: Seq<Seq<i32>>,
    work: Rect,
    minimum_height: int,
    from_right: bool,
    from_bottom: bool,
)
    requires
        sources.len() == desired.len(),
        desired.len() <= usize::MAX,
    ensures
        ({
            let placed = separated(desired, t, sources, gaps_x, gaps_y, work, minimum_height, from_right, from_bottom).1;
            &&& forall|p: int, q: int|
                0 <= p < q < placed.len() ==> goes_before(
                    sources,
                    #[trigger] placed[p] as int,
                    #[trigger] placed[q] as int,
                    from_right,
                    from_bottom,
                )
            &&& forall|p: int, j: int|
                0 <= p < placed.len() && 0 <= j < sources.len() && !placed.contains(j as usize) ==> #[trigger] goes_before(
                    sources,
                    placed[p] as int,
                    j,
                    from_right,
                    from_bottom,
                )
        }),
    decreases t,
{
    let n = sources.len();
    if t > 0 {
        lemma_placing_order(desired, (t - 1) as nat, sources, gaps_x, gaps_y, work, minimum_height, from_right, from_bottom);
        lemma_separation_holds(desired, (t - 1) as nat, sources, gaps_x, gaps_y, work, minimum_height, from_right, from_bottom);
        let placed = separated(desired, (t - 1) as nat, sources, gaps_x, gaps_y, work, minimum_height, from_right, from_bottom).1;
        lemma_earliest_in_range(sources, placed, n as int, from_right, from_bottom);
        lemma_earliest_unplaced(sources, placed, n as int, from_right, from_bottom);
        lemma_earliest_goes_first(sources, placed, n as int, from_right, from_bottom);
        match earliest(sources, placed, n as int, from_right, from_bottom) {
            None => {},
            Some(i) => {
                let placed2 = placed.push(i as usize);
                assert forall|p: int, q: int| 0 <= p < q < placed2.len() implies goes_before(
                    sources,
                    #[trigger] placed2[p] as int,
                    #[trigger] placed2[q] as int,
                    from_right,
                    from_bottom,
                ) by {
                    assert(placed2[p] == placed[p]);
                    if q < placed.len() {
                        assert(placed2[q] == placed[q]);
                    } else {
                        assert(placed2[q] == i as usize);
                        assert(goes_before(sources, placed[p] as int, i, from_right, from_bottom));
                    }
                }
                assert forall|p: int, j: int|
                    0 <= p < placed2.len() && 0 <= j < n && !placed2.contains(j as usize) implies #[trigger] goes_before(
                    sources,
                    placed2[p] as int,
                    j,
                    from_right,
                    from_bottom,
                ) by {
                    assert(placed2[placed.len() as int] == i as usize);
                    assert(j != i);
                    if placed.contains(j as usize) {
                        let k = choose|k: int| 0 <= k < placed.len() && placed[k] == j as usize;
                        assert(placed2[k] == j as usize);
                    }
                    if p < placed.len() {
                        assert(placed2[p] == placed[p]);
                    } else {
                        assert(goes_before(sources, i, j, from_right, from_bottom));
                    }
                }
            },
        }
    }
}

/// The fences are placed starting from the side the layout is anchored to:
/// of two fences, the one placed first stood further left in the old
/// layout (further right when anchored right), and when they stood at the
/// same left (right) edge, the one placed first stood higher (lower when
/// anchored to the bottom); fences that stood alike along both go in their
/// own order. A fence placed earlier keeps its mapped
/// position when that is free (see `law_separated_fences_clear_earlier_ones`).
pub proof fn law_fences_are_placed_from_the_anchored_side(
    desired: Seq<Rect>,
    sources: Seq<Rect>,
    gaps_x: Seq<Seq<i32>>,
    gaps_y: Seq<Seq<i32>>,
    work: Rect,
    minimum_height: int,
    from_right: bool,
    from_bottom: bool,
)
    requires
        sources.len() == desired.len(),
        desired.len() <= usize::MAX,
    ensures
        ({
            let placed = separated(
                desired,
                desired.len(),
                sources,
                gaps_x,
                gaps_y,
                work,
                minimum_height,
                from_right,
                from_bottom,
            ).1;
            forall|p: int, q: int|
                0 <= p < q < placed.len() ==> {
                    let a = sources[#[trigger] placed[p] as int];
                    let b = sources[#[trigger] placed[q] as int];
                    &&& if from_right {
                        a.right >= b.right
                    } else {
                        a.left <= b.left
                    }
                    &&& (if from_right {
                        a.right == b.right
                    } else {
                        a.left == b.left
                    }) ==> if from_bottom {
                        a.bottom >= b.bottom
                    } else {
                        a.top <= b.top
                    }
                    &&& (if from_right {
                        a.right == b.right
                    } else {
                        a.left == b.left
                    }) && (if from_bottom {
                        a.bottom == b.bottom
                    } else {
                        a.top == b.top
                    }) ==> placed[p] < placed[q]
                }
        }),
{
    lemma_placing_order(desired, desired.len(), sources, gaps_x, gaps_y, work, minimum_height, from_right, from_bottom);
}

} // verus!
