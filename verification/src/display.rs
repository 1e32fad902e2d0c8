//! Monitors and fence groups: the work area of a monitor, which monitor a
//! fence belongs to, and which fences lie close enough together to move as
//! one group when the displays change.

use vstd::prelude::*;
use crate::geometry::{
    clamp, clamp_i32, fits_i32, max, max_i32, min, min_i32, nearest_snap, rect_intersection_area, sat, sat_add,
    sat_sub, snapped, Rect,
};
use crate::interaction::{MAX_FENCE_HEIGHT, MAX_FENCE_WIDTH, MIN_FENCE_WIDTH};
use crate::ipc::DisplayAnchor;
use crate::text::str_equal;

verus! {

/// How far apart two ranges lie on one axis (zero when they touch or overlap).
pub open spec fn axis_gap(a_low: int, a_high: int, b_low: int, b_high: int) -> int {
    if a_high < b_low {
        b_low - a_high
    } else if b_high < a_low {
        a_low - b_high
    } else {
        0
    }
}

/// The square of the distance between the nearest edges of two rectangles.
pub open spec fn gap_squared(a: Rect, b: Rect) -> int {
    let dx = axis_gap(a.left as int, a.right as int, b.left as int, b.right as int);
    let dy = axis_gap(a.top as int, a.bottom as int, b.top as int, b.bottom as int);
    dx * dx + dy * dy
}

/// Whether both gaps between two rectangles fit in `i32`, as the distance
/// between them is formed there.
pub open spec fn gaps_fit(a: Rect, b: Rect) -> bool {
    &&& axis_gap(a.left as int, a.right as int, b.left as int, b.right as int) <= 0x7fff_ffff
    &&& axis_gap(a.top as int, a.bottom as int, b.top as int, b.bottom as int) <= 0x7fff_ffff
}

/// Whether the gaps between every two of the rectangles fit in `i32`.
pub open spec fn all_gaps_fit(rects: Seq<Rect>) -> bool {
    forall|i: int, j: int|
        0 <= i < rects.len() && 0 <= j < rects.len() ==> gaps_fit(#[trigger] rects[i], #[trigger] rects[j])
}

fn axis_gap_exec(a_low: i32, a_high: i32, b_low: i32, b_high: i32) -> (r: i64)
    ensures
        r == axis_gap(a_low as int, a_high as int, b_low as int, b_high as int),
        0 <= r,
{
    if a_high < b_low {
        b_low as i64 - a_high as i64
    } else if b_high < a_low {
        a_low as i64 - b_high as i64
    } else {
        0
    }
}

/// The squared distance between the nearest edges of two rectangles.
pub fn rectangle_distance_squared(a: &Rect, b: &Rect) -> (r: i64)
    requires
        gaps_fit(*a, *b),
    ensures
        r == gap_squared(*a, *b),
{
    let dx = axis_gap_exec(a.left, a.right, b.left, b.right);
    let dy = axis_gap_exec(a.top, a.bottom, b.top, b.bottom);
    assert(dx * dx <= 0x3fff_ffff_0000_0001 && dy * dy <= 0x3fff_ffff_0000_0001)
        by (nonlinear_arith)
        requires
            0 <= dx <= 0x7fff_ffff,
            0 <= dy <= 0x7fff_ffff,
    ;
    dx * dx + dy * dy
}

/// Whether rectangles `i` and `j` lie within `distance` of each other.
pub open spec fn within(rects: Seq<Rect>, i: int, j: int, distance: int) -> bool {
    gap_squared(rects[i], rects[j]) <= max(distance, 0) * max(distance, 0)
}

/// Each index below `n` stands in exactly one place of the components.
pub open spec fn partitions(cs: Seq<Seq<usize>>, n: int) -> bool {
    &&& forall|k: int, p: int|
        0 <= k < cs.len() && 0 <= p < cs[k].len() ==> #[trigger] cs[k][p] < n
    &&& forall|k1: int, p1: int, k2: int, p2: int|
        0 <= k1 < cs.len() && 0 <= p1 < cs[k1].len() && 0 <= k2 < cs.len() && 0 <= p2
            < cs[k2].len() && #[trigger] cs[k1][p1] == #[trigger] cs[k2][p2] ==> k1 == k2 && p1
            == p2
    &&& forall|i: int| 0 <= i < n ==> #[trigger] listed(cs, i)
}

/// Whether index `i` stands in some component.
pub open spec fn listed(cs: Seq<Seq<usize>>, i: int) -> bool {
    exists|k: int, p: int| 0 <= k < cs.len() && 0 <= p < cs[k].len() && #[trigger] cs[k][p] == i
}

/// Each component is led by its smallest index, and the components come in
/// the order of their leaders.
pub open spec fn led_by_smallest(cs: Seq<Seq<usize>>) -> bool {
    &&& forall|k: int| 0 <= k < cs.len() ==> #[trigger] cs[k].len() > 0
    &&& forall|k: int, p: int| 0 <= k < cs.len() && 0 <= p < cs[k].len() ==> cs[k][0] <= #[trigger] cs[k][p]
    &&& forall|k1: int, k2: int| 0 <= k1 < k2 < cs.len() ==> #[trigger] cs[k1][0] < #[trigger] cs[k2][0]
}

/// No rectangle carries a saved group.
pub open spec fn no_groups(n: int) -> Seq<Option<String>> {
    Seq::new(n as nat, |i: int| None)
}

/// Every member of a component but its leader lies within the distance of a
/// member listed before it.
pub open spec fn reached_from_earlier(rects: Seq<Rect>, cs: Seq<Seq<usize>>, distance: int) -> bool {
    reached_by_links(rects, no_groups(rects.len() as int), cs, distance)
}

/// Whatever lies within the distance of a member of a component belongs to
/// that component or to an earlier one.
pub open spec fn closed_under_within(rects: Seq<Rect>, cs: Seq<Seq<usize>>, distance: int) -> bool {
    closed_under_links(rects, no_groups(rects.len() as int), cs, distance)
}

pub open spec fn component_views(components: Seq<Vec<usize>>) -> Seq<Seq<usize>> {
    components.map_values(|c: Vec<usize>| c@)
}

/// Index `i`, when placed, stands where the bookkeeping says.
spec fn found_at(cs: Seq<Seq<usize>>, comp_of: Seq<int>, pos_of: Seq<int>, i: int) -> bool {
    comp_of[i] >= 0 ==> comp_of[i] < cs.len() && 0 <= pos_of[i] < cs[comp_of[i]].len()
        && cs[comp_of[i]][pos_of[i]] == i
}

/// Bookkeeping of the search: which component and position hold each index.
spec fn placed_at(cs: Seq<Seq<usize>>, comp_of: Seq<int>, pos_of: Seq<int>, n: int) -> bool {
    &&& comp_of.len() == n
    &&& pos_of.len() == n
    &&& forall|i: int| 0 <= i < n ==> #[trigger] found_at(cs, comp_of, pos_of, i)
    &&& forall|k: int, p: int|
        0 <= k < cs.len() && 0 <= p < cs[k].len() ==> #[trigger] cs[k][p] < n && comp_of[cs[k][p] as int]
            == k && pos_of[cs[k][p] as int] == p
}

proof fn lemma_open_component(cs: Seq<Seq<usize>>, comp_of: Seq<int>, pos_of: Seq<int>, n: int, start: int)
    requires
        placed_at(cs, comp_of, pos_of, n),
        n <= usize::MAX,
        0 <= start < n,
        comp_of[start] < 0,
    ensures
        placed_at(
            cs.push(seq![start as usize]),
            comp_of.update(start, cs.len() as int),
            pos_of.update(start, 0),
            n,
        ),
{
    let cs2 = cs.push(seq![start as usize]);
    let c2 = comp_of.update(start, cs.len() as int);
    let p2 = pos_of.update(start, 0);
    assert forall|i: int| 0 <= i < n implies #[trigger] found_at(cs2, c2, p2, i) by {
        if i != start {
            assert(found_at(cs, comp_of, pos_of, i));
            if comp_of[i] >= 0 {
                assert(cs2[c2[i]] == cs[comp_of[i]]);
            }
        }
    }
    assert forall|k: int, p: int| 0 <= k < cs2.len() && 0 <= p < cs2[k].len() implies #[trigger] cs2[k][p] < n
        && c2[cs2[k][p] as int] == k && p2[cs2[k][p] as int] == p by {
        if k < cs.len() {
            assert(cs2[k][p] == cs[k][p]);
            assert(cs[k][p] != start);
        }
    }
}

proof fn lemma_extend_component(cs: Seq<Seq<usize>>, comp_of: Seq<int>, pos_of: Seq<int>, n: int, i: int)
    requires
        placed_at(cs, comp_of, pos_of, n),
        n <= usize::MAX,
        cs.len() > 0,
        0 <= i < n,
        comp_of[i] < 0,
    ensures
        placed_at(
            cs.drop_last().push(cs.last().push(i as usize)),
            comp_of.update(i, cs.len() - 1),
            pos_of.update(i, cs.last().len() as int),
            n,
        ),
{
    let k = cs.len() - 1;
    let cs2 = cs.drop_last().push(cs.last().push(i as usize));
    let c2 = comp_of.update(i, k);
    let p2 = pos_of.update(i, cs.last().len() as int);
    assert forall|x: int| 0 <= x < n implies #[trigger] found_at(cs2, c2, p2, x) by {
        if x != i {
            assert(found_at(cs, comp_of, pos_of, x));
            if comp_of[x] >= 0 {
                if comp_of[x] < k {
                    assert(cs2[c2[x]] == cs[comp_of[x]]);
                } else {
                    assert(cs2[k] == cs[k].push(i as usize));
                }
            }
        }
    }
    assert forall|kk: int, p: int| 0 <= kk < cs2.len() && 0 <= p < cs2[kk].len() implies #[trigger] cs2[kk][p] < n
        && c2[cs2[kk][p] as int] == kk && p2[cs2[kk][p] as int] == p by {
        if kk < k {
            assert(cs2[kk][p] == cs[kk][p]);
            assert(cs[kk][p] != i);
        } else if p < cs[k].len() {
            assert(cs2[kk][p] == cs[k][p]);
            assert(cs[k][p] != i);
        }
    }
}

proof fn lemma_component_len(cs: Seq<Seq<usize>>, comp_of: Seq<int>, pos_of: Seq<int>, n: int)
    requires
        placed_at(cs, comp_of, pos_of, n),
        cs.len() > 0,
        n >= 0,
    ensures
        cs.last().len() <= n,
{
    let k = cs.len() - 1;
    let s = cs[k];
    let m = s.map(|p: int, x: usize| x as int);
    assert forall|p: int, q: int| 0 <= p < m.len() && 0 <= q < m.len() && p != q implies m[p] != m[q] by {
        assert(cs[k][p] < n && pos_of[cs[k][p] as int] == p);
        assert(cs[k][q] < n && pos_of[cs[k][q] as int] == q);
    }
    assert(m.no_duplicates());
    m.unique_seq_to_set();
    assert forall|x: int| m.to_set().contains(x) implies vstd::set_lib::set_int_range(0, n).contains(x) by {
        let p = choose|p: int| 0 <= p < m.len() && m[p] == x;
        assert(cs[k][p] < n);
    }
    vstd::set_lib::lemma_int_range(0, n);
    vstd::set_lib::lemma_len_subset(m.to_set(), vstd::set_lib::set_int_range(0, n));
}

proof fn lemma_partition_from_placement(cs: Seq<Seq<usize>>, comp_of: Seq<int>, pos_of: Seq<int>, n: int)
    requires
        placed_at(cs, comp_of, pos_of, n),
        forall|i: int| 0 <= i < n ==> comp_of[i] >= 0,
    ensures
        partitions(cs, n),
{
    assert forall|i: int| 0 <= i < n implies #[trigger] listed(cs, i) by {
        assert(found_at(cs, comp_of, pos_of, i));
        assert(cs[comp_of[i]][pos_of[i]] == i);
    }
}

/// Whether rectangles `i` and `j` were saved in the same group.
pub open spec fn same_saved_group(groups: Seq<Option<String>>, i: int, j: int) -> bool {
    groups[i] matches Some(a) && groups[j] matches Some(b) && a@ == b@
}

/// Whether rectangle `j` belongs with rectangle `i`: within the distance, or
/// saved in the same group.
pub open spec fn linked(rects: Seq<Rect>, groups: Seq<Option<String>>, i: int, j: int, distance: int) -> bool {
    within(rects, i, j, distance) || same_saved_group(groups, i, j)
}

/// Every member of a component but its leader is linked to a member listed
/// before it.
pub open spec fn reached_by_links(
    rects: Seq<Rect>,
    groups: Seq<Option<String>>,
    cs: Seq<Seq<usize>>,
    distance: int,
) -> bool {
    forall|k: int, p: int|
        0 <= k < cs.len() && 0 < p < cs[k].len() ==> exists|q: int|
            0 <= q < p && linked(rects, groups, cs[k][q] as int, #[trigger] cs[k][p] as int, distance)
}

/// Whatever is linked to a member of a component belongs to that component
/// or to an earlier one.
pub open spec fn closed_under_links(
    rects: Seq<Rect>,
    groups: Seq<Option<String>>,
    cs: Seq<Seq<usize>>,
    distance: int,
) -> bool {
    forall|k: int, p: int, j: int|
        0 <= k < cs.len() && 0 <= p < cs[k].len() && 0 <= j < rects.len() && #[trigger] linked(
            rects,
            groups,
            cs[k][p] as int,
            j,
            distance,
        ) ==> exists|k2: int, p2: int|
            0 <= k2 <= k && 0 <= p2 < cs[k2].len() && #[trigger] cs[k2][p2] == j
}

fn same_group(a: &Option<String>, b: &Option<String>) -> (r: bool)
    ensures
        r == (*a matches Some(x) && *b matches Some(y) && x@ == y@),
{
    match (a, b) {
        (Some(x), Some(y)) => str_equal(x.as_str(), y.as_str()),
        _ => false,
    }
}

/// Groups the rectangles into components: a component starts at the first
/// rectangle not yet grouped and takes in, breadth first, every ungrouped
/// rectangle linked to one of its members, that is within `distance` of it
/// or saved in the same group (`groups` holds each rectangle's saved group).
pub fn connected_layout_components_with_placements(
    rects: &Vec<Rect>,
    groups: &Vec<Option<String>>,
    distance: i32,
) -> (components: Vec<Vec<usize>>)
    requires
        groups@.len() == rects@.len(),
        all_gaps_fit(rects@),
    ensures
        partitions(component_views(components@), rects@.len() as int),
        led_by_smallest(component_views(components@)),
        reached_by_links(rects@, groups@, component_views(components@), distance as int),
        closed_under_links(rects@, groups@, component_views(components@), distance as int),
{
    let n = rects.len();
    let d: i64 = if distance > 0 {
        distance as i64
    } else {
        0
    };
    assert(d * d <= 0x4000_0000_0000_0000) by (nonlinear_arith)
        requires
            0 <= d <= 0x8000_0000,
    ;
    let maximum = d * d;
    assert(maximum == max(distance as int, 0) * max(distance as int, 0));
    let mut visited: Vec<bool> = Vec::new();
    let mut i: usize = 0;
    while i < n
        invariant
            i <= n,
            visited@.len() == i,
            forall|j: int| 0 <= j < i ==> !visited@[j],
        decreases n - i,
    {
        visited.push(false);
        i = i + 1;
    }
    let mut components: Vec<Vec<usize>> = Vec::new();
    let ghost mut comp_of: Seq<int> = Seq::new(n as nat, |j: int| -1int);
    let ghost mut pos_of: Seq<int> = Seq::new(n as nat, |j: int| 0int);
    let mut start: usize = 0;
    while start < n
        invariant
            n == rects@.len(),
            groups@.len() == n,
            all_gaps_fit(rects@),
            maximum == max(distance as int, 0) * max(distance as int, 0),
            start <= n,
            visited@.len() == n,
            placed_at(component_views(components@), comp_of, pos_of, n as int),
            forall|j: int| 0 <= j < n ==> #[trigger] visited@[j] == (comp_of[j] >= 0),
            forall|j: int| 0 <= j < start ==> #[trigger] visited@[j],
            forall|j: int| 0 <= j < n && visited@[j] ==> comp_of[j] < components@.len(),
            forall|j: int| start <= j < n ==> !visited@[j] || comp_of[j] < components@.len(),
            forall|k: int| 0 <= k < components@.len() ==> components@[k]@.len() > 0 && components@[k]@[0] < start,
            led_by_smallest(component_views(components@)),
            reached_by_links(rects@, groups@, component_views(components@), distance as int),
            closed_under_links(rects@, groups@, component_views(components@), distance as int),
            forall|k: int, p: int, j: int|
                0 <= k < components@.len() && 0 <= p < components@[k]@.len() && 0 <= j < n
                    && #[trigger] linked(rects@, groups@, components@[k]@[p] as int, j, distance as int)
                    ==> 0 <= comp_of[j] <= k,
        decreases n - start,
    {
        if visited[start] {
            start = start + 1;
            continue;
        }
        let ghost k = components@.len() as int;
        let ghost earlier = component_views(components@);
        visited.set(start, true);
        proof {
            lemma_open_component(earlier, comp_of, pos_of, n as int, start as int);
            comp_of = comp_of.update(start as int, k);
            pos_of = pos_of.update(start as int, 0);
        }
        let mut component: Vec<usize> = Vec::new();
        component.push(start);
        assert(component@ =~= seq![start]);
        let mut cursor: usize = 0;
        while cursor < component.len()
            invariant
                n == rects@.len(),
                groups@.len() == n,
            groups@.len() == n,
                all_gaps_fit(rects@),
                maximum == max(distance as int, 0) * max(distance as int, 0),
                start < n,
                k == components@.len(),
                earlier == component_views(components@),
                visited@.len() == n,
                cursor <= component@.len(),
                component@.len() <= n,
                component@.len() > 0,
                component@[0] == start,
                visited@[start as int],
                placed_at(earlier.push(component@), comp_of, pos_of, n as int),
                forall|j: int| 0 <= j < n ==> #[trigger] visited@[j] == (comp_of[j] >= 0),
                forall|j: int| 0 <= j < start ==> #[trigger] visited@[j],
                forall|j: int| 0 <= j < n && visited@[j] ==> comp_of[j] <= k,
                forall|p: int| 0 <= p < component@.len() ==> start <= #[trigger] component@[p],
                forall|kk: int| 0 <= kk < k ==> components@[kk]@.len() > 0 && components@[kk]@[0] < start,
                led_by_smallest(earlier),
                reached_by_links(rects@, groups@, earlier.push(component@), distance as int),
                closed_under_links(rects@, groups@, earlier, distance as int),
                forall|kk: int, p: int, j: int|
                    0 <= kk < k && 0 <= p < components@[kk]@.len() && 0 <= j < n && #[trigger] linked(rects@, groups@, components@[kk]@[p] as int, j, distance as int) ==> 0 <= comp_of[j] <= kk,
                forall|p: int, j: int|
                    0 <= p < cursor && 0 <= j < n && #[trigger] linked(rects@, groups@, component@[p] as int, j, distance as int) ==> 0 <= comp_of[j] <= k,
            decreases n - cursor,
        {
            let current = component[cursor];
            assert(earlier.push(component@)[k][cursor as int] == current);
            let mut candidate: usize = 0;
            while candidate < n
                invariant
                    n == rects@.len(),
                    groups@.len() == n,
                groups@.len() == n,
            groups@.len() == n,
                    all_gaps_fit(rects@),
                    maximum == max(distance as int, 0) * max(distance as int, 0),
                    start < n,
                    k == components@.len(),
                    earlier == component_views(components@),
                    visited@.len() == n,
                    cursor < component@.len(),
                    component@.len() <= n,
                    current == component@[cursor as int],
                    current < n,
                    candidate <= n,
                    component@[0] == start,
                    visited@[start as int],
                    placed_at(earlier.push(component@), comp_of, pos_of, n as int),
                    forall|j: int| 0 <= j < n ==> #[trigger] visited@[j] == (comp_of[j] >= 0),
                    forall|j: int| 0 <= j < start ==> #[trigger] visited@[j],
                    forall|j: int| 0 <= j < n && visited@[j] ==> comp_of[j] <= k,
                    forall|p: int| 0 <= p < component@.len() ==> start <= #[trigger] component@[p],
                    forall|kk: int| 0 <= kk < k ==> components@[kk]@.len() > 0 && components@[kk]@[0] < start,
                    led_by_smallest(earlier),
                    reached_by_links(rects@, groups@, earlier.push(component@), distance as int),
                    closed_under_links(rects@, groups@, earlier, distance as int),
                    forall|kk: int, p: int, j: int|
                        0 <= kk < k && 0 <= p < components@[kk]@.len() && 0 <= j < n && #[trigger] linked(rects@, groups@, components@[kk]@[p] as int, j, distance as int) ==> 0 <= comp_of[j] <= kk,
                    forall|p: int, j: int|
                        0 <= p < cursor && 0 <= j < n && #[trigger] linked(rects@, groups@, component@[p] as int, j, distance as int) ==> 0 <= comp_of[j] <= k,
                    forall|j: int|
                        0 <= j < candidate && linked(rects@, groups@, current as int, j, distance as int)
                            ==> 0 <= comp_of[j] <= k,
                decreases n - candidate,
            {
                let close = same_group(&groups[current], &groups[candidate])
                    || rectangle_distance_squared(&rects[current], &rects[candidate]) <= maximum;
                if !visited[candidate] && close {
                    let ghost before = component@;
                    assert(start <= candidate) by {
                        if candidate < start {
                            assert(visited@[candidate as int]);
                        }
                    }
                    visited.set(candidate, true);
                    proof {
                        lemma_extend_component(earlier.push(before), comp_of, pos_of, n as int, candidate as int);
                        assert(earlier.push(before).drop_last() =~= earlier);
                        assert(earlier.push(before).last() == before);
                        comp_of = comp_of.update(candidate as int, k);
                        pos_of = pos_of.update(candidate as int, before.len() as int);
                    }
                    component.push(candidate);
                    proof {
                        let all = earlier.push(component@);
                        assert(all =~= earlier.push(before).drop_last().push(earlier.push(before).last().push(candidate)));
                        lemma_component_len(all, comp_of, pos_of, n as int);
                        assert forall|kk: int, p: int|
                            0 <= kk < all.len() && 0 < p < all[kk].len() implies exists|q: int|
                                0 <= q < p && linked(
                                    rects@,
                                    groups@,
                                    all[kk][q] as int,
                                    #[trigger] all[kk][p] as int,
                                    distance as int,
                                ) by {
                            if kk < k {
                                assert(all[kk] == earlier.push(before)[kk]);
                            } else if p < before.len() {
                                assert(earlier.push(before)[kk] == before);
                                let q = choose|q: int|
                                    0 <= q < p && linked(
                                        rects@,
                                        groups@,
                                        earlier.push(before)[kk][q] as int,
                                        #[trigger] earlier.push(before)[kk][p] as int,
                                        distance as int,
                                    );
                                assert(all[kk][q] == before[q]);
                                assert(all[kk][p] == before[p]);
                            } else {
                                assert(all[kk][cursor as int] == current);
                                assert(all[kk][p] == candidate);
                                assert(linked(rects@, groups@, all[kk][cursor as int] as int, all[kk][p] as int, distance as int));
                            }
                        }
                    }
                }
                candidate = candidate + 1;
            }
            cursor = cursor + 1;
        }
        proof {
            let all = earlier.push(component@);
            assert forall|kk: int, p: int, j: int|
                0 <= kk < all.len() && 0 <= p < all[kk].len() && 0 <= j < rects@.len() && #[trigger] linked(rects@, groups@, all[kk][p] as int, j, distance as int) implies exists|k2: int, p2: int|
                0 <= k2 <= kk && 0 <= p2 < all[k2].len() && #[trigger] all[k2][p2] == j by {
                if kk < k {
                    assert(all[kk] == components@[kk]@);
                }
                assert(found_at(all, comp_of, pos_of, j));
                assert(all[comp_of[j]][pos_of[j]] == j);
            }
        }
        components.push(component);
        proof {
            assert(component_views(components@) =~= earlier.push(components@[k]@));
        }
        start = start + 1;
    }
    proof {
        assert forall|i: int| 0 <= i < n implies comp_of[i] >= 0 by {
            assert(visited@[i]);
        }
        lemma_partition_from_placement(component_views(components@), comp_of, pos_of, n as int);
    }
    components
}

/// Groups the rectangles into components: a component starts at the first
/// rectangle not yet grouped and takes in, breadth first, every ungrouped
/// rectangle within `distance` of one of its members.
pub fn connected_layout_components(rects: &Vec<Rect>, distance: i32) -> (components: Vec<Vec<usize>>)
    requires
        all_gaps_fit(rects@),
    ensures
        partitions(component_views(components@), rects@.len() as int),
        led_by_smallest(component_views(components@)),
        reached_from_earlier(rects@, component_views(components@), distance as int),
        closed_under_within(rects@, component_views(components@), distance as int),
{
    let mut groups: Vec<Option<String>> = Vec::new();
    for i in 0..rects.len()
        invariant
            groups@.len() == i,
            forall|j: int| 0 <= j < i ==> #[trigger] groups@[j] is None,
    {
        groups.push(None);
    }
    assert(groups@ =~= no_groups(rects@.len() as int));
    connected_layout_components_with_placements(rects, &groups, distance)
}

pub open spec fn well_formed_rect(r: Rect) -> bool {
    r.left <= r.right && r.top <= r.bottom
}

/// Between rectangles that are not inside out, the distance is the same
/// both ways.
pub proof fn law_gap_is_symmetric(a: Rect, b: Rect)
    requires
        well_formed_rect(a),
        well_formed_rect(b),
    ensures
        gap_squared(a, b) == gap_squared(b, a),
{
}

/// For rectangles that are not inside out, the components are exactly the
/// groups of rectangles chained together within the distance: whatever lies
/// within the distance of a member belongs to the same component.
pub proof fn law_components_are_closed(rects: Seq<Rect>, cs: Seq<Seq<usize>>, distance: int)
    requires
        forall|i: int| 0 <= i < rects.len() ==> well_formed_rect(#[trigger] rects[i]),
        partitions(cs, rects.len() as int),
        closed_under_within(rects, cs, distance),
    ensures
        forall|k: int, p: int, j: int|
            0 <= k < cs.len() && 0 <= p < cs[k].len() && 0 <= j < rects.len() && #[trigger] within(
                rects,
                cs[k][p] as int,
                j,
                distance,
            ) ==> exists|p2: int| 0 <= p2 < cs[k].len() && #[trigger] cs[k][p2] == j,
{
    assert forall|k: int, p: int, j: int|
        0 <= k < cs.len() && 0 <= p < cs[k].len() && 0 <= j < rects.len() && #[trigger] within(
            rects,
            cs[k][p] as int,
            j,
            distance,
        ) implies exists|p2: int| 0 <= p2 < cs[k].len() && #[trigger] cs[k][p2] == j by {
        let none = no_groups(rects.len() as int);
        assert(linked(rects, none, cs[k][p] as int, j, distance));
        let (k2, p2) = choose|k2: int, p2: int|
            0 <= k2 <= k && 0 <= p2 < cs[k2].len() && #[trigger] cs[k2][p2] == j;
        if k2 < k {
            let i = cs[k][p] as int;
            assert(rects[i] == rects[i]);
            law_gap_is_symmetric(rects[i], rects[j]);
            assert(within(rects, cs[k2][p2] as int, i, distance));
            assert(linked(rects, none, cs[k2][p2] as int, i, distance));
            let (k3, p3) = choose|k3: int, p3: int|
                0 <= k3 <= k2 && 0 <= p3 < cs[k3].len() && #[trigger] cs[k3][p3] == i;
            assert(cs[k3][p3] == cs[k][p]);
        }
    }
}

/// With saved groups too, for rectangles that are not inside out: whatever
/// is linked to a member of a component, by distance or by a shared saved
/// group, belongs to that same component.
pub proof fn law_linked_components_are_closed(
    rects: Seq<Rect>,
    groups: Seq<Option<String>>,
    cs: Seq<Seq<usize>>,
    distance: int,
)
    requires
        forall|i: int| 0 <= i < rects.len() ==> well_formed_rect(#[trigger] rects[i]),
        groups.len() == rects.len(),
        partitions(cs, rects.len() as int),
        closed_under_links(rects, groups, cs, distance),
    ensures
        forall|k: int, p: int, j: int|
            0 <= k < cs.len() && 0 <= p < cs[k].len() && 0 <= j < rects.len() && #[trigger] linked(
                rects,
                groups,
                cs[k][p] as int,
                j,
                distance,
            ) ==> exists|p2: int| 0 <= p2 < cs[k].len() && #[trigger] cs[k][p2] == j,
{
    assert forall|k: int, p: int, j: int|
        0 <= k < cs.len() && 0 <= p < cs[k].len() && 0 <= j < rects.len() && #[trigger] linked(
            rects,
            groups,
            cs[k][p] as int,
            j,
            distance,
        ) implies exists|p2: int| 0 <= p2 < cs[k].len() && #[trigger] cs[k][p2] == j by {
        let (k2, p2) = choose|k2: int, p2: int|
            0 <= k2 <= k && 0 <= p2 < cs[k2].len() && #[trigger] cs[k2][p2] == j;
        if k2 < k {
            let i = cs[k][p] as int;
            assert(rects[i] == rects[i]);
            law_gap_is_symmetric(rects[i], rects[j]);
            assert(linked(rects, groups, cs[k2][p2] as int, i, distance));
            let (k3, p3) = choose|k3: int, p3: int|
                0 <= k3 <= k2 && 0 <= p3 < cs[k3].len() && #[trigger] cs[k3][p3] == i;
            assert(cs[k3][p3] == cs[k][p]);
        }
    }
}

/// The work area of a monitor, at least one pixel wide and high.
pub open spec fn work_rect_of(anchor: DisplayAnchor) -> Rect {
    Rect {
        left: anchor.work_left,
        top: anchor.work_top,
        right: sat(anchor.work_left + max(anchor.work_width as int, 1)) as i32,
        bottom: sat(anchor.work_top + max(anchor.work_height as int, 1)) as i32,
    }
}

pub fn display_work_rect(anchor: &DisplayAnchor) -> (r: Rect)
    ensures
        r == work_rect_of(*anchor),
{
    Rect {
        left: anchor.work_left,
        top: anchor.work_top,
        right: sat_add(anchor.work_left, max_i32(anchor.work_width, 1)),
        bottom: sat_add(anchor.work_top, max_i32(anchor.work_height, 1)),
    }
}

/// The DPI Windows uses for the monitor on one axis: the effective DPI when
/// known, else the raw DPI, at least one.
pub fn effective_dpi(anchor: &DisplayAnchor, horizontal: bool) -> (r: u32)
    ensures
        r == max(
            (if horizontal {
                match anchor.effective_dpi_x {
                    Some(v) => v,
                    None => anchor.dpi_x,
                }
            } else {
                match anchor.effective_dpi_y {
                    Some(v) => v,
                    None => anchor.dpi_y,
                }
            }) as int,
            1,
        ),
{
    let dpi = if horizontal {
        match anchor.effective_dpi_x {
            Some(v) => v,
            None => anchor.dpi_x,
        }
    } else {
        match anchor.effective_dpi_y {
            Some(v) => v,
            None => anchor.dpi_y,
        }
    };
    if dpi < 1 {
        1
    } else {
        dpi
    }
}

pub open spec fn same_device(displays: Seq<(DisplayAnchor, bool)>, i: int, source: DisplayAnchor) -> bool {
    displays[i].0.device_name@ == source.device_name@
}

/// The monitor a fence group saved for `source` moves to: the monitor with
/// the same device name, else the primary monitor, else the first.
pub fn target_display_index(source: &DisplayAnchor, displays: &[(DisplayAnchor, bool)]) -> (r: Option<usize>)
    ensures
        match r {
            None => displays@.len() == 0,
            Some(i) => i < displays@.len() && ({
                ||| same_device(displays@, i as int, *source) && forall|j: int|
                    0 <= j < i ==> !same_device(displays@, j, *source)
                ||| (forall|j: int| 0 <= j < displays@.len() ==> !same_device(displays@, j, *source))
                    && displays@[i as int].1 && forall|j: int| 0 <= j < i ==> !displays@[j].1
                ||| (forall|j: int|
                    0 <= j < displays@.len() ==> !same_device(displays@, j, *source)
                        && !displays@[j].1) && i == 0
            }),
        },
{
    let mut i: usize = 0;
    while i < displays.len()
        invariant
            i <= displays@.len(),
            forall|j: int| 0 <= j < i ==> !same_device(displays@, j, *source),
        decreases displays@.len() - i,
    {
        if displays[i].0.device_name == source.device_name {
            return Some(i);
        }
        i = i + 1;
    }
    let mut i: usize = 0;
    while i < displays.len()
        invariant
            i <= displays@.len(),
            forall|j: int| 0 <= j < displays@.len() ==> !same_device(displays@, j, *source),
            forall|j: int| 0 <= j < i ==> !displays@[j].1,
        decreases displays@.len() - i,
    {
        if displays[i].1 {
            return Some(i);
        }
        i = i + 1;
    }
    if displays.len() == 0 {
        None
    } else {
        Some(0)
    }
}

/// Whether the size of the area a rectangle shares with a monitor's work
/// area fits in `i32` on both axes, as it is formed there.
pub open spec fn shared_fits(rect: Rect, anchor: DisplayAnchor) -> bool {
    let work = work_rect_of(anchor);
    &&& fits_i32(min(rect.right as int, work.right as int) - max(rect.left as int, work.left as int))
    &&& fits_i32(min(rect.bottom as int, work.bottom as int) - max(rect.top as int, work.top as int))
}

/// How well a monitor fits a rectangle: the area they share, and the squared
/// distance between their centres (doubled coordinates).
pub open spec fn display_fit(rect: Rect, anchor: DisplayAnchor) -> (int, int) {
    let work = work_rect_of(anchor);
    let shared = max(min(rect.right as int, work.right as int) - max(rect.left as int, work.left as int), 0)
        * max(min(rect.bottom as int, work.bottom as int) - max(rect.top as int, work.top as int), 0);
    let dx = (rect.left + rect.right) - (work.left + work.right);
    let dy = (rect.top + rect.bottom) - (work.top + work.bottom);
    (shared, dx * dx + dy * dy)
}

/// Whether fit `a` is strictly better than fit `b`: more shared area, or the
/// same area and closer centres.
pub open spec fn fits_better(a: (int, int), b: (int, int)) -> bool {
    a.0 > b.0 || (a.0 == b.0 && a.1 < b.1)
}

/// The best fitting of the first `count` monitors, the earliest on a tie.
pub open spec fn best_display(rect: Rect, displays: Seq<(DisplayAnchor, bool)>, count: int) -> Option<int>
    decreases count,
{
    if count <= 0 {
        None
    } else {
        match best_display(rect, displays, count - 1) {
            None => Some(count - 1),
            Some(b) => if fits_better(
                display_fit(rect, displays[count - 1].0),
                display_fit(rect, displays[b].0),
            ) {
                Some(count - 1)
            } else {
                Some(b)
            },
        }
    }
}

proof fn lemma_best_display_in_range(rect: Rect, displays: Seq<(DisplayAnchor, bool)>, count: int)
    ensures
        match best_display(rect, displays, count) {
            None => count <= 0,
            Some(b) => 0 <= b < count,
        },
    decreases count,
{
    if count > 0 {
        lemma_best_display_in_range(rect, displays, count - 1);
    }
}

fn display_fit_exec(rect: &Rect, anchor: &DisplayAnchor) -> (r: (i64, i128))
    requires
        shared_fits(*rect, *anchor),
    ensures
        r.0 == display_fit(*rect, *anchor).0,
        r.1 == display_fit(*rect, *anchor).1,
{
    let work = display_work_rect(anchor);
    let shared = rect_intersection_area(rect, &work);
    let dx = (rect.left as i64 + rect.right as i64) - (work.left as i64 + work.right as i64);
    let dy = (rect.top as i64 + rect.bottom as i64) - (work.top as i64 + work.bottom as i64);
    let dx = dx as i128;
    let dy = dy as i128;
    assert(0 <= dx * dx <= 0x4_0000_0000_0000_0000 && 0 <= dy * dy <= 0x4_0000_0000_0000_0000)
        by (nonlinear_arith)
        requires
            -0x2_0000_0000 <= dx <= 0x2_0000_0000,
            -0x2_0000_0000 <= dy <= 0x2_0000_0000,
    ;
    (shared, dx * dx + dy * dy)
}

/// The monitor that fits a rectangle best: the one sharing the most area
/// with it, then the one whose centre is nearest; the earliest on a tie.
pub fn nearest_display_index(rect: &Rect, displays: &[(DisplayAnchor, bool)]) -> (r: Option<usize>)
    requires
        forall|i: int| 0 <= i < displays@.len() ==> shared_fits(*rect, #[trigger] displays@[i].0),
    ensures
        match best_display(*rect, displays@, displays@.len() as int) {
            None => r is None,
            Some(b) => r == Some(b as usize),
        },
{
    let mut best: Option<usize> = None;
    let mut best_fit: (i64, i128) = (0, 0);
    let mut i: usize = 0;
    while i < displays.len()
        invariant
            i <= displays@.len(),
            forall|j: int| 0 <= j < displays@.len() ==> shared_fits(*rect, #[trigger] displays@[j].0),
            match best_display(*rect, displays@, i as int) {
                None => best is None,
                Some(b) => best == Some(b as usize) && best_fit.0 == display_fit(*rect, displays@[b].0).0
                    && best_fit.1 == display_fit(*rect, displays@[b].0).1,
            },
        decreases displays@.len() - i,
    {
        proof {
            lemma_best_display_in_range(*rect, displays@, i as int);
        }
        let fit = display_fit_exec(rect, &displays[i].0);
        match best {
            None => {
                best = Some(i);
                best_fit = fit;
            },
            Some(_) => {
                if fit.0 > best_fit.0 || (fit.0 == best_fit.0 && fit.1 < best_fit.1) {
                    best = Some(i);
                    best_fit = fit;
                }
            },
        }
        i = i + 1;
    }
    best
}

/// A fence rectangle moved onto a work area: its size clamped to what the
/// area allows, its position snapped to the area's edges and kept inside.
pub open spec fn constrained_layout_rect(rect: Rect, work: Rect, minimum_height: int) -> Rect {
    let work_width = max(work.right - work.left, 1);
    let work_height = max(work.bottom - work.top, 1);
    let min_width = max(min(MIN_FENCE_WIDTH as int, work_width), 1);
    let max_width = max(min(MAX_FENCE_WIDTH as int, work_width), min_width);
    let min_height = max(min(minimum_height, work_height), 1);
    let max_height = max(min(MAX_FENCE_HEIGHT as int, work_height), min_height);
    let width = clamp(rect.right - rect.left, min_width, max_width);
    let height = clamp(rect.bottom - rect.top, min_height, max_height);
    let max_left = max(sat(work.right - width), work.left as int);
    let max_top = max(sat(work.bottom - height), work.top as int);
    let left = clamp(snapped(rect.left as int, seq![work.left, max_left as i32]), work.left as int, max_left);
    let top = clamp(snapped(rect.top as int, seq![work.top, max_top as i32]), work.top as int, max_top);
    Rect {
        left: left as i32,
        top: top as i32,
        right: sat(left + width) as i32,
        bottom: sat(top + height) as i32,
    }
}

/// A wide value clamped into `lo..=hi`.
fn clamp_wide(v: i64, lo: i32, hi: i32) -> (r: i32)
    requires
        lo <= hi,
    ensures
        r == clamp(v as int, lo as int, hi as int),
{
    if v < lo as i64 {
        lo
    } else if v > hi as i64 {
        hi
    } else {
        v as i32
    }
}

pub fn constrain_layout_rect(rect: Rect, work: &Rect, minimum_height: i32) -> (r: Rect)
    requires
        fits_i32(work.right - work.left),
        fits_i32(work.bottom - work.top),
    ensures
        r == constrained_layout_rect(rect, *work, minimum_height as int),
{
    let work_width = max_i32(work.right - work.left, 1);
    let work_height = max_i32(work.bottom - work.top, 1);
    let min_width = max_i32(min_i32(MIN_FENCE_WIDTH, work_width), 1);
    let max_width = max_i32(min_i32(MAX_FENCE_WIDTH, work_width), min_width);
    let min_height = max_i32(min_i32(minimum_height, work_height), 1);
    let max_height = max_i32(min_i32(MAX_FENCE_HEIGHT, work_height), min_height);
    let width = clamp_wide(rect.right as i64 - rect.left as i64, min_width, max_width);
    let height = clamp_wide(rect.bottom as i64 - rect.top as i64, min_height, max_height);
    let max_left = max_i32(sat_sub(work.right, width), work.left);
    let max_top = max_i32(sat_sub(work.bottom, height), work.top);
    let xs = vec![work.left, max_left];
    let ys = vec![work.top, max_top];
    assert(xs@ =~= seq![work.left, max_left]);
    assert(ys@ =~= seq![work.top, max_top]);
    let left = clamp_i32(nearest_snap(rect.left, &xs), work.left, max_left);
    let top = clamp_i32(nearest_snap(rect.top, &ys), work.top, max_top);
    Rect { left, top, right: sat_add(left, width), bottom: sat_add(top, height) }
}

} // verus!
