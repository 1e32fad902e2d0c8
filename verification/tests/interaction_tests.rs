use dcreel::geometry::{nearest_snap, rects_intersect, Point, Rect};
use dcreel::interaction::{
    interaction_mode_at, interaction_rect, prevent_sibling_overlap, snap_and_constrain_to_work_area, snap_interaction_rect, InteractionMode, ResizeEdges,
    MAX_FENCE_HEIGHT, MAX_FENCE_WIDTH, MIN_FENCE_HEIGHT, MIN_FENCE_WIDTH,
};

#[test]
fn moving_preserves_size_and_supports_negative_coordinates() {
    let result = interaction_rect(
        InteractionMode::Move,
        Point { x: 100, y: 100 },
        Rect { left: 20, top: 30, right: 350, bottom: 310 },
        Point { x: -40, y: 130 },
        MIN_FENCE_HEIGHT,
        MAX_FENCE_HEIGHT,
    );
    assert_eq!(result.left, -120);
    assert_eq!(result.top, 60);
    assert_eq!(result.right - result.left, 330);
    assert_eq!(result.bottom - result.top, 280);
}

#[test]
fn corner_resize_obeys_minimum_and_maximum_size() {
    let edges = ResizeEdges { right: true, bottom: true, ..ResizeEdges::default() };
    let start = Rect { left: 40, top: 50, right: 370, bottom: 330 };
    let minimum = interaction_rect(
        InteractionMode::Resize(edges),
        Point { x: 0, y: 0 },
        start,
        Point { x: -4_000, y: -4_000 },
        MIN_FENCE_HEIGHT,
        MAX_FENCE_HEIGHT,
    );
    assert_eq!(minimum.right - minimum.left, MIN_FENCE_WIDTH);
    assert_eq!(minimum.bottom - minimum.top, MIN_FENCE_HEIGHT);

    let maximum = interaction_rect(
        InteractionMode::Resize(edges),
        Point { x: 0, y: 0 },
        start,
        Point { x: 4_000, y: 4_000 },
        MIN_FENCE_HEIGHT,
        MAX_FENCE_HEIGHT,
    );
    assert_eq!(maximum.right - maximum.left, MAX_FENCE_WIDTH);
    assert_eq!(maximum.bottom - maximum.top, MAX_FENCE_HEIGHT);
}

#[test]
fn moving_and_resizing_snap_to_sibling_edges_and_size() {
    let sibling = Rect { left: 500, top: 100, right: 830, bottom: 380 };
    let moved = snap_interaction_rect(
        InteractionMode::Move,
        Rect { left: 823, top: 108, right: 1153, bottom: 388 },
        &vec![sibling],
        MIN_FENCE_HEIGHT,
        MAX_FENCE_HEIGHT,
    );
    assert_eq!(moved.left, sibling.right);
    assert_eq!(moved.top, sibling.top);
    assert!(!rects_intersect(&moved, &sibling));

    let resized = snap_interaction_rect(
        InteractionMode::Resize(ResizeEdges { right: true, bottom: true, ..ResizeEdges::default() }),
        Rect { left: 100, top: 100, right: 421, bottom: 371 },
        &vec![sibling],
        MIN_FENCE_HEIGHT,
        MAX_FENCE_HEIGHT,
    );
    assert_eq!(resized.right - resized.left, sibling.right - sibling.left);
    assert_eq!(resized.bottom - resized.top, sibling.bottom - sibling.top);
}

#[test]
fn moving_and_resizing_stop_at_sibling_edges_instead_of_overlapping() {
    let sibling = Rect { left: 500, top: 100, right: 830, bottom: 380 };
    let move_start = Rect { left: 100, top: 100, right: 430, bottom: 380 };
    let moved = prevent_sibling_overlap(
        InteractionMode::Move,
        move_start,
        Rect { left: 400, top: 100, right: 730, bottom: 380 },
        &vec![sibling],
        MIN_FENCE_HEIGHT,
        MAX_FENCE_HEIGHT,
    );
    assert_eq!(moved.right, sibling.left);
    assert!(!rects_intersect(&moved, &sibling));

    let resized = prevent_sibling_overlap(
        InteractionMode::Resize(ResizeEdges { right: true, ..ResizeEdges::default() }),
        move_start,
        Rect { right: 650, ..move_start },
        &vec![sibling],
        MIN_FENCE_HEIGHT,
        MAX_FENCE_HEIGHT,
    );
    assert_eq!(resized.right, sibling.left);
    assert!(!rects_intersect(&resized, &sibling));
}

#[test]
fn snapping_picks_the_nearest_candidate_within_reach() {
    assert_eq!(nearest_snap(100, &vec![90, 108, 300]), 108);
    assert_eq!(nearest_snap(100, &vec![300]), 100);
    assert_eq!(nearest_snap(100, &vec![95, 105]), 95);
}

#[test]
fn a_rectangle_clear_of_its_siblings_is_kept() {
    let sibling = Rect { left: 500, top: 100, right: 830, bottom: 380 };
    let start = Rect { left: 100, top: 100, right: 430, bottom: 380 };
    let target = Rect { left: 120, top: 110, right: 450, bottom: 390 };
    assert_eq!(
        prevent_sibling_overlap(InteractionMode::Move, start, target, &vec![sibling], MIN_FENCE_HEIGHT, MAX_FENCE_HEIGHT),
        target
    );
}

#[test]
fn pointer_position_picks_resize_move_or_nothing() {
    let rect = Rect { left: 100, top: 100, right: 400, bottom: 300 };
    let at = |x: i32, y: i32| Point { x, y };
    assert_eq!(
        interaction_mode_at(&rect, at(105, 200), false, false, true),
        Some(InteractionMode::Resize(ResizeEdges { left: true, top: false, right: false, bottom: false }))
    );
    assert_eq!(
        interaction_mode_at(&rect, at(395, 295), false, false, true),
        Some(InteractionMode::Resize(ResizeEdges { left: false, top: false, right: true, bottom: true }))
    );
    assert_eq!(interaction_mode_at(&rect, at(200, 110), false, false, true), Some(InteractionMode::Move));
    assert_eq!(interaction_mode_at(&rect, at(200, 120), false, false, false), None);
    assert_eq!(interaction_mode_at(&rect, at(200, 200), false, false, true), None);
    assert_eq!(interaction_mode_at(&rect, at(105, 120), false, true, true), Some(InteractionMode::Move));
    assert_eq!(interaction_mode_at(&rect, at(105, 200), true, false, true), None);
    assert_eq!(interaction_mode_at(&rect, at(400, 200), false, false, true), None);
}

#[test]
fn overlap_prevention_works_far_from_the_origin() {
    let base = 2_000_000_000;
    let sibling = Rect { left: base + 400, top: -base, right: base + 730, bottom: -base + 280 };
    let start = Rect { left: base, top: -base, right: base + 330, bottom: -base + 280 };
    let moved = prevent_sibling_overlap(
        InteractionMode::Move,
        start,
        Rect { left: base + 300, right: base + 630, ..start },
        &vec![sibling],
        MIN_FENCE_HEIGHT,
        MAX_FENCE_HEIGHT,
    );
    assert_eq!(moved, Rect { left: base + 70, right: base + 400, ..start });
    let resized = prevent_sibling_overlap(
        InteractionMode::Resize(ResizeEdges { right: true, ..ResizeEdges::default() }),
        start,
        Rect { right: base + 500, ..start },
        &vec![sibling],
        MIN_FENCE_HEIGHT,
        MAX_FENCE_HEIGHT,
    );
    assert_eq!(resized, Rect { right: base + 400, ..start });
}

#[test]
fn a_moved_box_snaps_to_and_stays_inside_the_work_area() {
    let work = Rect { left: 0, top: 0, right: 1920, bottom: 1040 };
    let near = Rect { left: 5, top: 50, right: 335, bottom: 330 };
    assert_eq!(
        snap_and_constrain_to_work_area(InteractionMode::Move, near, &work, MIN_FENCE_HEIGHT, MAX_FENCE_HEIGHT),
        Rect { left: 0, top: 50, right: 330, bottom: 330 }
    );
    let outside = Rect { left: -100, top: 1000, right: 230, bottom: 1280 };
    assert_eq!(
        snap_and_constrain_to_work_area(InteractionMode::Move, outside, &work, MIN_FENCE_HEIGHT, MAX_FENCE_HEIGHT),
        Rect { left: 0, top: 760, right: 330, bottom: 1040 }
    );
    let far = Rect { left: 2_000_000_000, top: -2_000_000_000, right: 2_000_001_920, bottom: -1_999_998_960 };
    let far_outside = Rect { left: far.left - 100, top: far.top + 1000, right: far.left + 230, bottom: far.top + 1280 };
    assert_eq!(
        snap_and_constrain_to_work_area(InteractionMode::Move, far_outside, &far, MIN_FENCE_HEIGHT, MAX_FENCE_HEIGHT),
        Rect { left: far.left, top: far.top + 760, right: far.left + 330, bottom: far.top + 1040 }
    );
}

#[test]
fn a_resized_box_stays_within_the_work_area_and_the_width_limit() {
    let work = Rect { left: 0, top: 0, right: 1920, bottom: 1040 };
    let wide = Rect { left: 100, top: 100, right: 2000, bottom: 400 };
    let edges = ResizeEdges { right: true, ..ResizeEdges::default() };
    assert_eq!(
        snap_and_constrain_to_work_area(InteractionMode::Resize(edges), wide, &work, MIN_FENCE_HEIGHT, MAX_FENCE_HEIGHT),
        Rect { left: 100, top: 100, right: 1700, bottom: 400 }
    );
}

#[test]
fn sibling_snapping_works_far_from_the_origin() {
    let base = 2_000_000_000;
    let sibling = Rect { left: base, top: -base, right: base + 330, bottom: -base + 280 };
    let moved = Rect { left: base + 335, top: -base + 4, right: base + 665, bottom: -base + 284 };
    let snapped = snap_interaction_rect(InteractionMode::Move, moved, &vec![sibling], MIN_FENCE_HEIGHT, MAX_FENCE_HEIGHT);
    assert_eq!(snapped, Rect { left: base + 330, top: -base, right: base + 660, bottom: -base + 280 });
}
