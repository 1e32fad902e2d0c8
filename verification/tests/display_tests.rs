use dcreel::display::{
    connected_layout_components, connected_layout_components_with_placements, constrain_layout_rect, display_work_rect, effective_dpi,
    nearest_display_index, rectangle_distance_squared, target_display_index,
};
use dcreel::geometry::Rect;
use dcreel::ipc::DisplayAnchor;

fn test_display(name: &str, left: i32, top: i32, width: i32, height: i32, dpi: u32) -> DisplayAnchor {
    DisplayAnchor {
        device_name: name.into(),
        work_left: left,
        work_top: top,
        work_width: width,
        work_height: height,
        dpi_x: dpi,
        dpi_y: dpi,
        effective_dpi_x: Some(dpi),
        effective_dpi_y: Some(dpi),
    }
}

#[test]
fn groups_join_rectangles_within_the_distance() {
    let rects = vec![
        Rect { left: 0, top: 0, right: 100, bottom: 100 },
        Rect { left: 500, top: 0, right: 600, bottom: 100 },
        Rect { left: 150, top: 0, right: 250, bottom: 100 },
        Rect { left: 300, top: 0, right: 400, bottom: 100 },
    ];
    assert_eq!(connected_layout_components(&rects, 64), vec![vec![0, 2, 3], vec![1]]);
    assert_eq!(connected_layout_components(&rects, 10), vec![vec![0], vec![1], vec![2], vec![3]]);
    assert_eq!(connected_layout_components(&rects, 1000), vec![vec![0, 1, 2, 3]]);
    assert!(connected_layout_components(&vec![], 64).is_empty());
}

#[test]
fn distances_are_measured_between_nearest_edges() {
    let a = Rect { left: 0, top: 0, right: 100, bottom: 100 };
    let b = Rect { left: 103, top: 104, right: 200, bottom: 200 };
    assert_eq!(rectangle_distance_squared(&a, &b), 9 + 16);
    assert_eq!(rectangle_distance_squared(&b, &a), 25);
    assert_eq!(rectangle_distance_squared(&a, &a), 0);
}

#[test]
fn groups_return_to_the_same_monitor_or_the_primary() {
    let displays = vec![
        (test_display(r"\\.\DISPLAY1", 0, 0, 1920, 1040, 96), true),
        (test_display(r"\\.\DISPLAY2", 1920, 0, 1920, 1040, 144), false),
    ];
    assert_eq!(target_display_index(&test_display(r"\\.\DISPLAY2", 0, 0, 1, 1, 96), &displays), Some(1));
    assert_eq!(target_display_index(&test_display(r"\\.\DISPLAY9", 0, 0, 1, 1, 96), &displays), Some(0));
    let no_primary = vec![(test_display("a", 0, 0, 10, 10, 96), false), (test_display("b", 0, 0, 10, 10, 96), false)];
    assert_eq!(target_display_index(&test_display("c", 0, 0, 1, 1, 96), &no_primary), Some(0));
    assert_eq!(target_display_index(&test_display("c", 0, 0, 1, 1, 96), &[]), None);
}

#[test]
fn a_rectangle_belongs_to_the_monitor_it_shares_most_with() {
    let displays = vec![
        (test_display("left", 0, 0, 1920, 1040, 96), true),
        (test_display("right", 1920, 0, 1920, 1040, 96), false),
    ];
    assert_eq!(nearest_display_index(&Rect { left: 1800, top: 10, right: 2200, bottom: 300 }, &displays), Some(1));
    assert_eq!(nearest_display_index(&Rect { left: 100, top: 10, right: 400, bottom: 300 }, &displays), Some(0));
    assert_eq!(nearest_display_index(&Rect { left: 5000, top: 10, right: 5100, bottom: 300 }, &displays), Some(1));
    assert_eq!(nearest_display_index(&Rect { left: 0, top: 0, right: 1, bottom: 1 }, &[]), None);
}

#[test]
fn work_rects_and_dpi_read_the_anchor() {
    let mut anchor = test_display("d", -1920, 0, 0, 1040, 120);
    assert_eq!(display_work_rect(&anchor), Rect { left: -1920, top: 0, right: -1919, bottom: 1040 });
    assert_eq!(effective_dpi(&anchor, true), 120);
    anchor.effective_dpi_y = None;
    anchor.dpi_y = 0;
    assert_eq!(effective_dpi(&anchor, false), 1);
}

#[test]
fn layout_rects_are_clamped_into_the_work_area() {
    let work = Rect { left: 0, top: 0, right: 1920, bottom: 1040 };
    let rect = constrain_layout_rect(Rect { left: 1800, top: 900, right: 2130, bottom: 1180 }, &work, 148);
    assert_eq!(rect, Rect { left: 1590, top: 760, right: 1920, bottom: 1040 });
    let snapped = constrain_layout_rect(Rect { left: 8, top: 5, right: 338, bottom: 285 }, &work, 148);
    assert_eq!(snapped, Rect { left: 0, top: 0, right: 330, bottom: 280 });
    let small = Rect { left: 0, top: 0, right: 200, bottom: 100 };
    assert_eq!(constrain_layout_rect(Rect { left: 50, top: 50, right: 800, bottom: 900 }, &small, 148), small);
}

#[test]
fn saved_groups_hold_distant_fences_together() {
    let rects = vec![
        Rect { left: 0, top: 0, right: 100, bottom: 100 },
        Rect { left: 1000, top: 0, right: 1100, bottom: 100 },
        Rect { left: 2000, top: 0, right: 2100, bottom: 100 },
        Rect { left: 120, top: 0, right: 220, bottom: 100 },
    ];
    let groups = vec![Some("a".to_string()), None, Some("a".to_string()), None];
    assert_eq!(
        connected_layout_components_with_placements(&rects, &groups, 64),
        vec![vec![0, 2, 3], vec![1]]
    );
    let groups = vec![Some("a".to_string()), Some("b".to_string()), Some("c".to_string()), None];
    assert_eq!(
        connected_layout_components_with_placements(&rects, &groups, 64),
        vec![vec![0, 3], vec![1], vec![2]]
    );
}
