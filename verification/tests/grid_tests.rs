use dcreel::geometry::{point_in_rect, rects_intersect, selection_rectangle, Point, Rect};
use dcreel::grid::{
    content_top, grid_metrics, scroll_by_wheel, clamped_scroll, WheelScroll, hidden_title_offset, item_cells, item_index_at, navigation_target,
    scale_item_metric, scroll_page_step, scroll_row_for_item, selection_content_rect,
    title_bar_height, wheel_scroll_row, GridMetrics, NavigationDirection, CONTENT_BOTTOM,
    CONTENT_LEFT, CONTENT_RIGHT,
};
use dcreel::interaction::item_drag_crossed_threshold;

#[test]
fn item_grid_and_hit_testing_share_the_same_cells() {
    let client = Rect { left: 0, top: 0, right: 330, bottom: 285 };
    let cells = item_cells(&client, content_top(true), 46, 10, 0);
    assert_eq!(cells.len(), 6);
    assert_eq!(cells[0].index, 0);
    assert_eq!(cells[3].index, 3);

    let target = cells[4].bounds;
    assert_eq!(
        item_index_at(&client, content_top(true), 46, 10, 0, Point { x: target.left + 2, y: target.top + 2 }),
        Some(4)
    );
    assert_eq!(item_index_at(&client, content_top(true), 46, 10, 0, Point { x: 20, y: 20 }), None);
}

#[test]
fn item_grid_distributes_columns_across_the_complete_content_width() {
    let client = Rect { left: 0, top: 0, right: 396, bottom: 285 };
    let metrics = grid_metrics(&client, content_top(true), 46, 3).unwrap();
    assert_eq!(metrics.columns, 3);

    let cells = item_cells(&client, content_top(true), 46, 3, 0);
    assert_eq!(cells.len(), 3);
    assert_eq!(cells[0].bounds.left, CONTENT_LEFT);
    assert_eq!(cells[2].bounds.right, client.right - CONTENT_RIGHT);
    assert_eq!(cells[0].bounds.right, cells[1].bounds.left);
    assert_eq!(cells[1].bounds.right, cells[2].bounds.left);
    assert_eq!(cells[0].bounds.right - cells[0].bounds.left, 124);
    assert_eq!(cells[1].bounds.right - cells[1].bounds.left, 124);
    assert_eq!(cells[2].bounds.right - cells[2].bounds.left, 124);
}

#[test]
fn item_metric_clamps_icon_sizes_and_stays_positive() {
    assert_eq!(scale_item_metric(44, 10), 34);
    assert_eq!(scale_item_metric(44, 200), 61);
    assert_eq!(scale_item_metric(-100, 46), 1);
}

#[test]
fn file_name_metrics_scale_with_the_icon_size() {
    assert_eq!(scale_item_metric(44, 36), 34);
    assert_eq!(scale_item_metric(44, 46), 44);
    assert_eq!(scale_item_metric(44, 64), 61);

    let client = Rect { left: 0, top: 0, right: 1_000, bottom: 600 };
    let small = item_cells(&client, content_top(false), 36, 2, 0);
    let normal = item_cells(&client, content_top(false), 46, 2, 0);
    assert!(small[0].label.bottom - small[0].label.top < normal[0].label.bottom - normal[0].label.top);
    assert!(small[0].label.top - small[0].icon.bottom < normal[0].label.top - normal[0].icon.bottom);
    assert!(small[1].bounds.left - small[0].bounds.left < normal[1].bounds.left - normal[0].bounds.left);
}

#[test]
fn scrolled_grid_draws_and_hits_the_same_later_items() {
    let client = Rect { left: 0, top: 0, right: 330, bottom: 285 };
    let metrics = grid_metrics(&client, content_top(true), 46, 30).unwrap();
    assert_eq!(metrics.columns, 3);
    assert_eq!(metrics.visible_rows, 2);
    assert_eq!(metrics.total_rows, 10);
    assert_eq!(metrics.max_scroll_row, 8);

    let cells = item_cells(&client, content_top(true), 46, 30, 4);
    assert_eq!(cells.len(), 6);
    assert_eq!(cells[0].index, 12);
    assert_eq!(cells[5].index, 17);
    let target = cells[2].bounds;
    assert_eq!(
        item_index_at(&client, content_top(true), 46, 30, 4, Point { x: target.left + 2, y: target.top + 2 }),
        Some(14)
    );
}

#[test]
fn wheel_pages_keep_the_previous_page_last_row_visible() {
    for (visible_rows, expected_step) in [(2, 1), (3, 2), (5, 4)] {
        let metrics = GridMetrics { visible_rows, max_scroll_row: 20, ..GridMetrics::default() };
        assert_eq!(scroll_page_step(visible_rows), expected_step);
        assert_eq!(wheel_scroll_row(0, -1, metrics), expected_step);
        assert_eq!(wheel_scroll_row(expected_step, 1, metrics), 0);
    }
}

#[test]
fn final_wheel_page_stays_on_page_boundary_and_leaves_empty_rows() {
    let content_top = content_top(true);
    let row_height = 46 + scale_item_metric(44, 46);
    let client = Rect { left: 0, top: 0, right: 330, bottom: content_top + row_height * 3 + CONTENT_BOTTOM };
    let metrics = grid_metrics(&client, content_top, 46, 10).unwrap();
    assert_eq!(metrics.columns, 3);
    assert_eq!(metrics.visible_rows, 3);
    assert_eq!(metrics.total_rows, 4);
    assert_eq!(metrics.max_scroll_row, 2);
    assert_eq!(wheel_scroll_row(0, -1, metrics), 2);

    let cells = item_cells(&client, content_top, 46, 10, metrics.max_scroll_row);
    assert_eq!(cells.iter().map(|cell| cell.index).collect::<Vec<_>>(), vec![6, 7, 8, 9]);
    assert!(cells[..3].iter().all(|cell| cell.bounds.top == content_top));
    assert_eq!(cells[3].bounds.top, content_top + row_height);
    assert!(cells.iter().all(|cell| cell.bounds.top < content_top + row_height * 2));
}

#[test]
fn item_drag_waits_until_the_pointer_crosses_the_threshold() {
    let start = Point { x: 100, y: 100 };
    assert!(!item_drag_crossed_threshold(start, Point { x: 105, y: 95 }));
    assert!(item_drag_crossed_threshold(start, Point { x: 106, y: 100 }));
    assert!(item_drag_crossed_threshold(start, Point { x: 100, y: 94 }));
}

#[test]
fn keyboard_navigation_respects_grid_rows_and_edges() {
    assert_eq!(navigation_target(None, 7, 3, NavigationDirection::Right), Some(0));
    assert_eq!(navigation_target(Some(1), 7, 3, NavigationDirection::Right), Some(2));
    assert_eq!(navigation_target(Some(2), 7, 3, NavigationDirection::Down), Some(5));
    assert_eq!(navigation_target(Some(5), 7, 3, NavigationDirection::Down), Some(5));
    assert_eq!(navigation_target(Some(2), 7, 3, NavigationDirection::Up), Some(2));
    assert_eq!(navigation_target(Some(5), 7, 3, NavigationDirection::Up), Some(2));
    assert_eq!(navigation_target(Some(0), 7, 3, NavigationDirection::Left), Some(0));
    assert_eq!(navigation_target(Some(0), 0, 3, NavigationDirection::Down), None);
}

#[test]
fn keyboard_navigation_scrolls_only_to_reveal_the_focus() {
    let metrics = GridMetrics { columns: 3, visible_rows: 2, total_rows: 5, max_scroll_row: 3, ..GridMetrics::default() };
    assert_eq!(scroll_row_for_item(0, 5, metrics), 0);
    assert_eq!(scroll_row_for_item(0, 6, metrics), 1);
    assert_eq!(scroll_row_for_item(3, 2, metrics), 0);
    assert_eq!(scroll_row_for_item(2, 14, metrics), 3);
}

#[test]
fn marquee_rectangle_normalizes_reverse_drag_and_intersection() {
    let marquee = selection_rectangle(Point { x: 100, y: 80 }, Point { x: 20, y: 40 });
    assert_eq!(marquee, Rect { left: 20, top: 40, right: 101, bottom: 81 });
    assert!(rects_intersect(&marquee, &Rect { left: 0, top: 0, right: 30, bottom: 50 }));
    assert!(!rects_intersect(&marquee, &Rect { left: 101, top: 81, right: 120, bottom: 100 }));
}

#[test]
fn title_bar_offsets_follow_the_title_setting() {
    assert_eq!(title_bar_height(true), 48);
    assert_eq!(title_bar_height(false), 16);
    assert_eq!(hidden_title_offset(true), 0);
    assert_eq!(hidden_title_offset(false), 32);
    assert_eq!(content_top(true), 54);
    assert_eq!(content_top(false), 22);
}

#[test]
fn empty_content_area_has_no_grid() {
    let client = Rect { left: 0, top: 0, right: 20, bottom: 285 };
    assert_eq!(grid_metrics(&client, content_top(true), 46, 3), None);
    assert!(item_cells(&client, content_top(true), 46, 3, 0).is_empty());
    assert_eq!(item_index_at(&client, content_top(true), 46, 3, 0, Point { x: 5, y: 60 }), None);
}

#[test]
fn selection_area_never_turns_inside_out() {
    let client = Rect { left: 0, top: 0, right: 10, bottom: 20 };
    let area = selection_content_rect(&client, 54);
    assert_eq!(area, Rect { left: 12, top: 54, right: 12, bottom: 54 });
    let client = Rect { left: 0, top: 0, right: 330, bottom: 285 };
    assert_eq!(selection_content_rect(&client, 54), Rect { left: 12, top: 54, right: 318, bottom: 277 });
    assert!(point_in_rect(Point { x: 12, y: 54 }, &selection_content_rect(&client, 54)));
}

#[test]
fn wheel_scroll_stays_between_first_and_last_row() {
    let metrics = GridMetrics { visible_rows: 4, max_scroll_row: 7, ..GridMetrics::default() };
    assert_eq!(wheel_scroll_row(2, 5, metrics), 0);
    assert_eq!(wheel_scroll_row(2, -5, metrics), 7);
    assert_eq!(wheel_scroll_row(3, -1, metrics), 6);
}

#[test]
fn wheel_movement_scrolls_by_whole_notches_and_keeps_the_rest() {
    let metrics = GridMetrics { columns: 3, row_height: 90, visible_rows: 4, total_rows: 14, max_scroll_row: 10 };
    let start = WheelScroll { scroll_row: 5, remainder: 0 };
    assert_eq!(scroll_by_wheel(start, 240, Some(metrics)), (WheelScroll { scroll_row: 0, remainder: 0 }, true));
    let (partial, taken) = scroll_by_wheel(start, -90, Some(metrics));
    assert_eq!((partial, taken), (WheelScroll { scroll_row: 5, remainder: -90 }, true));
    assert_eq!(scroll_by_wheel(partial, -60, Some(metrics)), (WheelScroll { scroll_row: 8, remainder: -30 }, true));
    assert_eq!(scroll_by_wheel(start, 0, Some(metrics)), (start, false));
    assert_eq!(scroll_by_wheel(start, 120, None), (start, false));
    let still = GridMetrics { max_scroll_row: 0, ..metrics };
    assert_eq!(scroll_by_wheel(WheelScroll { scroll_row: 2, remainder: 40 }, 120, Some(still)), (WheelScroll { scroll_row: 0, remainder: 0 }, false));
}

#[test]
fn scroll_position_is_clamped_after_the_grid_changes() {
    let metrics = GridMetrics { columns: 3, row_height: 90, visible_rows: 4, total_rows: 6, max_scroll_row: 2 };
    let state = WheelScroll { scroll_row: 5, remainder: 30 };
    assert_eq!(clamped_scroll(state, Some(metrics)), WheelScroll { scroll_row: 2, remainder: 30 });
    assert_eq!(clamped_scroll(WheelScroll { scroll_row: 1, remainder: 30 }, Some(metrics)), WheelScroll { scroll_row: 1, remainder: 30 });
    assert_eq!(clamped_scroll(state, None), WheelScroll { scroll_row: 0, remainder: 0 });
}
