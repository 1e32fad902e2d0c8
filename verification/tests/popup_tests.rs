use dcreel::geometry::Rect;
use dcreel::popup_layout::{arrange, plan_popups, PopupWindow};

#[test]
fn popup_layout_stays_inside_work_area_without_overlap() {
    for work in [
        Rect { left: 0, top: 0, right: 2880, bottom: 1740 },
        Rect { left: -1920, top: -200, right: 0, bottom: 840 },
        Rect { left: 0, top: 0, right: 800, bottom: 440 },
    ] {
        for scale in [1.0, 1.25, 1.5, 2.0] {
            let rectangles = arrange(
                work,
                &vec![
                    ((420.0 * scale) as i32, (226.0 * scale) as i32),
                    ((380.0 * scale) as i32, (166.0 * scale) as i32),
                ],
                (18.0 * scale) as i32,
            );
            for rect in &rectangles {
                assert!(rect.left >= work.left && rect.top >= work.top);
                assert!(rect.right <= work.right && rect.bottom <= work.bottom);
            }
            let (a, b) = (rectangles[0], rectangles[1]);
            assert!(a.left >= b.right || b.left >= a.right || a.top >= b.bottom || b.top >= a.bottom);
        }
    }
}

#[test]
fn remaining_popup_returns_to_bottom_right() {
    let work = Rect { left: 0, top: 0, right: 1920, bottom: 1040 };
    let rect = arrange(work, &vec![(380, 166)], 18)[0];
    assert_eq!(rect.right, 1902);
    assert_eq!(rect.bottom, 1022);
}

#[test]
fn popups_stack_upwards_when_they_fit() {
    let work = Rect { left: 0, top: 0, right: 1920, bottom: 1040 };
    let rects = arrange(work, &vec![(420, 226), (380, 166)], 18);
    assert_eq!(rects[0], Rect { left: 1482, top: 796, right: 1902, bottom: 1022 });
    assert_eq!(rects[1], Rect { left: 1522, top: 612, right: 1902, bottom: 778 });
    assert!(arrange(work, &vec![], 18).is_empty());
}

#[test]
fn popups_stand_side_by_side_in_a_low_work_area() {
    let work = Rect { left: 0, top: 0, right: 1000, bottom: 300 };
    let rects = arrange(work, &vec![(420, 200), (380, 200)], 18);
    assert_eq!(rects[0].bottom, 282);
    assert_eq!(rects[1].bottom, 282);
    assert_eq!(rects[1].right, rects[0].left - 18);
}

#[test]
fn popups_are_placed_in_a_work_area_far_from_the_origin() {
    let work = Rect { left: -2_000_000, top: -1_000_000, right: -2_000_000 + 1920, bottom: -1_000_000 + 1040 };
    let rects = arrange(work, &vec![(420, 226), (380, 166)], 18);
    assert_eq!(rects[0], Rect { left: -2_000_000 + 1482, top: -1_000_000 + 796, right: -2_000_000 + 1902, bottom: -1_000_000 + 1022 });
    assert_eq!(rects[1], Rect { left: -2_000_000 + 1522, top: -1_000_000 + 612, right: -2_000_000 + 1902, bottom: -1_000_000 + 778 });
}

fn popup(incoming: bool, visible: bool) -> PopupWindow {
    PopupWindow { incoming, visible }
}

#[test]
fn showing_first_popup_follows_the_cursor() {
    let plan = plan_popups(&vec![popup(true, false), popup(false, false)], true).unwrap();
    assert_eq!(plan.arranged, vec![0]);
    assert_eq!(plan.anchor, 0);
    assert!(plan.follow_cursor);
}

#[test]
fn companion_keeps_the_visible_popups_monitor() {
    let plan = plan_popups(&vec![popup(false, true), popup(true, false)], true).unwrap();
    assert_eq!(plan.arranged, vec![0, 1]);
    assert_eq!(plan.anchor, 0);
    assert!(!plan.follow_cursor);
    let plan = plan_popups(&vec![popup(true, false), popup(false, true)], true).unwrap();
    assert_eq!(plan.arranged, vec![0, 1]);
    assert_eq!(plan.anchor, 1);
    assert!(!plan.follow_cursor);
}

#[test]
fn relayout_uses_visible_popups_only() {
    assert!(plan_popups(&vec![popup(true, false), popup(false, false)], false).is_none());
    let plan = plan_popups(&vec![popup(false, false), popup(true, true)], false).unwrap();
    assert_eq!(plan.arranged, vec![1]);
    assert_eq!(plan.anchor, 1);
    assert!(!plan.follow_cursor);
}
