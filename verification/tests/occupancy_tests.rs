use dcreel::geometry::Rect;
use dcreel::occupancy::move_group_away_from_occupied;

fn rect(left: i32, top: i32, right: i32, bottom: i32) -> Rect {
    Rect { left, top, right, bottom }
}

#[test]
fn overlapping_group_moves_to_the_nearest_free_position() {
    let mut group = vec![rect(10, 10, 30, 30)];
    let occupied = vec![rect(0, 0, 40, 40)];
    move_group_away_from_occupied(&mut group, &occupied, &rect(0, 0, 100, 100));
    // (10, 40) and (40, 10) are both 30 pixels away; the smaller left edge wins.
    assert_eq!(group, vec![rect(10, 40, 30, 60)]);
}

#[test]
fn group_keeps_its_shape_when_moved() {
    let mut group = vec![rect(10, 10, 20, 20), rect(25, 15, 35, 30)];
    let occupied = vec![rect(0, 0, 50, 12)];
    move_group_away_from_occupied(&mut group, &occupied, &rect(0, 0, 200, 200));
    assert_eq!(group, vec![rect(10, 12, 20, 22), rect(25, 17, 35, 32)]);
}

#[test]
fn group_clear_of_occupied_rectangles_stays() {
    let mut group = vec![rect(60, 60, 80, 80)];
    let occupied = vec![rect(0, 0, 40, 40)];
    move_group_away_from_occupied(&mut group, &occupied, &rect(0, 0, 100, 100));
    assert_eq!(group, vec![rect(60, 60, 80, 80)]);
}

#[test]
fn group_wider_than_the_work_area_stays() {
    let mut group = vec![rect(0, 0, 150, 20)];
    let occupied = vec![rect(0, 0, 40, 40)];
    move_group_away_from_occupied(&mut group, &occupied, &rect(0, 0, 100, 100));
    assert_eq!(group, vec![rect(0, 0, 150, 20)]);
}

#[test]
fn group_with_nowhere_to_go_stays() {
    let mut group = vec![rect(10, 10, 30, 30)];
    let occupied = vec![rect(0, 0, 100, 100)];
    move_group_away_from_occupied(&mut group, &occupied, &rect(0, 0, 100, 100));
    assert_eq!(group, vec![rect(10, 10, 30, 30)]);
}

#[test]
fn empty_group_stays_empty() {
    let mut group: Vec<Rect> = Vec::new();
    move_group_away_from_occupied(&mut group, &vec![rect(0, 0, 10, 10)], &rect(0, 0, 100, 100));
    assert!(group.is_empty());
}
