use dcreel::geometry::Rect;
use dcreel::separation::separate_mapped_rects;

fn rect(left: i32, top: i32, right: i32, bottom: i32) -> Rect {
    Rect { left, top, right, bottom }
}

fn stacked_pair() -> (Vec<Rect>, Vec<Rect>, Vec<Vec<i32>>, Vec<Vec<i32>>) {
    let mapped = vec![rect(100, 100, 400, 300), rect(100, 100, 400, 300)];
    let sources = vec![rect(0, 0, 300, 200), rect(320, 0, 620, 200)];
    let gaps_x = vec![vec![0, -620], vec![20, 0]];
    let gaps_y = vec![vec![0, -200], vec![-200, 0]];
    (mapped, sources, gaps_x, gaps_y)
}

#[test]
fn later_fence_moves_to_the_nearest_free_spot() {
    let (mut mapped, sources, gaps_x, gaps_y) = stacked_pair();
    let work = rect(0, 0, 2000, 2000);
    separate_mapped_rects(&mut mapped, &sources, &work, 148, &gaps_x, &gaps_y, false, false);
    assert_eq!(mapped, vec![rect(100, 100, 400, 300), rect(100, 300, 400, 500)]);
}

#[test]
fn right_anchored_layouts_place_the_rightmost_fence_first() {
    let (mut mapped, sources, gaps_x, gaps_y) = stacked_pair();
    let work = rect(0, 0, 2000, 2000);
    separate_mapped_rects(&mut mapped, &sources, &work, 148, &gaps_x, &gaps_y, true, false);
    assert_eq!(mapped, vec![rect(100, 300, 400, 500), rect(100, 100, 400, 300)]);
}

#[test]
fn fences_that_do_not_overlap_keep_their_positions() {
    let mut mapped = vec![rect(100, 100, 400, 300), rect(500, 100, 800, 300)];
    let sources = vec![rect(0, 0, 300, 200), rect(400, 0, 700, 200)];
    let gaps = vec![vec![0, 0], vec![0, 0]];
    let work = rect(0, 0, 2000, 2000);
    separate_mapped_rects(&mut mapped, &sources, &work, 148, &gaps, &gaps, false, false);
    assert_eq!(mapped, vec![rect(100, 100, 400, 300), rect(500, 100, 800, 300)]);
}
