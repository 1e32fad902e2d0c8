use dcreel::geometry::{Point, Rect};
use dcreel::overlays::{composite_rectangle_overlay, fence_border_overlay, marquee_overlay, selection_overlay};
use dcreel::pixels::rgb;

#[test]
fn selected_item_uses_translucent_blue_instead_of_an_opaque_pale_background() {
    let mut pixels = vec![0; 3 * 3 * 4];
    let overlay = selection_overlay(&Rect { left: 0, top: 0, right: 3, bottom: 3 });
    composite_rectangle_overlay(&mut pixels, 3, 3, &overlay, 255);
    let corner = &pixels[0..4];
    let center = &pixels[(4 * 4)..(4 * 5)];
    assert_eq!(corner[3], 132);
    assert_eq!(center[3], 42);
    assert!(center[..3].iter().all(|channel| *channel < 42));
    assert_ne!(&center[..3], &[42, 42, 42]);
}

#[test]
fn border_visibility_and_opacity_are_independent_from_panel_regions() {
    let bounds = Rect { left: 0, top: 0, right: 3, bottom: 3 };
    assert!(fence_border_overlay(&bounds, rgb(12, 34, 56), false, 255).is_none());
    let border = fence_border_overlay(&bounds, rgb(12, 34, 56), true, 102).unwrap();
    assert_eq!(border.fill_alpha, 0);
    assert_eq!(border.border_alpha, 102);
    let mut pixels = vec![0; 3 * 3 * 4];
    composite_rectangle_overlay(&mut pixels, 3, 3, &border, 255);
    assert_eq!(pixels[3], 102);
    assert_eq!(pixels[(4 * 4) + 3], 0);
}

#[test]
fn ghost_surface_alpha_scales_selection_and_border_overlays() {
    let bounds = Rect { left: 0, top: 0, right: 3, bottom: 3 };
    let mut selection_pixels = vec![0; 3 * 3 * 4];
    composite_rectangle_overlay(&mut selection_pixels, 3, 3, &selection_overlay(&bounds), 51);
    assert_eq!(selection_pixels[3], 26);
    assert_eq!(selection_pixels[(4 * 4) + 3], 8);

    let mut border_pixels = vec![0; 3 * 3 * 4];
    let border = fence_border_overlay(&bounds, rgb(12, 34, 56), true, 255).unwrap();
    composite_rectangle_overlay(&mut border_pixels, 3, 3, &border, 51);
    assert_eq!(border_pixels[3], 51);
    assert_eq!(border_pixels[(4 * 4) + 3], 0);
}

#[test]
fn overlays_outside_the_buffer_change_nothing() {
    let mut pixels = vec![7; 2 * 2 * 4];
    let overlay = selection_overlay(&Rect { left: 5, top: 5, right: 9, bottom: 9 });
    composite_rectangle_overlay(&mut pixels, 2, 2, &overlay, 255);
    assert_eq!(pixels, vec![7; 16]);
    composite_rectangle_overlay(&mut pixels, 0, 2, &overlay, 255);
    assert_eq!(pixels, vec![7; 16]);
}

#[test]
fn marquee_is_clipped_to_the_content_area() {
    let client = Rect { left: 0, top: 0, right: 200, bottom: 200 };
    let overlay = marquee_overlay(&client, Point { x: 100, y: 80 }, Point { x: 0, y: 0 }, 54).unwrap();
    assert_eq!(overlay.bounds, Rect { left: 12, top: 54, right: 101, bottom: 81 });
    assert_eq!(overlay.fill_alpha, 30);
    assert_eq!(overlay.border_alpha, 148);
    assert!(marquee_overlay(&client, Point { x: 0, y: 0 }, Point { x: 5, y: 5 }, 54).is_none());
}
