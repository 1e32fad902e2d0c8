use dcreel::paths::thumbnail_candidate;
use dcreel::pixels::{
    apply_surface_alpha, color_for_name, composite_color_pixel, composite_reconstructed_pixel, content_color_for_name,
    dib_color, fence_colors, hex_nibble, normalize_shell_bgra, parse_hex_color, rgb,
};

#[test]
fn native_color_parser_accepts_arbitrary_rgb_hex() {
    assert_eq!(color_for_name("#12aBef"), rgb(0x12, 0xab, 0xef));
    assert_eq!(content_color_for_name("#0F8342"), rgb(0x0f, 0x83, 0x42));
    assert!(parse_hex_color("#12345").is_none());
    assert!(parse_hex_color("#12XZ89").is_none());
}

#[test]
fn reconstructed_content_alpha_removes_the_rendering_background() {
    let mut transparent_panel = [1, 1, 1, 1];
    composite_reconstructed_pixel(&mut transparent_panel, &[128, 128, 128, 0], &[255, 255, 255, 0], 255);
    assert_eq!(transparent_panel, [128, 128, 128, 128]);

    let mut icon_edge = [1, 1, 1, 1];
    composite_reconstructed_pixel(&mut icon_edge, &[0, 32, 128, 0], &[127, 159, 255, 0], 255);
    assert_eq!(icon_edge, [0, 32, 128, 128]);

    let mut untouched = [1, 1, 1, 1];
    composite_reconstructed_pixel(&mut untouched, &[0, 0, 0, 0], &[255, 255, 255, 0], 255);
    assert_eq!(untouched, [1, 1, 1, 1]);

    let mut ghosted = [1, 1, 1, 1];
    composite_reconstructed_pixel(&mut ghosted, &[255, 255, 255, 0], &[255, 255, 255, 0], 51);
    assert_eq!(ghosted, [51, 51, 51, 51]);
}

#[test]
fn thumbnail_extensions_are_case_insensitive() {
    assert!(thumbnail_candidate("poster.JPEG"));
    assert!(thumbnail_candidate("clip.MP4"));
    assert!(thumbnail_candidate("document.PDF"));
    assert!(!thumbnail_candidate("notes.txt"));
}

#[test]
fn shell_bitmap_alpha_normalization_clears_garbage_and_premultiplies_straight_edges() {
    let mut straight = vec![
        255, 64, 32, 0,
        200, 100, 50, 128,
        30, 20, 10, 255,
    ];
    assert!(normalize_shell_bgra(&mut straight));
    assert_eq!(&straight[0..4], &[0, 0, 0, 0]);
    assert_eq!(&straight[4..8], &[100, 50, 25, 128]);
    assert_eq!(&straight[8..12], &[30, 20, 10, 255]);

    let mut premultiplied = vec![100, 50, 25, 128, 9, 8, 7, 0];
    assert!(normalize_shell_bgra(&mut premultiplied));
    assert_eq!(&premultiplied[0..4], &[100, 50, 25, 128]);
    assert_eq!(&premultiplied[4..8], &[0, 0, 0, 0]);
}

#[test]
fn opaque_free_bitmaps_are_left_alone() {
    let mut pixels = vec![10, 20, 30, 0, 40, 50, 60, 0, 7];
    assert!(!normalize_shell_bgra(&mut pixels));
    assert_eq!(pixels, vec![10, 20, 30, 0, 40, 50, 60, 0, 7]);
}

#[test]
fn named_colors_and_fallbacks() {
    assert_eq!(rgb(1, 2, 3), 0x030201);
    assert_eq!(color_for_name("sage"), rgb(106, 148, 119));
    assert_eq!(color_for_name("graphite"), rgb(84, 84, 88));
    assert_eq!(color_for_name("not a colour"), rgb(226, 119, 99));
    assert_eq!(content_color_for_name("paper"), rgb(245, 239, 229));
    assert_eq!(content_color_for_name("frosted"), rgb(229, 238, 241));
    assert_eq!(content_color_for_name("sky"), rgb(91, 144, 184));
    assert_eq!(fence_colors().len(), 6);
    assert_eq!(fence_colors()[0], ("coral", "珊瑚"));
    assert_eq!(fence_colors()[5], ("graphite", "石墨灰"));
}

#[test]
fn hex_digits_in_either_case() {
    assert_eq!(hex_nibble(b'0'), Some(0));
    assert_eq!(hex_nibble(b'f'), Some(15));
    assert_eq!(hex_nibble(b'C'), Some(12));
    assert_eq!(hex_nibble(b'g'), None);
}

#[test]
fn color_pixels_blend_over_the_destination() {
    assert_eq!(dib_color(rgb(10, 20, 30)), [30, 20, 10]);
    let mut pixel = [100, 100, 100, 100];
    composite_color_pixel(&mut pixel, rgb(255, 0, 0), 255);
    assert_eq!(pixel, [0, 0, 255, 255]);
    let mut pixel = [100, 100, 100, 100];
    composite_color_pixel(&mut pixel, rgb(255, 0, 0), 0);
    assert_eq!(pixel, [100, 100, 100, 100]);
}

#[test]
fn title_and_content_regions_have_independent_opacity() {
    let content = rgb(245, 239, 229);
    let mut pixels = vec![
        99, 119, 226, 0, // title background in BGRA order
        255, 255, 255, 0, // title text
        229, 239, 245, 0, // content background
        52, 57, 61, 0, // content focus or empty-state text
    ];
    apply_surface_alpha(&mut pixels, content, 64, 128, 255, 2, 1, false);
    assert_eq!([pixels[3], pixels[7], pixels[11], pixels[15]], [64, 64, 128, 128]);
    assert_eq!(&pixels[4..8], &[64, 64, 64, 64]);
    assert_eq!(&pixels[8..12], &[115, 120, 123, 128]);
}

#[test]
fn ghost_alpha_keeps_transparent_background_hittable() {
    let content = rgb(245, 239, 229);
    let mut pixels = vec![
        99, 119, 226, 0, // header background in BGRA order
        229, 239, 245, 0, // content background
    ];
    apply_surface_alpha(&mut pixels, content, 1, 255, 51, 1, 1, false);
    assert_eq!(pixels[3], 1);
    assert_eq!(pixels[7], 51);
}

#[test]
fn zero_percent_ghost_alpha_makes_the_complete_surface_transparent() {
    let content = rgb(245, 239, 229);
    let mut pixels = vec![
        99, 119, 226, 0, // header background in BGRA order
        229, 239, 245, 0, // content background
    ];
    apply_surface_alpha(&mut pixels, content, 255, 255, 0, 1, 1, false);
    assert_eq!(pixels, vec![0; 8]);
}

#[test]
fn frosted_material_adds_subtle_grain_only_to_matching_content_pixels() {
    let content = rgb(229, 238, 241);
    let mut pixels = vec![241, 238, 229, 0, 241, 238, 229, 0, 52, 57, 61, 0, 241, 238, 229, 0];
    apply_surface_alpha(&mut pixels, content, 255, 255, 255, 4, 0, true);
    assert_ne!(&pixels[0..3], &[241, 238, 229]);
    assert_eq!(&pixels[8..11], &[52, 57, 61]);
    assert!(pixels.chunks_exact(4).all(|pixel| pixel[3] == 255));
}

#[test]
fn trailing_bytes_of_a_partial_pixel_are_left_alone() {
    let mut pixels = vec![10, 20, 30, 0, 7, 7];
    apply_surface_alpha(&mut pixels, rgb(0, 0, 0), 255, 255, 255, 1, 0, false);
    assert_eq!(pixels, vec![10, 20, 30, 255, 7, 7]);
}

#[test]
fn plain_names_are_read_by_their_last_extension() {
    assert!(thumbnail_candidate("holiday.photo.png"));
    assert!(!thumbnail_candidate(".png"));
    assert!(!thumbnail_candidate("png"));
    assert_eq!(dcreel::paths::display_item_name("report.txt"), Some("report.txt".to_string()));
}
