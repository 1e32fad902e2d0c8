//! Translucent rectangles drawn over the fence surface: the selection, the
//! marquee and the border, and how one is composed into a BGRA buffer.

use vstd::prelude::*;
use crate::geometry::{clamp, max, min, selection_rectangle, Point, Rect};
use crate::grid::selection_content_rect;
use crate::interaction::{bounded, point_bounded, rect_bounded};
use crate::pixels::{blend_exec, blended, colored_pixel, dib_bytes, dib_color, rgb, scaled, scaled_exec, colorref};

verus! {

#[derive(Clone, Copy, Debug, PartialEq, Eq, Structural)]
pub struct RectangleOverlay {
    pub bounds: Rect,
    pub fill_color: u32,
    pub fill_alpha: u8,
    pub border_color: u32,
    pub border_alpha: u8,
}

/// The overlay of a selected item: translucent blue with a stronger border.
pub fn selection_overlay(bounds: &Rect) -> (o: RectangleOverlay)
    ensures
        o == (RectangleOverlay {
            bounds: *bounds,
            fill_color: colorref(91, 144, 184),
            fill_alpha: 42,
            border_color: colorref(91, 144, 184),
            border_alpha: 132,
        }),
{
    let color = rgb(91, 144, 184);
    RectangleOverlay { bounds: *bounds, fill_color: color, fill_alpha: 42, border_color: color, border_alpha: 132 }
}

/// The marquee overlay: the dragged rectangle clipped to the content area,
/// none when nothing of it is left.
pub fn marquee_overlay(client: &Rect, start: Point, current: Point, content_top: i32) -> (o: Option<RectangleOverlay>)
    requires
        rect_bounded(*client),
        bounded(content_top as int),
        point_bounded(start),
        point_bounded(current),
    ensures
        ({
            let selection = Rect {
                left: min(start.x as int, current.x as int) as i32,
                top: min(start.y as int, current.y as int) as i32,
                right: (max(start.x as int, current.x as int) + 1) as i32,
                bottom: (max(start.y as int, current.y as int) + 1) as i32,
            };
            let content = Rect {
                left: (client.left + 12) as i32,
                top: (client.top + content_top) as i32,
                right: max(client.right - 12, client.left + 12) as i32,
                bottom: max(client.bottom - 8, client.top + content_top) as i32,
            };
            let clipped = Rect {
                left: max(selection.left as int, content.left as int) as i32,
                top: max(selection.top as int, content.top as int) as i32,
                right: min(selection.right as int, content.right as int) as i32,
                bottom: min(selection.bottom as int, content.bottom as int) as i32,
            };
            if clipped.left >= clipped.right || clipped.top >= clipped.bottom {
                o is None
            } else {
                o == Some(RectangleOverlay {
                    bounds: clipped,
                    fill_color: colorref(91, 144, 184),
                    fill_alpha: 30,
                    border_color: colorref(91, 144, 184),
                    border_alpha: 148,
                })
            }
        }),
{
    let selection = selection_rectangle(start, current);
    let content = selection_content_rect(client, content_top);
    let clipped = Rect {
        left: if selection.left > content.left { selection.left } else { content.left },
        top: if selection.top > content.top { selection.top } else { content.top },
        right: if selection.right < content.right { selection.right } else { content.right },
        bottom: if selection.bottom < content.bottom { selection.bottom } else { content.bottom },
    };
    if clipped.left >= clipped.right || clipped.top >= clipped.bottom {
        return None;
    }
    let color = rgb(91, 144, 184);
    Some(RectangleOverlay { bounds: clipped, fill_color: color, fill_alpha: 30, border_color: color, border_alpha: 148 })
}

/// The border of a fence, when borders are shown: no fill, the border at
/// `border_alpha` (the opacity preference as an alpha byte).
pub fn fence_border_overlay(bounds: &Rect, color: u32, visible: bool, border_alpha: u8) -> (o: Option<RectangleOverlay>)
    ensures
        visible ==> o == Some(RectangleOverlay { bounds: *bounds, fill_color: color, fill_alpha: 0, border_color: color, border_alpha }),
        !visible ==> o is None,
{
    if visible {
        Some(RectangleOverlay { bounds: *bounds, fill_color: color, fill_alpha: 0, border_color: color, border_alpha })
    } else {
        None
    }
}

/// The bytes after the pixel at `at` got `color` laid over it at `alpha`.
pub open spec fn colored_at(bytes: Seq<u8>, at: int, color: u32, alpha: int) -> Seq<u8> {
    let pixel = colored_pixel(bytes.subrange(at, at + 4), color, alpha);
    Seq::new(bytes.len(), |i: int| if at <= i < at + 4 { pixel[i - at] } else { bytes[i] })
}

fn composite_color_at(destination: &mut [u8], at: usize, color: u32, alpha: u8)
    requires
        at + 4 <= old(destination)@.len(),
    ensures
        final(destination)@ == colored_at(old(destination)@, at as int, color, alpha as int),
{
    let ghost before = destination@;
    let c = dib_color(color);
    let inverse = 255u16 - alpha as u16;
    let a = alpha as u16;
    let c0 = blend_exec(scaled_exec(c[0], a), destination[at], inverse);
    destination[at] = c0;
    let c1 = blend_exec(scaled_exec(c[1], a), destination[at + 1], inverse);
    destination[at + 1] = c1;
    let c2 = blend_exec(scaled_exec(c[2], a), destination[at + 2], inverse);
    destination[at + 2] = c2;
    let c3 = blend_exec(a, destination[at + 3], inverse);
    destination[at + 3] = c3;
    assert(destination@ =~= colored_at(before, at as int, color, alpha as int));
}

/// The clipped bounds of an overlay in a buffer of the given size.
pub open spec fn clipped_bounds(overlay: RectangleOverlay, width: int, height: int) -> (int, int, int, int) {
    (
        clamp(overlay.bounds.left as int, 0, width),
        clamp(overlay.bounds.top as int, 0, height),
        clamp(overlay.bounds.right as int, 0, width),
        clamp(overlay.bounds.bottom as int, 0, height),
    )
}

/// The colour and alpha an overlay gives the pixel at (`x`, `y`): the
/// border on the outermost pixels when it shows, the fill elsewhere.
pub open spec fn overlay_paint(
    overlay: RectangleOverlay,
    surface_alpha: int,
    bounds: (int, int, int, int),
    x: int,
    y: int,
) -> (u32, int) {
    let (left, top, right, bottom) = bounds;
    let border = x == left || x == right - 1 || y == top || y == bottom - 1;
    let border_alpha = scaled(overlay.border_alpha as int, surface_alpha);
    if border && border_alpha > 0 {
        (overlay.border_color, border_alpha)
    } else {
        (overlay.fill_color, scaled(overlay.fill_alpha as int, surface_alpha))
    }
}

/// The byte at `i` of a `width`-pixel-wide BGRA buffer after the overlay is
/// composed into it.
pub open spec fn overlaid_byte(
    bytes: Seq<u8>,
    width: int,
    bounds: (int, int, int, int),
    overlay: RectangleOverlay,
    surface_alpha: int,
    i: int,
) -> u8 {
    let (left, top, right, bottom) = bounds;
    let p = i / 4;
    let x = p % width;
    let y = p / width;
    if left <= x < right && top <= y < bottom {
        let (color, alpha) = overlay_paint(overlay, surface_alpha, bounds, x, y);
        if alpha == 0 {
            bytes[i]
        } else {
            colored_pixel(bytes.subrange(4 * p, 4 * p + 4), color, alpha)[i % 4]
        }
    } else {
        bytes[i]
    }
}

pub open spec fn overlaid(bytes: Seq<u8>, width: int, height: int, overlay: RectangleOverlay, surface_alpha: int) -> Seq<u8> {
    let bounds = clipped_bounds(overlay, width, height);
    if width <= 0 || height <= 0 || bounds.0 >= bounds.2 || bounds.1 >= bounds.3 {
        bytes
    } else {
        Seq::new(bytes.len(), |i: int| overlaid_byte(bytes, width, bounds, overlay, surface_alpha, i))
    }
}

/// Composes the overlay into a BGRA buffer `width` pixels wide and
/// `height` high, scaled by `surface_alpha`.
pub fn composite_rectangle_overlay(destination: &mut [u8], width: i32, height: i32, overlay: &RectangleOverlay, surface_alpha: u8)
    requires
        width > 0 && height > 0 ==> old(destination)@.len() >= 4 * width * height,
    ensures
        final(destination)@ == overlaid(old(destination)@, width as int, height as int, *overlay, surface_alpha as int),
{
    if width <= 0 || height <= 0 {
        return;
    }
    let left = if overlay.bounds.left < 0 { 0 } else if overlay.bounds.left > width { width } else { overlay.bounds.left };
    let top = if overlay.bounds.top < 0 { 0 } else if overlay.bounds.top > height { height } else { overlay.bounds.top };
    let right = if overlay.bounds.right < 0 { 0 } else if overlay.bounds.right > width { width } else { overlay.bounds.right };
    let bottom = if overlay.bounds.bottom < 0 { 0 } else if overlay.bounds.bottom > height { height } else { overlay.bounds.bottom };
    let ghost bounds = (left as int, top as int, right as int, bottom as int);
    assert(bounds == clipped_bounds(*overlay, width as int, height as int));
    if left >= right || top >= bottom {
        return;
    }
    let fill_alpha = scaled_exec(overlay.fill_alpha, surface_alpha as u16) as u8;
    let border_alpha = scaled_exec(overlay.border_alpha, surface_alpha as u16) as u8;
    let w = width as usize;
    let ghost initial = destination@;
    let ghost wi = width as int;
    assert(initial.len() == destination.len());
    let mut y = top;
    while y < bottom
        invariant
            0 <= top <= y <= bottom <= height,
            0 <= left < right <= width,
            w == width,
            wi == width as int,
            bounds == (left as int, top as int, right as int, bottom as int),
            initial.len() >= 4 * width * height,
            initial.len() <= usize::MAX,
            destination@.len() == initial.len(),
            fill_alpha == scaled(overlay.fill_alpha as int, surface_alpha as int),
            border_alpha == scaled(overlay.border_alpha as int, surface_alpha as int),
            forall|i: int| 0 <= i < initial.len() ==> #[trigger] destination@[i] == (if (i / 4) / wi < y {
                overlaid_byte(initial, wi, bounds, *overlay, surface_alpha as int, i)
            } else {
                initial[i]
            }),
        decreases bottom - y,
    {
        let mut x = left;
        while x < right
            invariant
                0 <= top <= y < bottom <= height,
                0 <= left <= x <= right <= width,
                w == width,
                wi == width as int,
                bounds == (left as int, top as int, right as int, bottom as int),
                initial.len() >= 4 * width * height,
                initial.len() <= usize::MAX,
                destination@.len() == initial.len(),
                fill_alpha == scaled(overlay.fill_alpha as int, surface_alpha as int),
                border_alpha == scaled(overlay.border_alpha as int, surface_alpha as int),
                forall|i: int| 0 <= i < initial.len() ==> #[trigger] destination@[i] == (if (i / 4) / wi < y
                    || ((i / 4) / wi == y && (i / 4) % wi < x) {
                    overlaid_byte(initial, wi, bounds, *overlay, surface_alpha as int, i)
                } else {
                    initial[i]
                }),
            decreases right - x,
        {
            let border = x == left || x == right - 1 || y == top || y == bottom - 1;
            let (color, alpha) = if border && border_alpha > 0 {
                (overlay.border_color, border_alpha)
            } else {
                (overlay.fill_color, fill_alpha)
            };
            assert(0 <= y * wi + x && (y * wi + x) * 4 + 4 <= initial.len()) by (nonlinear_arith)
                requires
                    0 <= y < height,
                    0 <= x < wi,
                    wi == width,
                    initial.len() >= 4 * width * height,
            ;
            let p = y as usize * w + x as usize;
            let index = p * 4;
            let ghost before = destination@;
            if alpha != 0 {
                composite_color_at(destination, index, color, alpha);
            }
            proof {
                assert forall|i: int| 0 <= i < initial.len() implies #[trigger] destination@[i] == (if (i / 4) / wi < y
                    || ((i / 4) / wi == y && (i / 4) % wi < x + 1) {
                    overlaid_byte(initial, wi, bounds, *overlay, surface_alpha as int, i)
                } else {
                    initial[i]
                }) by {
                    let q = i / 4;
                    assert(q == p <==> (q / wi == y && q % wi == x)) by (nonlinear_arith)
                        requires
                            p == y * wi + x,
                            0 <= x < wi,
                            q >= 0,
                            wi > 0,
                    ;
                    if q == p {
                        assert(4 * p <= i < 4 * p + 4);
                        assert(before.subrange(4 * p, 4 * p + 4) =~= initial.subrange(4 * p, 4 * p + 4)) by {
                            assert forall|k: int| 4 * p <= k < 4 * p + 4 implies before[k] == initial[k] by {
                                assert(k / 4 == p);
                            }
                        }
                    } else {
                        assert(i < 4 * p || i >= 4 * p + 4);
                    }
                }
            }
            x = x + 1;
        }
        proof {
            assert forall|i: int| 0 <= i < initial.len() implies #[trigger] destination@[i] == (if (i / 4) / wi < y + 1 {
                overlaid_byte(initial, wi, bounds, *overlay, surface_alpha as int, i)
            } else {
                initial[i]
            }) by {
                let q = i / 4;
                if q / wi == y {
                    assert(q % wi < wi);
                    if q % wi >= right {
                        assert(overlaid_byte(initial, wi, bounds, *overlay, surface_alpha as int, i) == initial[i]);
                    }
                }
            }
        }
        y = y + 1;
    }
    proof {
        assert(destination@ =~= overlaid(initial, wi, height as int, *overlay, surface_alpha as int)) by {
            assert forall|i: int| 0 <= i < initial.len() implies destination@[i] == overlaid_byte(initial, wi, bounds, *overlay, surface_alpha as int, i) by {
                let q = i / 4;
                if q / wi >= bottom {
                    assert(overlaid_byte(initial, wi, bounds, *overlay, surface_alpha as int, i) == initial[i]);
                }
            }
        }
    }
}

} // verus!
