use dcreel::geometry::Point;
use dcreel::messages::{client_point, wheel_delta};

#[test]
fn wheel_delta_keeps_signed_high_word() {
    let up = (120_u16 as usize) << 16;
    let down = ((-120_i16) as u16 as usize) << 16;
    assert_eq!(wheel_delta(up), 120);
    assert_eq!(wheel_delta(down), -120);
}

#[test]
fn packed_mouse_coordinates_keep_signed_values() {
    let x = -12_i16;
    let y = 34_i16;
    let packed = u32::from(x as u16) | (u32::from(y as u16) << 16);
    assert_eq!(client_point(packed as isize), Point { x: i32::from(x), y: i32::from(y) });
}

#[test]
fn sign_extended_parameters_decode_the_same_words() {
    assert_eq!(client_point(-1), Point { x: -1, y: -1 });
    let packed = (0xFFFF_0000_u32 | 0x0005) as i32 as isize;
    assert_eq!(client_point(packed), Point { x: 5, y: -1 });
    assert_eq!(wheel_delta(0xFFFF_FFFF_0088_0000_u64 as usize), 0x88);
}
