//! Values packed into the parameters of window messages: the wheel delta in
//! the high word, pointer coordinates in the two low words, each word a
//! signed 16-bit number.

use vstd::prelude::*;
use crate::geometry::Point;

verus! {

/// A 16-bit word read as a signed number.
pub open spec fn signed_word(w: int) -> int {
    if w >= 0x8000 {
        w - 0x1_0000
    } else {
        w
    }
}

fn signed_word_exec(w: u64) -> (r: i32)
    requires
        w < 0x1_0000,
    ensures
        r == signed_word(w as int),
{
    if w >= 0x8000 {
        w as i32 - 0x1_0000
    } else {
        w as i32
    }
}

/// The wheel movement of a wheel message: the signed high word of its first
/// parameter.
pub fn wheel_delta(wparam: usize) -> (r: i32)
    ensures
        r == signed_word((wparam as int / 0x1_0000) % 0x1_0000),
{
    let high = (wparam as u64 / 0x1_0000) % 0x1_0000;
    signed_word_exec(high)
}

/// The low 32 bits of a message parameter.
pub open spec fn low_bits(lparam: int) -> int {
    lparam % 0x1_0000_0000
}

/// The pointer position of a mouse message: the signed low word of the
/// second parameter is `x`, the signed word above it `y`.
pub fn client_point(lparam: isize) -> (p: Point)
    ensures
        p.x == signed_word(low_bits(lparam as int) % 0x1_0000),
        p.y == signed_word(low_bits(lparam as int) / 0x1_0000),
{
    let wide = lparam as i64;
    let packed: u64 = if wide >= 0 {
        (wide as u64) % 0x1_0000_0000
    } else {
        let m = (-(wide + 1)) as u64 % 0x1_0000_0000;
        assert(low_bits(wide as int) == 0xFFFF_FFFF - m) by (nonlinear_arith)
            requires
                wide < 0,
                m == (-(wide + 1)) % 0x1_0000_0000,
        ;
        0xFFFF_FFFF - m
    };
    Point {
        x: signed_word_exec(packed % 0x1_0000),
        y: signed_word_exec(packed / 0x1_0000),
    }
}

} // verus!
