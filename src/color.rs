//! Averaging samples and mapping colors to display bytes.
use vstd::prelude::*;
use crate::vec3::{div_floor, fdiv, Vec3, ONE};

verus! {

/// A displayable color: three 8-bit channels.
#[derive(Copy, Clone, Debug, PartialEq, Eq, Structural)]
pub struct PixelColor {
    pub r: u8,
    pub g: u8,
    pub b: u8,
}

/// A fixed-point channel clamped to `[0, 1]` and scaled to `[0, 255]`, rounded down.
pub open spec fn display_channel(v: int) -> int {
    let c = if v < 0 {
        0
    } else if v > ONE {
        ONE as int
    } else {
        v
    };
    fdiv(c * 255, ONE as int)
}

/// The displayed channel of the average of `n` samples summing to `sum`.
pub open spec fn pixel_channel(sum: int, n: int) -> int {
    display_channel(fdiv(sum, n))
}

/// Maps one fixed-point channel to a byte.
pub fn to_byte(v: i64) -> (r: u8)
    ensures
        r == display_channel(v as int),
{
    let c: i64 = if v < 0 {
        0
    } else if v > ONE {
        ONE
    } else {
        v
    };
    proof {
        assert(0 <= (c * 255) / 10000 <= 255) by (nonlinear_arith)
            requires
                0 <= c <= 10000,
        ;
    }
    div_floor(c as i128 * 255, ONE as i128) as u8
}

/// Averages the sum of `samples` colors and maps it to display range.
pub fn write_color(sum: Vec3, samples: u32) -> (r: PixelColor)
    requires
        samples > 0,
    ensures
        r.r == pixel_channel(sum.x as int, samples as int),
        r.g == pixel_channel(sum.y as int, samples as int),
        r.b == pixel_channel(sum.z as int, samples as int),
{
    PixelColor {
        r: to_byte(average(sum.x, samples)),
        g: to_byte(average(sum.y, samples)),
        b: to_byte(average(sum.z, samples)),
    }
}

/// `sum / n`, rounded down.
fn average(sum: i64, n: u32) -> (r: i64)
    requires
        n > 0,
    ensures
        r == fdiv(sum as int, n as int),
{
    let q = div_floor(sum as i128, n as i128);
    proof {
        let a = sum as int;
        let d = n as int;
        assert(-0x8000000000000000 <= a / d <= 0x7fffffffffffffff) by (nonlinear_arith)
            requires
                -0x8000000000000000 <= a <= 0x7fffffffffffffff,
                d >= 1,
        ;
    }
    q as i64
}

/// Averaging `n` equal samples gives back the displayed sample exactly.
pub proof fn lemma_average_of_equal_samples(c: int, n: int)
    requires
        n > 0,
    ensures
        pixel_channel(n * c, n) == display_channel(c),
{
    assert((n * c) / n == c) by (nonlinear_arith)
        requires
            n > 0,
    ;
}

} // verus!
