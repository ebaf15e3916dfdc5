//! The mapping from normalized device coordinates to the screen.

use vstd::prelude::*;
use crate::raster::{ScreenPoint, SUBPIXEL};

verus! {

/// One device unit: a coordinate `c` stands for `c / NDC_ONE`, so the visible
/// square runs from `-NDC_ONE` to `NDC_ONE`.
pub const NDC_ONE: i32 = 65536;

/// The far end of the depth range: a depth `d` stands for `d / DEPTH_ONE`,
/// from zero at the near plane to one at the far plane. Depths are only
/// ever compared and interpolated, so any other scale serves as well.
pub const DEPTH_ONE: i32 = 0x4000_0000;

/// A vertex after the perspective divide: `x` and `y` in steps of
/// `1 / NDC_ONE`, `z` its depth.
#[derive(Clone, Copy, Debug, PartialEq, Eq)]
pub struct NdcPoint {
    pub x: i32,
    pub y: i32,
    pub z: i32,
}

/// `v` held to the range of `i32`.
pub open spec fn clamp_i32(v: int) -> int {
    if v < i32::MIN {
        i32::MIN as int
    } else if v > i32::MAX {
        i32::MAX as int
    } else {
        v
    }
}

/// The share `offset / (2 * NDC_ONE)` of a screen `extent` pixels wide, in
/// subpixel steps, rounded down.
pub open spec fn scaled(offset: int, extent: int) -> int {
    clamp_i32((offset * extent * SUBPIXEL) / (2 * NDC_ONE))
}

/// The screen column of a device `x`: `(x + 1) / 2` of the width.
pub open spec fn screen_x(ndc_x: int, width: int) -> int {
    scaled(ndc_x + NDC_ONE, width)
}

/// The screen row of a device `y`: `(1 - y) / 2` of the height, since rows
/// count downwards.
pub open spec fn screen_y(ndc_y: int, height: int) -> int {
    scaled(NDC_ONE - ndc_y, height)
}

/// Where a device point lies on a screen of the given size.
pub open spec fn projected(point: NdcPoint, width: int, height: int) -> ScreenPoint {
    ScreenPoint {
        x: screen_x(point.x as int, width) as i32,
        y: screen_y(point.y as int, height) as i32,
        z: point.z,
    }
}

fn scale(offset: i64, extent: usize) -> (s: i32)
    requires
        -0x1_0000_0000 <= offset <= 0x1_0000_0000,
    ensures
        s == scaled(offset as int, extent as int),
{
    let span: i128 = extent as i128 * SUBPIXEL as i128;
    assert(-0x1_0000_0000 * 0x100_0000_0000_0000_0000 <= offset * span <= 0x1_0000_0000
        * 0x100_0000_0000_0000_0000) by (nonlinear_arith)
        requires
            -0x1_0000_0000 <= offset <= 0x1_0000_0000,
            0 <= span <= 0x100_0000_0000_0000_0000,
    ;
    assert(offset * extent * SUBPIXEL == offset * span) by (nonlinear_arith)
        requires
            span == extent * SUBPIXEL,
    ;
    let product: i128 = offset as i128 * span;
    let unit: i128 = 2 * NDC_ONE as i128;
    let quotient: i128 = if product >= 0 {
        product / unit
    } else {
        -((unit - 1 - product) / unit)
    };
    assert(quotient as int == (product as int) / (2 * NDC_ONE as int));
    if quotient < i32::MIN as i128 {
        i32::MIN
    } else if quotient > i32::MAX as i128 {
        i32::MAX
    } else {
        quotient as i32
    }
}

/// Maps a device point to the screen of a framebuffer `framebuffer_width` by
/// `framebuffer_height` pixels large: `x` runs rightwards over the width, `y`
/// downwards over the height, and the depth is kept.
pub fn project_to_screen(point: NdcPoint, framebuffer_width: usize, framebuffer_height: usize) -> (p:
    ScreenPoint)
    ensures
        p == projected(point, framebuffer_width as int, framebuffer_height as int),
{
    ScreenPoint {
        x: scale(point.x as i64 + NDC_ONE as i64, framebuffer_width),
        y: scale(NDC_ONE as i64 - point.y as i64, framebuffer_height),
        z: point.z,
    }
}

/// A point of the visible square lands on the screen: its column lies
/// within the width and its row within the height, in subpixel steps.
pub proof fn lemma_visible_on_screen(point: NdcPoint, width: int, height: int)
    requires
        -NDC_ONE <= point.x <= NDC_ONE,
        -NDC_ONE <= point.y <= NDC_ONE,
        0 <= width <= 0x40_0000,
        0 <= height <= 0x40_0000,
    ensures
        0 <= projected(point, width, height).x <= width * SUBPIXEL,
        0 <= projected(point, width, height).y <= height * SUBPIXEL,
{
    lemma_scaled_range(point.x + NDC_ONE, width);
    lemma_scaled_range(NDC_ONE - point.y, height);
}

proof fn lemma_scaled_range(offset: int, extent: int)
    requires
        0 <= offset <= 2 * NDC_ONE,
        0 <= extent <= 0x40_0000,
    ensures
        0 <= scaled(offset, extent) <= extent * SUBPIXEL,
{
    let span = extent * SUBPIXEL;
    let product = offset * extent * SUBPIXEL;
    assert(span == extent * 256);
    assert(0 <= offset * span <= 131072 * span) by (nonlinear_arith)
        requires
            0 <= offset <= 131072,
            0 <= span,
    ;
    assert(product == offset * span) by (nonlinear_arith)
        requires
            span == extent * SUBPIXEL,
            product == offset * extent * SUBPIXEL,
    ;
    assert(0 <= product / 131072 <= span);
    assert(2 * NDC_ONE == 131072);
}

} // verus!
