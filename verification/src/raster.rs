//! Triangle fill on the subpixel grid, with depth interpolation.

use vstd::prelude::*;
use vstd::arithmetic::div_mod::{lemma_fundamental_div_mod, lemma_fundamental_div_mod_converse};
use crate::framebuffer::{FrameView, Framebuffer};

verus! {

/// Subpixel steps per pixel. A screen coordinate `c` lies `c / SUBPIXEL`
/// pixels from the left (or top) edge; pixel `n` has its centre at
/// `n * SUBPIXEL + SUBPIXEL / 2`.
pub const SUBPIXEL: i32 = 256;

/// A vertex on the screen: `x` and `y` in subpixel steps, `z` its depth.
#[derive(Clone, Copy, Debug, PartialEq, Eq)]
pub struct ScreenPoint {
    pub x: i32,
    pub y: i32,
    pub z: i32,
}

/// The edge function of the directed edge from `a` to `b` at the point `c`:
/// the perp-dot product `(c - a) x (b - a)`.
pub open spec fn edge(ax: int, ay: int, bx: int, by: int, cx: int, cy: int) -> int {
    (cx - ax) * (by - ay) - (cy - ay) * (bx - ax)
}

/// The subpixel coordinate of the centre of pixel `pixel`.
pub open spec fn pixel_centre(pixel: int) -> int {
    pixel * SUBPIXEL + SUBPIXEL / 2
}

/// A triangle on the screen.
#[derive(Clone, Copy, Debug, PartialEq, Eq)]
pub struct Triangle {
    pub a: ScreenPoint,
    pub b: ScreenPoint,
    pub c: ScreenPoint,
}

impl Triangle {
    /// Twice the signed area; its sign tells the winding.
    pub open spec fn area(self) -> int {
        edge(
            self.a.x as int,
            self.a.y as int,
            self.b.x as int,
            self.b.y as int,
            self.c.x as int,
            self.c.y as int,
        )
    }

    /// The edge value opposite `a` at the centre of pixel `(x, y)`.
    pub open spec fn w0(self, x: int, y: int) -> int {
        edge(
            self.b.x as int,
            self.b.y as int,
            self.c.x as int,
            self.c.y as int,
            pixel_centre(x),
            pixel_centre(y),
        )
    }

    /// The edge value opposite `b` at the centre of pixel `(x, y)`.
    pub open spec fn w1(self, x: int, y: int) -> int {
        edge(
            self.c.x as int,
            self.c.y as int,
            self.a.x as int,
            self.a.y as int,
            pixel_centre(x),
            pixel_centre(y),
        )
    }

    /// The edge value opposite `c` at the centre of pixel `(x, y)`.
    pub open spec fn w2(self, x: int, y: int) -> int {
        edge(
            self.a.x as int,
            self.a.y as int,
            self.b.x as int,
            self.b.y as int,
            pixel_centre(x),
            pixel_centre(y),
        )
    }

    /// The centre of pixel `(x, y)` lies in the triangle or on its border:
    /// the triangle has an area, and no edge value has the opposite sign.
    pub open spec fn covers(self, x: int, y: int) -> bool {
        ||| self.area() > 0 && self.w0(x, y) >= 0 && self.w1(x, y) >= 0 && self.w2(x, y) >= 0
        ||| self.area() < 0 && self.w0(x, y) <= 0 && self.w1(x, y) <= 0 && self.w2(x, y) <= 0
    }

    /// The depth at the centre of pixel `(x, y)`: the vertex depths weighted
    /// by the barycentric weights `w / area`, rounded down.
    pub open spec fn depth_at(self, x: int, y: int) -> int {
        if self.area() > 0 {
            (self.w0(x, y) * self.a.z + self.w1(x, y) * self.b.z + self.w2(x, y) * self.c.z)
                / self.area()
        } else {
            ((-self.w0(x, y)) * self.a.z + (-self.w1(x, y)) * self.b.z + (-self.w2(x, y))
                * self.c.z) / (-self.area())
        }
    }

    pub open spec fn min_x(self) -> int {
        min3(self.a.x as int, self.b.x as int, self.c.x as int)
    }

    pub open spec fn max_x(self) -> int {
        max3(self.a.x as int, self.b.x as int, self.c.x as int)
    }

    pub open spec fn min_y(self) -> int {
        min3(self.a.y as int, self.b.y as int, self.c.y as int)
    }

    pub open spec fn max_y(self) -> int {
        max3(self.a.y as int, self.b.y as int, self.c.y as int)
    }

    pub open spec fn min_z(self) -> int {
        min3(self.a.z as int, self.b.z as int, self.c.z as int)
    }

    pub open spec fn max_z(self) -> int {
        max3(self.a.z as int, self.b.z as int, self.c.z as int)
    }
}

pub open spec fn min3(a: int, b: int, c: int) -> int {
    if a <= b && a <= c {
        a
    } else if b <= c {
        b
    } else {
        c
    }
}

pub open spec fn max3(a: int, b: int, c: int) -> int {
    if a >= b && a >= c {
        a
    } else if b >= c {
        b
    } else {
        c
    }
}

/// The triangle's write to cell `i` of the grid lands: the cell's centre is
/// covered and the interpolated depth passes the depth test.
pub open spec fn lands(v: FrameView<char>, t: Triangle, i: int) -> bool {
    let x = i % (v.width as int);
    let y = i / (v.width as int);
    t.covers(x, y) && t.depth_at(x, y) < v.depths[i]
}

/// The grid after the triangle has been drawn with the glyph `shade`: every
/// cell that the triangle covers has received one depth-tested write.
pub open spec fn filled(v: FrameView<char>, t: Triangle, shade: char) -> FrameView<char> {
    FrameView {
        glyphs: Seq::new(
            v.glyphs.len(),
            |i: int|
                if lands(v, t, i) {
                    shade
                } else {
                    v.glyphs[i]
                },
        ),
        depths: Seq::new(
            v.depths.len(),
            |i: int|
                if lands(v, t, i) {
                    t.depth_at(i % (v.width as int), i / (v.width as int)) as i32
                } else {
                    v.depths[i]
                },
        ),
        ..v
    }
}

/// The edge values of any point add up to the signed area: the barycentric
/// weights `w0 / area`, `w1 / area`, `w2 / area` sum to one.
pub proof fn lemma_weights_sum(t: Triangle, x: int, y: int)
    ensures
        t.w0(x, y) + t.w1(x, y) + t.w2(x, y) == t.area(),
{
    lemma_edge_sum(
        t.a.x as int,
        t.a.y as int,
        t.b.x as int,
        t.b.y as int,
        t.c.x as int,
        t.c.y as int,
        pixel_centre(x),
        pixel_centre(y),
    );
}

/// `(a - b) * (c - d)` multiplied out.
proof fn lemma_expand(a: int, b: int, c: int, d: int)
    ensures
        (a - b) * (c - d) == a * c - a * d - b * c + b * d,
{
    assert((a - b) * (c - d) == a * c - a * d - b * c + b * d) by (nonlinear_arith);
}

/// The edge function multiplied out.
proof fn lemma_edge_expanded(ax: int, ay: int, bx: int, by: int, cx: int, cy: int)
    ensures
        edge(ax, ay, bx, by, cx, cy) == cx * by - cx * ay - ax * by - cy * bx + cy * ax + ay * bx,
{
    lemma_expand(cx, ax, by, ay);
    lemma_expand(cy, ay, bx, ax);
}

proof fn lemma_edge_sum(x0: int, y0: int, x1: int, y1: int, x2: int, y2: int, cx: int, cy: int)
    ensures
        edge(x1, y1, x2, y2, cx, cy) + edge(x2, y2, x0, y0, cx, cy) + edge(x0, y0, x1, y1, cx, cy)
            == edge(x0, y0, x1, y1, x2, y2),
{
    lemma_edge_expanded(x1, y1, x2, y2, cx, cy);
    lemma_edge_expanded(x2, y2, x0, y0, cx, cy);
    lemma_edge_expanded(x0, y0, x1, y1, cx, cy);
    lemma_edge_expanded(x0, y0, x1, y1, x2, y2);
}

/// With the point moved to the origin, the edge value opposite a corner is
/// the cross product of the other two corners.
proof fn lemma_edge_translated(ax: int, ay: int, bx: int, by: int, cx: int, cy: int)
    ensures
        edge(ax, ay, bx, by, cx, cy) == (bx - cx) * (ay - cy) - (ax - cx) * (by - cy),
{
    lemma_edge_expanded(ax, ay, bx, by, cx, cy);
    lemma_expand(bx, cx, ay, cy);
    lemma_expand(ax, cx, by, cy);
}

/// Three vectors `(a, b)` weighted by the cross products of the other two
/// cancel out.
proof fn lemma_moment_zero(a0: int, b0: int, a1: int, b1: int, a2: int, b2: int)
    ensures
        (a2 * b1 - a1 * b2) * a0 + (a0 * b2 - a2 * b0) * a1 + (a1 * b0 - a0 * b1) * a2 == 0,
        (a2 * b1 - a1 * b2) * b0 + (a0 * b2 - a2 * b0) * b1 + (a1 * b0 - a0 * b1) * b2 == 0,
{
    assert((a2 * b1 - a1 * b2) * a0 == a2 * b1 * a0 - a1 * b2 * a0) by (nonlinear_arith);
    assert((a0 * b2 - a2 * b0) * a1 == a0 * b2 * a1 - a2 * b0 * a1) by (nonlinear_arith);
    assert((a1 * b0 - a0 * b1) * a2 == a1 * b0 * a2 - a0 * b1 * a2) by (nonlinear_arith);
    assert(a2 * b1 * a0 == a0 * b1 * a2) by (nonlinear_arith);
    assert(a1 * b2 * a0 == a0 * b2 * a1) by (nonlinear_arith);
    assert(a2 * b0 * a1 == a1 * b0 * a2) by (nonlinear_arith);
    assert((a2 * b1 - a1 * b2) * b0 == a2 * b1 * b0 - a1 * b2 * b0) by (nonlinear_arith);
    assert((a0 * b2 - a2 * b0) * b1 == a0 * b2 * b1 - a2 * b0 * b1) by (nonlinear_arith);
    assert((a1 * b0 - a0 * b1) * b2 == a1 * b0 * b2 - a0 * b1 * b2) by (nonlinear_arith);
    assert(a2 * b1 * b0 == a2 * b0 * b1) by (nonlinear_arith);
    assert(a1 * b2 * b0 == a1 * b0 * b2) by (nonlinear_arith);
    assert(a0 * b2 * b1 == a0 * b1 * b2) by (nonlinear_arith);
}

/// Weights of one sign, not all zero, cannot cancel offsets that all lie on
/// one side of zero.
proof fn lemma_moment_sign(w0: int, w1: int, w2: int, a0: int, a1: int, a2: int)
    requires
        (w0 >= 0 && w1 >= 0 && w2 >= 0) || (w0 <= 0 && w1 <= 0 && w2 <= 0),
        w0 + w1 + w2 != 0,
        w0 * a0 + w1 * a1 + w2 * a2 == 0,
    ensures
        min3(a0, a1, a2) <= 0 <= max3(a0, a1, a2),
{
    if min3(a0, a1, a2) > 0 {
        if w0 >= 0 && w1 >= 0 && w2 >= 0 {
            assert(w0 * a0 >= w0) by (nonlinear_arith)
                requires
                    w0 >= 0,
                    a0 >= 1,
            ;
            assert(w1 * a1 >= w1) by (nonlinear_arith)
                requires
                    w1 >= 0,
                    a1 >= 1,
            ;
            assert(w2 * a2 >= w2) by (nonlinear_arith)
                requires
                    w2 >= 0,
                    a2 >= 1,
            ;
        } else {
            assert(w0 * a0 <= w0) by (nonlinear_arith)
                requires
                    w0 <= 0,
                    a0 >= 1,
            ;
            assert(w1 * a1 <= w1) by (nonlinear_arith)
                requires
                    w1 <= 0,
                    a1 >= 1,
            ;
            assert(w2 * a2 <= w2) by (nonlinear_arith)
                requires
                    w2 <= 0,
                    a2 >= 1,
            ;
        }
    }
    if max3(a0, a1, a2) < 0 {
        if w0 >= 0 && w1 >= 0 && w2 >= 0 {
            assert(w0 * a0 <= -w0) by (nonlinear_arith)
                requires
                    w0 >= 0,
                    a0 <= -1,
            ;
            assert(w1 * a1 <= -w1) by (nonlinear_arith)
                requires
                    w1 >= 0,
                    a1 <= -1,
            ;
            assert(w2 * a2 <= -w2) by (nonlinear_arith)
                requires
                    w2 >= 0,
                    a2 <= -1,
            ;
        } else {
            assert(w0 * a0 >= -w0) by (nonlinear_arith)
                requires
                    w0 <= 0,
                    a0 <= -1,
            ;
            assert(w1 * a1 >= -w1) by (nonlinear_arith)
                requires
                    w1 <= 0,
                    a1 <= -1,
            ;
            assert(w2 * a2 >= -w2) by (nonlinear_arith)
                requires
                    w2 <= 0,
                    a2 <= -1,
            ;
        }
    }
}

/// A covered pixel has its centre inside the triangle's bounding box.
pub proof fn lemma_covered_in_bounding_box(t: Triangle, x: int, y: int)
    requires
        t.covers(x, y),
    ensures
        t.min_x() <= pixel_centre(x) <= t.max_x(),
        t.min_y() <= pixel_centre(y) <= t.max_y(),
{
    let cx = pixel_centre(x);
    let cy = pixel_centre(y);
    let (x0, y0) = (t.a.x as int, t.a.y as int);
    let (x1, y1) = (t.b.x as int, t.b.y as int);
    let (x2, y2) = (t.c.x as int, t.c.y as int);
    lemma_weights_sum(t, x, y);
    lemma_edge_translated(x1, y1, x2, y2, cx, cy);
    lemma_edge_translated(x2, y2, x0, y0, cx, cy);
    lemma_edge_translated(x0, y0, x1, y1, cx, cy);
    lemma_moment_zero(x0 - cx, y0 - cy, x1 - cx, y1 - cy, x2 - cx, y2 - cy);
    lemma_moment_sign(t.w0(x, y), t.w1(x, y), t.w2(x, y), x0 - cx, x1 - cx, x2 - cx);
    lemma_moment_sign(t.w0(x, y), t.w1(x, y), t.w2(x, y), y0 - cy, y1 - cy, y2 - cy);
}

/// A weighted mean lies between the least and the greatest of its terms:
/// for weights `u >= 0` with sum `den > 0`, the rounded-down quotient of the
/// weighted sum by `den` does.
proof fn lemma_weighted_mean(u0: int, u1: int, u2: int, z0: int, z1: int, z2: int, den: int)
    requires
        u0 >= 0,
        u1 >= 0,
        u2 >= 0,
        den == u0 + u1 + u2,
        den > 0,
    ensures
        min3(z0, z1, z2) <= (u0 * z0 + u1 * z1 + u2 * z2) / den <= max3(z0, z1, z2),
{
    let lo = min3(z0, z1, z2);
    let hi = max3(z0, z1, z2);
    let sum = u0 * z0 + u1 * z1 + u2 * z2;
    assert(u0 * lo <= u0 * z0 <= u0 * hi) by (nonlinear_arith)
        requires
            u0 >= 0,
            lo <= z0 <= hi,
    ;
    assert(u1 * lo <= u1 * z1 <= u1 * hi) by (nonlinear_arith)
        requires
            u1 >= 0,
            lo <= z1 <= hi,
    ;
    assert(u2 * lo <= u2 * z2 <= u2 * hi) by (nonlinear_arith)
        requires
            u2 >= 0,
            lo <= z2 <= hi,
    ;
    assert(u0 * lo + u1 * lo + u2 * lo == den * lo) by (nonlinear_arith)
        requires
            den == u0 + u1 + u2,
    ;
    assert(u0 * hi + u1 * hi + u2 * hi == den * hi) by (nonlinear_arith)
        requires
            den == u0 + u1 + u2,
    ;
    lemma_fundamental_div_mod(sum, den);
    let q = sum / den;
    if q < lo {
        assert(den * q <= den * (lo - 1)) by (nonlinear_arith)
            requires
                den > 0,
                q <= lo - 1,
        ;
        assert(den * (lo - 1) == den * lo - den) by (nonlinear_arith);
    }
    if q > hi {
        assert(den * q >= den * (hi + 1)) by (nonlinear_arith)
            requires
                den > 0,
                q >= hi + 1,
        ;
        assert(den * (hi + 1) == den * hi + den) by (nonlinear_arith);
    }
}

/// The depth interpolated at a covered pixel lies between the least and the
/// greatest vertex depth.
pub proof fn lemma_depth_in_range(t: Triangle, x: int, y: int)
    requires
        t.covers(x, y),
    ensures
        t.min_z() <= t.depth_at(x, y) <= t.max_z(),
{
    lemma_weights_sum(t, x, y);
    if t.area() > 0 {
        lemma_weighted_mean(
            t.w0(x, y),
            t.w1(x, y),
            t.w2(x, y),
            t.a.z as int,
            t.b.z as int,
            t.c.z as int,
            t.area(),
        );
    } else {
        lemma_weighted_mean(
            -t.w0(x, y),
            -t.w1(x, y),
            -t.w2(x, y),
            t.a.z as int,
            t.b.z as int,
            t.c.z as int,
            -t.area(),
        );
    }
}

/// The cell of pixel `(x, y)` in a grid `width` wide is the one at the
/// pixel's row-major index.
proof fn lemma_cell_of_pixel(x: int, y: int, width: int)
    requires
        0 <= x < width,
        0 <= y,
    ensures
        (y * width + x) % width == x,
        (y * width + x) / width == y,
{
    lemma_fundamental_div_mod_converse(y * width + x, width, y, x);
}

/// What drawing a triangle does to one pixel: where the triangle covers the
/// pixel and is nearer there than what the grid holds, the pixel takes the
/// glyph and the interpolated depth; otherwise it stays as it is.
pub proof fn lemma_filled_pixel(v: FrameView<char>, t: Triangle, shade: char, x: int, y: int)
    requires
        v.wf(),
        v.in_bounds(x, y),
    ensures
        filled(v, t, shade).wf(),
        t.covers(x, y) && t.depth_at(x, y) < v.depth_at(x, y) ==> {
            &&& filled(v, t, shade).glyph_at(x, y) == shade
            &&& filled(v, t, shade).depth_at(x, y) == t.depth_at(x, y)
        },
        !(t.covers(x, y) && t.depth_at(x, y) < v.depth_at(x, y)) ==> {
            &&& filled(v, t, shade).glyph_at(x, y) == v.glyph_at(x, y)
            &&& filled(v, t, shade).depth_at(x, y) == v.depth_at(x, y)
        },
{
    let w = v.width as int;
    lemma_cell_of_pixel(x, y, w);
    assert(0 <= y * w + x < v.glyphs.len()) by {
        assert(y * w <= (v.height - 1) * w) by (nonlinear_arith)
            requires
                0 <= y <= v.height - 1,
                0 <= w,
        ;
        assert((v.height - 1) * w + w == v.width * v.height) by (nonlinear_arith)
            requires
                w == v.width,
        ;
        assert(0 <= y * w) by (nonlinear_arith)
            requires
                0 <= y,
                0 <= w,
        ;
    }
    if t.covers(x, y) {
        lemma_depth_in_range(t, x, y);
    }
}

/// The depth test makes the picture independent of the drawing order:
/// where two triangles cover one pixel at different depths, the pixel ends
/// up the same whichever is drawn first, and where the nearer one is
/// nearer than what the grid held, the pixel shows its glyph.
pub proof fn lemma_fill_order(
    v: FrameView<char>,
    near: Triangle,
    near_shade: char,
    far: Triangle,
    far_shade: char,
    x: int,
    y: int,
)
    requires
        v.wf(),
        v.in_bounds(x, y),
        near.covers(x, y),
        far.covers(x, y),
        near.depth_at(x, y) < far.depth_at(x, y),
    ensures
        filled(filled(v, near, near_shade), far, far_shade).glyph_at(x, y) == filled(
            filled(v, far, far_shade),
            near,
            near_shade,
        ).glyph_at(x, y),
        filled(filled(v, near, near_shade), far, far_shade).depth_at(x, y) == filled(
            filled(v, far, far_shade),
            near,
            near_shade,
        ).depth_at(x, y),
        near.depth_at(x, y) < v.depth_at(x, y) ==> {
            &&& filled(filled(v, far, far_shade), near, near_shade).glyph_at(x, y) == near_shade
            &&& filled(filled(v, far, far_shade), near, near_shade).depth_at(x, y)
                == near.depth_at(x, y)
        },
{
    lemma_filled_pixel(v, near, near_shade, x, y);
    lemma_filled_pixel(v, far, far_shade, x, y);
    lemma_filled_pixel(filled(v, near, near_shade), far, far_shade, x, y);
    lemma_filled_pixel(filled(v, far, far_shade), near, near_shade, x, y);
}

/// The largest magnitude of a coordinate handed to `edge_function`.
const COORD_LIMIT: i64 = 0x1_0000_0000;

proof fn lemma_product_bound(p: int, q: int, limit: int)
    requires
        -limit <= p <= limit,
        -limit <= q <= limit,
    ensures
        -(limit * limit) <= p * q <= limit * limit,
{
    assert(-(limit * limit) <= p * q <= limit * limit) by (nonlinear_arith)
        requires
            -limit <= p <= limit,
            -limit <= q <= limit,
    ;
}

/// The edge function `(c - a) x (b - a)`.
fn edge_function(ax: i64, ay: i64, bx: i64, by: i64, cx: i64, cy: i64) -> (e: i128)
    requires
        -COORD_LIMIT <= ax <= COORD_LIMIT,
        -COORD_LIMIT <= ay <= COORD_LIMIT,
        -COORD_LIMIT <= bx <= COORD_LIMIT,
        -COORD_LIMIT <= by <= COORD_LIMIT,
        -COORD_LIMIT <= cx <= COORD_LIMIT,
        -COORD_LIMIT <= cy <= COORD_LIMIT,
    ensures
        e == edge(ax as int, ay as int, bx as int, by as int, cx as int, cy as int),
        -0x8_0000_0000_0000_0000 <= e <= 0x8_0000_0000_0000_0000,
{
    let acx: i128 = (cx - ax) as i128;
    let acy: i128 = (cy - ay) as i128;
    let bax: i128 = (bx - ax) as i128;
    let bay: i128 = (by - ay) as i128;
    proof {
        lemma_product_bound(acx as int, bay as int, 2 * COORD_LIMIT);
        lemma_product_bound(acy as int, bax as int, 2 * COORD_LIMIT);
    }
    acx * bay - acy * bax
}

fn min_of_three(a: i32, b: i32, c: i32) -> (m: i32)
    ensures
        m == min3(a as int, b as int, c as int),
{
    if a <= b && a <= c {
        a
    } else if b <= c {
        b
    } else {
        c
    }
}

fn max_of_three(a: i32, b: i32, c: i32) -> (m: i32)
    ensures
        m == max3(a as int, b as int, c as int),
{
    if a >= b && a >= c {
        a
    } else if b >= c {
        b
    } else {
        c
    }
}

/// The subpixel coordinate of the centre of a pixel.
fn centre_of(pixel: usize) -> (c: i64)
    requires
        pixel <= 0x80_0000,
    ensures
        c == pixel_centre(pixel as int),
        0 <= c <= COORD_LIMIT,
{
    assert(0 <= pixel * SUBPIXEL <= 0x80_0000 * 256) by (nonlinear_arith)
        requires
            0 <= pixel <= 0x80_0000,
            SUBPIXEL == 256,
    ;
    pixel as i64 * SUBPIXEL as i64 + (SUBPIXEL / 2) as i64
}

/// The depth at a covered pixel, from its three edge values.
fn interpolate_depth(
    t: Triangle,
    area: i128,
    w0: i128,
    w1: i128,
    w2: i128,
    Ghost(x): Ghost<int>,
    Ghost(y): Ghost<int>,
) -> (z: i32)
    requires
        t.covers(x, y),
        area == t.area(),
        w0 == t.w0(x, y),
        w1 == t.w1(x, y),
        w2 == t.w2(x, y),
        -0x8_0000_0000_0000_0000 <= area <= 0x8_0000_0000_0000_0000,
    ensures
        z == t.depth_at(x, y),
{
    proof {
        lemma_weights_sum(t, x, y);
        lemma_depth_in_range(t, x, y);
    }
    let (u0, u1, u2, den): (i128, i128, i128, i128) = if area > 0 {
        (w0, w1, w2, area)
    } else {
        (-w0, -w1, -w2, -area)
    };
    // Depths are shifted to be non-negative, so that the division rounds down.
    let s0: i128 = t.a.z as i128 + 0x8000_0000;
    let s1: i128 = t.b.z as i128 + 0x8000_0000;
    let s2: i128 = t.c.z as i128 + 0x8000_0000;
    let ghost sum = u0 * t.a.z + u1 * t.b.z + u2 * t.c.z;
    proof {
        assert(0 <= u0 * s0 <= 0x8_0000_0000_0000_0000 * 0x1_0000_0000) by (nonlinear_arith)
            requires
                0 <= u0 <= 0x8_0000_0000_0000_0000,
                0 <= s0 <= 0x1_0000_0000,
        ;
        assert(0 <= u1 * s1 <= 0x8_0000_0000_0000_0000 * 0x1_0000_0000) by (nonlinear_arith)
            requires
                0 <= u1 <= 0x8_0000_0000_0000_0000,
                0 <= s1 <= 0x1_0000_0000,
        ;
        assert(0 <= u2 * s2 <= 0x8_0000_0000_0000_0000 * 0x1_0000_0000) by (nonlinear_arith)
            requires
                0 <= u2 <= 0x8_0000_0000_0000_0000,
                0 <= s2 <= 0x1_0000_0000,
        ;
        assert(u0 * s0 + u1 * s1 + u2 * s2 == sum + den * 0x8000_0000) by (nonlinear_arith)
            requires
                s0 == t.a.z + 0x8000_0000,
                s1 == t.b.z + 0x8000_0000,
                s2 == t.c.z + 0x8000_0000,
                sum == u0 * t.a.z + u1 * t.b.z + u2 * t.c.z,
                den == u0 + u1 + u2,
        ;
        lemma_fundamental_div_mod(sum, den as int);
        assert(sum + den * 0x8000_0000 == (sum / (den as int) + 0x8000_0000) * den + sum % (
        den as int)) by (nonlinear_arith)
            requires
                sum == den * (sum / (den as int)) + sum % (den as int),
        ;
        lemma_fundamental_div_mod_converse(
            sum + den * 0x8000_0000,
            den as int,
            sum / (den as int) + 0x8000_0000,
            sum % (den as int),
        );
        assert(sum / (den as int) == t.depth_at(x, y));
    }
    let shifted: i128 = (u0 * s0 + u1 * s1 + u2 * s2) / den;
    (shifted - 0x8000_0000) as i32
}

/// Cell `i` of a grid `width` wide comes before column `col` of row `row`
/// in row-major order.
spec fn before(width: int, i: int, row: int, col: int) -> bool {
    i / width < row || (i / width == row && i % width < col)
}

/// The grid while the triangle is being drawn: the cells before column `col`
/// of row `row` are as in `filled`, the others untouched.
spec fn filled_before(v: FrameView<char>, t: Triangle, shade: char, row: int, col: int)
    -> FrameView<char> {
    FrameView {
        glyphs: Seq::new(
            v.glyphs.len(),
            |i: int|
                if before(v.width as int, i, row, col) && lands(v, t, i) {
                    shade
                } else {
                    v.glyphs[i]
                },
        ),
        depths: Seq::new(
            v.depths.len(),
            |i: int|
                if before(v.width as int, i, row, col) && lands(v, t, i) {
                    t.depth_at(i % (v.width as int), i / (v.width as int)) as i32
                } else {
                    v.depths[i]
                },
        ),
        ..v
    }
}

/// The rows and columns of pixels that a triangle's bounding box meets.
spec fn in_box(t: Triangle, x: int, y: int) -> bool {
    &&& t.min_x() <= pixel_centre(x) <= t.max_x()
    &&& t.min_y() <= pixel_centre(y) <= t.max_y()
}

/// Two stages of drawing show the same grid when no cell that the triangle
/// covers lies between them.
proof fn lemma_same_stage(
    v: FrameView<char>,
    t: Triangle,
    shade: char,
    row1: int,
    col1: int,
    row2: int,
    col2: int,
)
    requires
        v.wf(),
        forall|i: int|
            0 <= i < v.glyphs.len() && t.covers(i % (v.width as int), i / (v.width as int)) ==> (
            before(v.width as int, i, row1, col1) <==> before(v.width as int, i, row2, col2)),
    ensures
        filled_before(v, t, shade, row1, col1) == filled_before(v, t, shade, row2, col2),
{
    let a = filled_before(v, t, shade, row1, col1);
    let b = filled_before(v, t, shade, row2, col2);
    assert(a.glyphs =~= b.glyphs);
    assert(a.depths =~= b.depths);
}

/// Drawing is complete once every covered cell has been passed.
proof fn lemma_last_stage(v: FrameView<char>, t: Triangle, shade: char, row: int, col: int)
    requires
        v.wf(),
        forall|i: int|
            0 <= i < v.glyphs.len() && t.covers(i % (v.width as int), i / (v.width as int))
                ==> before(v.width as int, i, row, col),
    ensures
        filled_before(v, t, shade, row, col) == filled(v, t, shade),
{
    let a = filled_before(v, t, shade, row, col);
    let b = filled(v, t, shade);
    assert(a.glyphs =~= b.glyphs);
    assert(a.depths =~= b.depths);
}

/// Nothing has been drawn as long as no covered cell has been passed.
proof fn lemma_first_stage(v: FrameView<char>, t: Triangle, shade: char, row: int, col: int)
    requires
        v.wf(),
        forall|i: int|
            0 <= i < v.glyphs.len() && t.covers(i % (v.width as int), i / (v.width as int))
                ==> !before(v.width as int, i, row, col),
    ensures
        filled_before(v, t, shade, row, col) == v,
{
    let a = filled_before(v, t, shade, row, col);
    assert(a.glyphs =~= v.glyphs);
    assert(a.depths =~= v.depths);
}

/// One step of drawing: the depth-tested write to a covered pixel `(x, y)`
/// takes the grid from the stage before that pixel to the stage after it,
/// and over an uncovered pixel the two stages are the same.
proof fn lemma_next_stage(v: FrameView<char>, t: Triangle, shade: char, x: int, y: int)
    requires
        v.wf(),
        v.in_bounds(x, y),
    ensures
        t.covers(x, y) ==> filled_before(v, t, shade, y, x).plot(
            x,
            y,
            shade,
            t.depth_at(x, y) as i32,
        ) == filled_before(v, t, shade, y, x + 1),
        !t.covers(x, y) ==> filled_before(v, t, shade, y, x) == filled_before(
            v,
            t,
            shade,
            y,
            x + 1,
        ),
{
    let w = v.width as int;
    let idx = y * w + x;
    let cur = filled_before(v, t, shade, y, x);
    let next = filled_before(v, t, shade, y, x + 1);
    lemma_fundamental_div_mod_converse(idx, w, y, x);
    assert(0 <= idx < v.glyphs.len()) by {
        assert(y * w <= (v.height - 1) * w) by (nonlinear_arith)
            requires
                0 <= y <= v.height - 1,
                0 <= w,
        ;
        assert((v.height - 1) * w + w == v.height * w) by (nonlinear_arith);
        assert(0 <= y * w) by (nonlinear_arith)
            requires
                0 <= y,
                0 <= w,
        ;
        assert(v.width * v.height == v.height * w) by (nonlinear_arith)
            requires
                w == v.width,
        ;
    }
    assert forall|i: int| 0 <= i < v.glyphs.len() && i != idx implies (before(w, i, y, x)
        <==> before(w, i, y, x + 1)) by {
        lemma_fundamental_div_mod(i, w);
        assert(w * (i / w) == (i / w) * w) by (nonlinear_arith);
    }
    if t.covers(x, y) {
        lemma_depth_in_range(t, x, y);
        let after = cur.plot(x, y, shade, t.depth_at(x, y) as i32);
        assert(after.glyphs =~= next.glyphs);
        assert(after.depths =~= next.depths);
    } else {
        assert(cur.glyphs =~= next.glyphs);
        assert(cur.depths =~= next.depths);
    }
}

/// Every cell of the grid that the triangle covers lies in the given rows
/// and columns.
spec fn covered_within(
    v: FrameView<char>,
    t: Triangle,
    x_lo: int,
    x_hi: int,
    y_lo: int,
    y_hi: int,
) -> bool {
    forall|i: int|
        0 <= i < v.glyphs.len() && #[trigger] t.covers(i % (v.width as int), i / (v.width as int))
            ==> x_lo <= i % (v.width as int) <= x_hi && y_lo <= i / (v.width as int) <= y_hi
}

/// The pixels of the grid that the triangle covers lie in the rows and
/// columns that its bounding box meets.
proof fn lemma_covered_within_box(v: FrameView<char>, t: Triangle)
    requires
        v.wf(),
    ensures
        forall|i: int|
            0 <= i < v.glyphs.len() && #[trigger] t.covers(i % (v.width as int), i / (v.width as int))
                ==> {
                &&& in_box(t, i % (v.width as int), i / (v.width as int))
                &&& v.in_bounds(i % (v.width as int), i / (v.width as int))
            },
{
    let w = v.width as int;
    assert forall|i: int| 0 <= i < v.glyphs.len() && #[trigger] t.covers(i % w, i / w) implies in_box(
        t,
        i % w,
        i / w,
    ) && v.in_bounds(i % w, i / w) by {
        lemma_covered_in_bounding_box(t, i % w, i / w);
        lemma_fundamental_div_mod(i, w);
        if i / w >= v.height {
            assert(w * (i / w) >= w * v.height) by (nonlinear_arith)
                requires
                    w > 0,
                    i / w >= v.height,
            ;
        }
        if i / w < 0 {
            assert(w * (i / w) <= -w) by (nonlinear_arith)
                requires
                    w > 0,
                    i / w <= -1,
            ;
        }
    }
}

/// Draws the triangle `a b c` with the glyph `shade`: every cell whose
/// centre the triangle covers receives one depth-tested write at the depth
/// interpolated from the corners. A triangle without area draws nothing.
pub fn fill_triangle(
    framebuffer: &mut Framebuffer<char>,
    a: ScreenPoint,
    b: ScreenPoint,
    c: ScreenPoint,
    shade: char,
)
    ensures
        final(framebuffer)@.wf(),
        final(framebuffer)@ == filled(old(framebuffer)@, (Triangle { a, b, c }), shade),
{
    let t = Triangle { a, b, c };
    let ghost v0 = framebuffer@;
    let width = framebuffer.width();
    let height = framebuffer.height();
    let min_x = min_of_three(a.x, b.x, c.x);
    let max_x = max_of_three(a.x, b.x, c.x);
    let min_y = min_of_three(a.y, b.y, c.y);
    let max_y = max_of_three(a.y, b.y, c.y);
    let area = edge_function(
        a.x as i64,
        a.y as i64,
        b.x as i64,
        b.y as i64,
        c.x as i64,
        c.y as i64,
    );
    proof {
        lemma_covered_within_box(v0, t);
    }
    if area == 0 || width == 0 || height == 0 || max_x < 0 || max_y < 0 {
        proof {
            lemma_first_stage(v0, t, shade, 0, 0);
            lemma_last_stage(v0, t, shade, 0, 0);
        }
        return;
    }
    let x_lo: usize = if min_x <= 0 {
        0
    } else {
        (min_x / SUBPIXEL) as usize
    };
    let y_lo: usize = if min_y <= 0 {
        0
    } else {
        (min_y / SUBPIXEL) as usize
    };
    let x_top: usize = (max_x / SUBPIXEL) as usize;
    let y_top: usize = (max_y / SUBPIXEL) as usize;
    let x_hi: usize = if x_top >= width {
        width - 1
    } else {
        x_top
    };
    let y_hi: usize = if y_top >= height {
        height - 1
    } else {
        y_top
    };
    assert(covered_within(v0, t, x_lo as int, x_hi as int, y_lo as int, y_hi as int));
    if x_lo > x_hi || y_lo > y_hi {
        proof {
            lemma_first_stage(v0, t, shade, 0, 0);
            lemma_last_stage(v0, t, shade, 0, 0);
        }
        return;
    }
    proof {
        lemma_first_stage(v0, t, shade, y_lo as int, 0);
    }
    let mut y: usize = y_lo;
    while y <= y_hi
        invariant
            v0.wf(),
            v0.width == width,
            v0.height == height,
            t == (Triangle { a, b, c }),
            area == t.area(),
            area != 0,
            -0x8_0000_0000_0000_0000 <= area <= 0x8_0000_0000_0000_0000,
            covered_within(v0, t, x_lo as int, x_hi as int, y_lo as int, y_hi as int),
            x_lo <= x_hi < width,
            x_hi <= 0x80_0000,
            y_lo <= y <= y_hi + 1,
            y_hi < height,
            y_hi <= 0x80_0000,
            framebuffer@.wf(),
            framebuffer@ == filled_before(v0, t, shade, y as int, 0),
        decreases y_hi + 1 - y,
    {
        proof {
            lemma_same_stage(v0, t, shade, y as int, 0, y as int, x_lo as int);
        }
        let cy = centre_of(y);
        let mut x: usize = x_lo;
        while x <= x_hi
            invariant
                v0.wf(),
                v0.width == width,
                v0.height == height,
                t == (Triangle { a, b, c }),
                area == t.area(),
                area != 0,
                -0x8_0000_0000_0000_0000 <= area <= 0x8_0000_0000_0000_0000,
                x_lo <= x <= x_hi + 1,
                x_hi < width,
                x_hi <= 0x80_0000,
                y <= y_hi < height,
                y_hi <= 0x80_0000,
                cy == pixel_centre(y as int),
                framebuffer@.wf(),
                framebuffer@ == filled_before(v0, t, shade, y as int, x as int),
            decreases x_hi + 1 - x,
        {
            let cx = centre_of(x);
            let w0 = edge_function(b.x as i64, b.y as i64, c.x as i64, c.y as i64, cx, cy);
            let w1 = edge_function(c.x as i64, c.y as i64, a.x as i64, a.y as i64, cx, cy);
            let w2 = edge_function(a.x as i64, a.y as i64, b.x as i64, b.y as i64, cx, cy);
            proof {
                lemma_next_stage(v0, t, shade, x as int, y as int);
            }
            if (area > 0 && w0 >= 0 && w1 >= 0 && w2 >= 0) || (area < 0 && w0 <= 0 && w1 <= 0 && w2
                <= 0) {
                let z = interpolate_depth(t, area, w0, w1, w2, Ghost(x as int), Ghost(y as int));
                framebuffer.set_pixel_with_depth(x as i64, y as i64, shade, z);
            }
            x += 1;
        }
        proof {
            lemma_same_stage(v0, t, shade, y as int, x_hi as int + 1, y as int + 1, 0);
        }
        y += 1;
    }
    proof {
        lemma_last_stage(v0, t, shade, y_hi as int + 1, 0);
    }
}

} // verus!
