//! One frame: clear, cull, shade, map to the screen, rasterize, show.

use vstd::prelude::*;
use crate::framebuffer::{frame_text, lemma_cleared_cells, Buffer, FrameView, Framebuffer};
use crate::raster::{fill_triangle, filled, lemma_depth_in_range, lemma_fill_order, Triangle};
use crate::shading::{map_brightness_to_char, shade_of};
use crate::viewport::{project_to_screen, projected, NdcPoint};

verus! {

/// A triangle as it leaves the view transform and the lighting: the `z` of
/// its face normal in view space (only the sign counts), its brightness in
/// steps of `1 / BRIGHTNESS_ONE`, and its corners in device coordinates.
#[derive(Clone, Copy, Debug, PartialEq, Eq)]
pub struct ShadedTriangle {
    pub normal_z: i32,
    pub brightness: u32,
    pub a: NdcPoint,
    pub b: NdcPoint,
    pub c: NdcPoint,
}

impl ShadedTriangle {
    /// The triangle shows its back: its normal points away from the viewer,
    /// who looks along `-z`.
    pub open spec fn is_culled(self) -> bool {
        self.normal_z < 0
    }

    /// The triangle on a screen `width` by `height` pixels large.
    pub open spec fn on_screen(self, width: int, height: int) -> Triangle {
        Triangle {
            a: projected(self.a, width, height),
            b: projected(self.b, width, height),
            c: projected(self.c, width, height),
        }
    }
}

/// The grid after one triangle has gone through the pipeline: a culled
/// triangle leaves it as it is, any other is filled with the glyph of its
/// brightness.
pub open spec fn drawn(v: FrameView<char>, t: ShadedTriangle) -> FrameView<char> {
    if t.is_culled() {
        v
    } else {
        filled(v, t.on_screen(v.width as int, v.height as int), shade_of(t.brightness))
    }
}

/// The grid after the triangles have gone through the pipeline one after
/// the other.
pub open spec fn rendered(v: FrameView<char>, triangles: Seq<ShadedTriangle>) -> FrameView<char>
    decreases triangles.len(),
{
    if triangles.len() == 0 {
        v
    } else {
        drawn(rendered(v, triangles.drop_last()), triangles.last())
    }
}

/// Two triangles rendered one after the other are drawn one after the
/// other onto the cleared grid.
proof fn lemma_rendered_pair(v: FrameView<char>, first: ShadedTriangle, second: ShadedTriangle)
    ensures
        rendered(v, seq![first, second]) == drawn(drawn(v, first), second),
{
    let both = seq![first, second];
    assert(both.drop_last() =~= seq![first]);
    assert(seq![first].drop_last() =~= Seq::<ShadedTriangle>::empty());
    assert(rendered(v, Seq::<ShadedTriangle>::empty()) == v);
    assert(rendered(v, seq![first]) == drawn(v, first));
}

/// A frame does not depend on the order in which its triangles come: where
/// two triangles that face the viewer cover one pixel at different depths,
/// the frame shows the glyph of the nearer one there, whichever of the two
/// was handed over first.
pub proof fn lemma_render_order(
    v: FrameView<char>,
    near: ShadedTriangle,
    far: ShadedTriangle,
    x: int,
    y: int,
)
    requires
        v.wf(),
        v.in_bounds(x, y),
        !near.is_culled(),
        !far.is_culled(),
        near.on_screen(v.width as int, v.height as int).covers(x, y),
        far.on_screen(v.width as int, v.height as int).covers(x, y),
        near.on_screen(v.width as int, v.height as int).depth_at(x, y) < far.on_screen(
            v.width as int,
            v.height as int,
        ).depth_at(x, y),
    ensures
        rendered(v.cleared(), seq![near, far]).glyph_at(x, y) == shade_of(near.brightness),
        rendered(v.cleared(), seq![far, near]).glyph_at(x, y) == shade_of(near.brightness),
{
    let start = v.cleared();
    let near_t = near.on_screen(v.width as int, v.height as int);
    let far_t = far.on_screen(v.width as int, v.height as int);
    lemma_cleared_cells(v, x, y);
    lemma_depth_in_range(far_t, x, y);
    lemma_rendered_pair(start, near, far);
    lemma_rendered_pair(start, far, near);
    lemma_fill_order(
        start,
        near_t,
        shade_of(near.brightness),
        far_t,
        shade_of(far.brightness),
        x,
        y,
    );
}

/// The stages that follow the view transform, around the framebuffer that
/// they draw to.
pub struct Pipeline<T> {
    framebuffer: Framebuffer<T>,
}

impl<T> View for Pipeline<T> {
    type V = FrameView<T>;

    closed spec fn view(&self) -> FrameView<T> {
        self.framebuffer@
    }
}

impl<T: Copy> Pipeline<T> {
    pub fn new(framebuffer: Framebuffer<T>) -> (pipeline: Self)
        ensures
            pipeline@ == framebuffer@,
    {
        Pipeline { framebuffer }
    }

    /// The framebuffer that the pipeline draws to.
    pub fn framebuffer(&self) -> (framebuffer: &Framebuffer<T>)
        ensures
            framebuffer@ == self@,
    {
        &self.framebuffer
    }
}

impl Pipeline<char> {
    /// Sends one triangle through the pipeline: unless it is culled, it is
    /// mapped to the screen and filled with the glyph of its brightness.
    pub fn draw(&mut self, triangle: &ShadedTriangle)
        ensures
            final(self)@.wf(),
            final(self)@ == drawn(old(self)@, *triangle),
    {
        let width = self.framebuffer.width();
        let height = self.framebuffer.height();
        if triangle.normal_z < 0 {
            return;
        }
        let shade = map_brightness_to_char(triangle.brightness);
        let pa = project_to_screen(triangle.a, width, height);
        let pb = project_to_screen(triangle.b, width, height);
        let pc = project_to_screen(triangle.c, width, height);
        fill_triangle(&mut self.framebuffer, pa, pb, pc, shade);
    }

    /// Renders one frame: clears the framebuffer, sends the triangles
    /// through the pipeline in their order, and returns the text that shows
    /// the result.
    pub fn render(&mut self, triangles: &[ShadedTriangle]) -> (frame: String)
        ensures
            final(self)@.wf(),
            final(self)@ == rendered(old(self)@.cleared(), triangles@),
            frame@ == frame_text(final(self)@),
    {
        self.framebuffer.clear();
        let ghost start = self@;
        let mut i: usize = 0;
        while i < triangles.len()
            invariant
                i <= triangles@.len(),
                self@.wf(),
                self@ == rendered(start, triangles@.take(i as int)),
            decreases triangles@.len() - i,
        {
            proof {
                assert(triangles@.take(i as int + 1).drop_last() =~= triangles@.take(i as int));
            }
            self.draw(&triangles[i]);
            i += 1;
        }
        proof {
            assert(triangles@.take(i as int) =~= triangles@);
        }
        let mut frame = String::new();
        self.framebuffer.write_text(&mut frame);
        frame
    }
}

} // verus!
