//! The glyph grid with its parallel depth grid.

use vstd::prelude::*;

verus! {

/// The depth of a cell that nothing has been drawn to. No write lands on a
/// cell with a depth that is not strictly smaller than the stored one, so a
/// write at this depth never lands.
pub const DEPTH_INFINITY: i32 = 0x7fff_ffff;

/// The mathematical content of a framebuffer: both grids in row-major order.
pub struct FrameView<P> {
    pub width: nat,
    pub height: nat,
    pub glyphs: Seq<P>,
    pub depths: Seq<i32>,
    pub background: P,
}

impl<P> FrameView<P> {
    /// Both grids hold exactly `width * height` cells.
    pub open spec fn wf(self) -> bool {
        &&& self.glyphs.len() == self.width * self.height
        &&& self.depths.len() == self.width * self.height
    }

    pub open spec fn in_bounds(self, x: int, y: int) -> bool {
        0 <= x < self.width && 0 <= y < self.height
    }

    /// Row-major position of the cell in column `x` of row `y`.
    pub open spec fn index_of(self, x: int, y: int) -> int {
        y * self.width + x
    }

    pub open spec fn glyph_at(self, x: int, y: int) -> P {
        self.glyphs[self.index_of(x, y)]
    }

    pub open spec fn depth_at(self, x: int, y: int) -> i32 {
        self.depths[self.index_of(x, y)]
    }

    /// The depth test: a write lands iff the cell exists and the new depth is
    /// strictly nearer than the stored one.
    pub open spec fn accepts(self, x: int, y: int, depth: i32) -> bool {
        self.in_bounds(x, y) && depth < self.depth_at(x, y)
    }

    /// The grid after a depth-tested write of `glyph` at `depth` to `(x, y)`.
    pub open spec fn plot(self, x: int, y: int, glyph: P, depth: i32) -> Self {
        if self.accepts(x, y, depth) {
            FrameView {
                glyphs: self.glyphs.update(self.index_of(x, y), glyph),
                depths: self.depths.update(self.index_of(x, y), depth),
                ..self
            }
        } else {
            self
        }
    }

    /// The grid with every glyph reset to the background and every depth to
    /// `DEPTH_INFINITY`.
    pub open spec fn cleared(self) -> Self {
        FrameView {
            glyphs: Seq::new(self.glyphs.len(), |i: int| self.background),
            depths: Seq::new(self.depths.len(), |i: int| DEPTH_INFINITY),
            ..self
        }
    }
}

/// After a clear every cell holds the background glyph at infinite depth.
pub proof fn lemma_cleared_cells<P>(v: FrameView<P>, x: int, y: int)
    requires
        v.wf(),
        v.in_bounds(x, y),
    ensures
        v.cleared().wf(),
        v.cleared().glyph_at(x, y) == v.background,
        v.cleared().depth_at(x, y) == DEPTH_INFINITY,
{
    lemma_index_in_grid(x, y, v.width as int, v.height as int);
}

/// The depth test does not depend on the order of the writes: two writes
/// to one cell at different depths leave the same grid whichever comes
/// first, and where the nearer one passes the test on the grid as it was,
/// the cell ends up with its glyph and its depth.
pub proof fn lemma_depth_test_order<P>(
    v: FrameView<P>,
    x: int,
    y: int,
    near_glyph: P,
    near: i32,
    far_glyph: P,
    far: i32,
)
    requires
        v.wf(),
        near < far,
    ensures
        v.plot(x, y, near_glyph, near).plot(x, y, far_glyph, far) == v.plot(
            x,
            y,
            far_glyph,
            far,
        ).plot(x, y, near_glyph, near),
        v.accepts(x, y, near) ==> {
            &&& v.plot(x, y, far_glyph, far).plot(x, y, near_glyph, near).glyph_at(x, y)
                == near_glyph
            &&& v.plot(x, y, far_glyph, far).plot(x, y, near_glyph, near).depth_at(x, y) == near
        },
{
    let first = v.plot(x, y, near_glyph, near).plot(x, y, far_glyph, far);
    let second = v.plot(x, y, far_glyph, far).plot(x, y, near_glyph, near);
    if v.in_bounds(x, y) {
        lemma_index_in_grid(x, y, v.width as int, v.height as int);
    }
    assert(first.glyphs =~= second.glyphs);
    assert(first.depths =~= second.depths);
}

/// The length of the text that shows a `width` by `height` grid: every row
/// takes `width` glyphs, and a line break stands between two rows.
pub open spec fn frame_len(width: nat, height: nat) -> nat {
    if height == 0 {
        0
    } else {
        (height * (width + 1) - 1) as nat
    }
}

/// The text that shows a grid of glyphs: its rows from top to bottom, one
/// glyph per column, a line break after every row but the last.
pub open spec fn frame_text(v: FrameView<char>) -> Seq<char> {
    let stride = v.width as int + 1;
    Seq::new(
        frame_len(v.width, v.height),
        |i: int|
            if i % stride == v.width as int {
                '\n'
            } else {
                v.glyph_at(i % stride, i / stride)
            },
    )
}

/// Something that can be shown as text.
pub trait Buffer {
    /// The text that shows the buffer.
    spec fn text(&self) -> Seq<char>;

    /// Appends the text that shows the buffer to `writer`.
    fn write_text(&self, writer: &mut String)
        ensures
            final(writer)@ == old(writer)@ + self.text(),
    ;
}

/// `String::push` appends the character to the end of the string.
pub assume_specification[ String::push ](s: &mut String, ch: char)
    ensures
        final(s)@ == old(s)@.push(ch),
;

/// A `width` by `height` grid of cells of type `P`, each with a depth.
pub struct Framebuffer<P> {
    pixels: Vec<P>,
    height: usize,
    width: usize,
    depth: Vec<i32>,
    default: P,
}

impl<P> View for Framebuffer<P> {
    type V = FrameView<P>;

    closed spec fn view(&self) -> FrameView<P> {
        FrameView {
            width: self.width as nat,
            height: self.height as nat,
            glyphs: self.pixels@,
            depths: self.depth@,
            background: self.default,
        }
    }
}

/// The row-major index of a cell of the grid lies inside the grid.
proof fn lemma_index_in_grid(x: int, y: int, width: int, height: int)
    requires
        0 <= x < width,
        0 <= y < height,
    ensures
        0 <= y * width + x < width * height,
{
    assert(y * width <= (height - 1) * width) by (nonlinear_arith)
        requires
            0 <= y <= height - 1,
            0 <= width,
    ;
    assert((height - 1) * width + width == width * height) by (nonlinear_arith);
    assert(0 <= y * width) by (nonlinear_arith)
        requires
            0 <= y,
            0 <= width,
    ;
}

impl<P> Framebuffer<P> {
    #[verifier::type_invariant]
    spec fn inv(self) -> bool {
        self@.wf()
    }
}

impl<P: Copy> Framebuffer<P> {
    /// A grid whose cells all hold `element` at infinite depth; `default` is
    /// the glyph that `clear` resets to.
    pub fn new_with(element: P, width: usize, height: usize, default: P) -> (fb: Self)
        requires
            width * height <= usize::MAX,
        ensures
            fb@.wf(),
            fb@.width == width,
            fb@.height == height,
            fb@.background == default,
            fb@.glyphs == Seq::new((width * height) as nat, |i: int| element),
            fb@.depths == Seq::new((width * height) as nat, |i: int| DEPTH_INFINITY),
    {
        let pix_count: usize = width * height;
        let mut pixels: Vec<P> = Vec::new();
        let mut depth: Vec<i32> = Vec::new();
        let mut i: usize = 0;
        while i < pix_count
            invariant
                i <= pix_count,
                pixels@ == Seq::new(i as nat, |k: int| element),
                depth@ == Seq::new(i as nat, |k: int| DEPTH_INFINITY),
            decreases pix_count - i,
        {
            pixels.push(element);
            depth.push(DEPTH_INFINITY);
            i += 1;
        }
        Framebuffer { pixels, width, height, depth, default }
    }

    fn get_index(&self, x: usize, y: usize) -> (idx: usize)
        requires
            self@.in_bounds(x as int, y as int),
        ensures
            idx == self@.index_of(x as int, y as int),
            idx < self@.glyphs.len(),
            idx < self@.depths.len(),
    {
        let len: usize = self.pixels.len();
        proof {
            use_type_invariant(self);
            lemma_index_in_grid(x as int, y as int, self.width as int, self.height as int);
            assert(0 <= y * self.width) by (nonlinear_arith)
                requires
                    0 <= y,
                    0 <= self.width,
            ;
            assert(y * self.width + x < len);
        }
        y * self.width + x
    }

    /// The depth stored at `(x, y)`, or `None` outside the grid.
    pub fn get_depth(&self, x: usize, y: usize) -> (d: Option<i32>)
        ensures
            d == if self@.in_bounds(x as int, y as int) {
                Some(self@.depth_at(x as int, y as int))
            } else {
                None
            },
    {
        if x >= self.width || y >= self.height {
            return None;
        }
        let idx = self.get_index(x, y);
        Some(self.depth[idx])
    }

    /// The glyph stored at `(x, y)`, or `None` outside the grid.
    pub fn get_pixel(&self, x: usize, y: usize) -> (p: Option<P>)
        ensures
            p == if self@.in_bounds(x as int, y as int) {
                Some(self@.glyph_at(x as int, y as int))
            } else {
                None
            },
    {
        if x >= self.width || y >= self.height {
            return None;
        }
        let idx = self.get_index(x, y);
        Some(self.pixels[idx])
    }

    /// Writes `value` at `depth` to the cell `(x, y)` if that cell exists and
    /// `depth` is strictly nearer than what it holds; otherwise does nothing.
    pub fn set_pixel_with_depth(&mut self, x: i64, y: i64, value: P, depth: i32)
        ensures
            final(self)@.wf(),
            final(self)@ == old(self)@.plot(x as int, y as int, value, depth),
    {
        proof {
            use_type_invariant(&*self);
        }
        if x < 0 || y < 0 {
            return;
        }
        if x as u64 >= self.width as u64 || y as u64 >= self.height as u64 {
            return;
        }
        let col: usize = x as usize;
        let row: usize = y as usize;
        let idx = self.get_index(col, row);
        if depth < self.depth[idx] {
            self.depth[idx] = depth;
            self.pixels[idx] = value;
        }
    }

    /// Resets every glyph to the background and every depth to infinity.
    pub fn clear(&mut self)
        ensures
            final(self)@.wf(),
            final(self)@ == old(self)@.cleared(),
    {
        proof {
            use_type_invariant(&*self);
        }
        let n: usize = self.pixels.len();
        let mut i: usize = 0;
        while i < n
            invariant
                i <= n,
                self@.wf(),
                n == self.pixels@.len(),
                n == self.depth@.len(),
                self.width == old(self).width,
                self.height == old(self).height,
                self.default == old(self).default,
                forall|k: int| 0 <= k < i ==> self.pixels@[k] == self.default,
                forall|k: int| 0 <= k < i ==> self.depth@[k] == DEPTH_INFINITY,
            decreases n - i,
        {
            self.pixels[i] = self.default;
            self.depth[i] = DEPTH_INFINITY;
            i += 1;
        }
        assert(self@.glyphs =~= old(self)@.cleared().glyphs);
        assert(self@.depths =~= old(self)@.cleared().depths);
    }

    pub fn height(&self) -> (h: usize)
        ensures
            h == self@.height,
            self@.wf(),
    {
        proof {
            use_type_invariant(self);
        }
        self.height
    }

    pub fn width(&self) -> (w: usize)
        ensures
            w == self@.width,
            self@.wf(),
    {
        proof {
            use_type_invariant(self);
        }
        self.width
    }
}

/// The position in the frame text of the glyph in column `x` of row `y`.
proof fn lemma_text_position(x: int, y: int, width: int)
    requires
        0 <= x <= width,
        0 <= y,
    ensures
        (y * (width + 1) + x) % (width + 1) == x,
        (y * (width + 1) + x) / (width + 1) == y,
{
    vstd::arithmetic::div_mod::lemma_fundamental_div_mod_converse(
        y * (width + 1) + x,
        width + 1,
        y,
        x,
    );
}

impl Buffer for Framebuffer<char> {
    open spec fn text(&self) -> Seq<char> {
        frame_text(self@)
    }

    fn write_text(&self, writer: &mut String) {
        proof {
            use_type_invariant(self);
        }
        let ghost text = frame_text(self@);
        let ghost stride = self.width as int + 1;
        let mut y: usize = 0;
        while y < self.height
            invariant
                self@.wf(),
                y <= self.height,
                text == frame_text(self@),
                stride == self.width as int + 1,
                writer@ == old(writer)@ + text.take(
                    if y < self.height {
                        y * stride
                    } else {
                        text.len() as int
                    },
                ),
            decreases self.height - y,
        {
            assert(y * stride + stride <= self.height * stride) by (nonlinear_arith)
                requires
                    y + 1 <= self.height,
                    stride >= 1,
            ;
            assert(0 <= y * stride) by (nonlinear_arith)
                requires
                    0 <= y,
                    stride >= 1,
            ;
            let mut x: usize = 0;
            while x < self.width
                invariant
                    self@.wf(),
                    y < self.height,
                    x <= self.width,
                    text == frame_text(self@),
                    stride == self.width as int + 1,
                    0 <= y * stride,
                    y * stride + stride <= self.height * stride,
                    writer@ == old(writer)@ + text.take(y * stride + x),
                decreases self.width - x,
            {
                let idx = self.get_index(x, y);
                proof {
                    lemma_text_position(x as int, y as int, self.width as int);
                    assert(text.take(y * stride + x + 1) =~= text.take(y * stride + x).push(
                        self.pixels@[idx as int],
                    ));
                    assert((old(writer)@ + text.take(y * stride + x)).push(self.pixels@[idx as int])
                        =~= old(writer)@ + text.take(y * stride + x + 1));
                }
                writer.push(self.pixels[idx]);
                x += 1;
            }
            if y + 1 < self.height {
                proof {
                    lemma_text_position(self.width as int, y as int, self.width as int);
                    assert(y * stride + stride + stride <= self.height * stride) by (nonlinear_arith)
                        requires
                            y + 2 <= self.height,
                            stride >= 1,
                    ;
                    assert(text.take(y * stride + stride) =~= text.take(y * stride + self.width).push(
                        '\n',
                    ));
                    assert((old(writer)@ + text.take(y * stride + self.width)).push('\n')
                        =~= old(writer)@ + text.take(y * stride + stride));
                    assert((y + 1) * stride == y * stride + stride) by (nonlinear_arith);
                }
                writer.push('\n');
            } else {
                assert(self.height * stride == y * stride + stride) by (nonlinear_arith)
                    requires
                        self.height == y + 1,
                ;
            }
            y += 1;
        }
        assert(text.take(text.len() as int) =~= text);
        assert(self.height == 0 ==> text.take(0) =~= text);
    }
}

} // verus!
