//! The render target: a color framebuffer sized to the viewport, and its
//! conversion to the row-flipped byte pixel buffer a presentation layer
//! consumes.

use vstd::prelude::*;

verus! {

use vstd::arithmetic::div_mod::lemma_fundamental_div_mod;
use vstd::arithmetic::div_mod::lemma_fundamental_div_mod_converse;
use vstd::arithmetic::div_mod::lemma_mod_bound;

/// One pixel: four color channels of one byte each. A channel byte `v`
/// stands for the intensity `v / 255`, so `255` is full intensity.
#[derive(Clone, Copy, PartialEq, Eq, Structural, Debug)]
pub struct Color {
    pub r: u8,
    pub g: u8,
    pub b: u8,
    pub a: u8,
}

/// The channel of a color selected by its index in `(r, g, b, a)` order.
pub open spec fn spec_channel(c: Color, k: int) -> u8 {
    if k == 0 {
        c.r
    } else if k == 1 {
        c.g
    } else if k == 2 {
        c.b
    } else {
        c.a
    }
}

impl Color {
    /// Build a color from its four channels.
    pub fn new(r: u8, g: u8, b: u8, a: u8) -> (c: Self)
        ensures
            c == (Color { r, g, b, a }),
    {
        Color { r, g, b, a }
    }
}

/// A framebuffer of `width * height` color cells, row-major with row 0 at
/// the logical top. The depth of the scene is not tracked: the target
/// keeps no depth buffer, so overlap is resolved by write order alone.
pub struct RenderTarget {
    pub width: i32,
    pub height: i32,
    pub color_buffer: Vec<Color>,
}

impl RenderTarget {
    /// Well-formedness: positive extents, one buffer cell per screen
    /// cell, and extents small enough that every cell and every byte of
    /// the converted pixel buffer has a machine-representable index.
    pub open spec fn wf(self) -> bool {
        &&& 0 < self.width
        &&& 0 < self.height
        &&& self.color_buffer@.len() == self.width * self.height
        &&& self.width * self.height <= i32::MAX
        &&& self.width * self.height * 4 <= usize::MAX
    }

    /// Allocate a target of the given extents with every cell fully
    /// transparent black.
    pub fn new(width: i32, height: i32) -> (r: Self)
        requires
            0 < width,
            0 < height,
            width * height <= i32::MAX,
            width * height * 4 <= usize::MAX,
        ensures
            r.wf(),
            r.width == width,
            r.height == height,
            forall|i: int|
                0 <= i < r.color_buffer@.len() ==> r.color_buffer@[i] == (Color {
                    r: 0,
                    g: 0,
                    b: 0,
                    a: 0,
                }),
    {
        let n = (width * height) as usize;
        let mut buf: Vec<Color> = Vec::new();
        let mut i: usize = 0;
        while i < n
            invariant
                i <= n,
                buf@.len() == i,
                forall|j: int| 0 <= j < i ==> buf@[j] == (Color { r: 0, g: 0, b: 0, a: 0 }),
            decreases n - i,
        {
            buf.push(Color { r: 0, g: 0, b: 0, a: 0 });
            i = i + 1;
        }
        RenderTarget { width, height, color_buffer: buf }
    }
}

/// The byte at offset `j` of the converted pixel buffer: channel `j % 4`
/// of the framebuffer cell that lands at pixel `j / 4`, whose destination
/// row is the vertical mirror of its source row.
pub open spec fn spec_pixel_byte(width: int, height: int, buf: Seq<Color>, j: int) -> u8 {
    let k = j % 4;
    let p = j / 4;
    let x = p % width;
    let dy = p / width;
    spec_channel(buf[(height - 1 - dy) * width + x], k)
}

/// A row-major cell index is within the buffer whenever its coordinates
/// are within the viewport.
pub proof fn lemma_row_major_bound(width: int, height: int, x: int, y: int)
    requires
        0 <= x < width,
        0 <= y < height,
    ensures
        0 <= y * width + x < width * height,
{
    assert(0 <= y * width && y * width + width <= width * height) by (nonlinear_arith)
        requires
            0 <= y,
            y < height,
            0 < width,
    ;
}

/// Distinct viewport coordinates give distinct row-major cell indices.
pub proof fn lemma_row_major_injective(width: int, x1: int, y1: int, x2: int, y2: int)
    requires
        0 <= x1 < width,
        0 <= x2 < width,
        y1 * width + x1 == y2 * width + x2,
    ensures
        x1 == x2,
        y1 == y2,
{
    let p = y1 * width + x1;
    lemma_fundamental_div_mod_converse(p, width, y1, x1);
    lemma_fundamental_div_mod_converse(p, width, y2, x2);
}

/// Law: where each byte of the pixel buffer comes from. Channel `k` of
/// destination pixel `(x, dy)` is channel `k` of the framebuffer cell
/// `(x, height - 1 - dy)`: columns are kept, rows are mirrored
/// vertically, so destination row 0 shows the last framebuffer row.
pub proof fn lemma_pixel_row_flip(width: int, height: int, buf: Seq<Color>, dy: int, x: int, k: int)
    requires
        0 < width,
        0 < height,
        0 <= dy < height,
        0 <= x < width,
        0 <= k < 4,
    ensures
        spec_pixel_byte(width, height, buf, (dy * width + x) * 4 + k) == spec_channel(
            buf[(height - 1 - dy) * width + x],
            k,
        ),
{
    let p = dy * width + x;
    let j = p * 4 + k;
    lemma_fundamental_div_mod_converse(j, 4, p, k);
    lemma_fundamental_div_mod_converse(p, width, dy, x);
}

/// Law: clearing then converting. When every framebuffer cell holds one
/// color `c`, every byte of the converted pixel buffer is the channel of
/// `c` that its offset selects.
pub proof fn lemma_clear_round_trip(width: int, height: int, buf: Seq<Color>, c: Color)
    requires
        0 < width,
        0 < height,
        buf.len() == width * height,
        forall|i: int| 0 <= i < buf.len() ==> buf[i] == c,
    ensures
        forall|j: int|
            0 <= j < width * height * 4 ==> spec_pixel_byte(width, height, buf, j) == spec_channel(
                c,
                j % 4,
            ),
{
    assert forall|j: int| 0 <= j < width * height * 4 implies spec_pixel_byte(width, height, buf, j)
        == spec_channel(c, j % 4) by {
        let k = j % 4;
        let p = j / 4;
        lemma_fundamental_div_mod(j, 4);
        lemma_mod_bound(j, 4);
        assert(0 <= p < width * height);
        let x = p % width;
        let dy = p / width;
        lemma_fundamental_div_mod(p, width);
        lemma_mod_bound(p, width);
        assert(dy < height) by (nonlinear_arith)
            requires
                width * dy + x == p,
                0 <= x,
                p < width * height,
                0 < width,
        ;
        assert(0 <= dy) by (nonlinear_arith)
            requires
                width * dy + x == p,
                0 <= p,
                x < width,
                0 < width,
        ;
        lemma_row_major_bound(width, height, x, height - 1 - dy);
        assert(buf[(height - 1 - dy) * width + x] == c);
    }
}

impl RenderTarget {
    /// Convert the framebuffer to a byte pixel buffer: four bytes per
    /// pixel in `(r, g, b, a)` order, rows mirrored vertically so that
    /// the first destination row shows the last framebuffer row.
    pub fn color_buffer_to_pixels(&self) -> (r: Vec<u8>)
        requires
            self.wf(),
        ensures
            r@.len() == self.width * self.height * 4,
            forall|j: int|
                0 <= j < r@.len() ==> r@[j] == spec_pixel_byte(
                    self.width as int,
                    self.height as int,
                    self.color_buffer@,
                    j,
                ),
    {
        let w = self.width;
        let h = self.height;
        let mut res: Vec<u8> = Vec::new();
        let mut dy: i32 = 0;
        while dy < h
            invariant
                self.wf(),
                w == self.width,
                h == self.height,
                0 <= dy <= h,
                res@.len() == dy * w * 4,
                forall|j: int|
                    0 <= j < res@.len() ==> res@[j] == spec_pixel_byte(
                        w as int,
                        h as int,
                        self.color_buffer@,
                        j,
                    ),
            decreases h - dy,
        {
            let mut x: i32 = 0;
            while x < w
                invariant
                    self.wf(),
                    w == self.width,
                    h == self.height,
                    0 <= dy < h,
                    0 <= x <= w,
                    res@.len() == (dy * w + x) * 4,
                    forall|j: int|
                        0 <= j < res@.len() ==> res@[j] == spec_pixel_byte(
                            w as int,
                            h as int,
                            self.color_buffer@,
                            j,
                        ),
                decreases w - x,
            {
                proof {
                    lemma_row_major_bound(w as int, h as int, x as int, (h - 1 - dy) as int);
                    lemma_row_major_bound(w as int, h as int, x as int, dy as int);
                    lemma_pixel_row_flip(
                        w as int,
                        h as int,
                        self.color_buffer@,
                        dy as int,
                        x as int,
                        0,
                    );
                    lemma_pixel_row_flip(
                        w as int,
                        h as int,
                        self.color_buffer@,
                        dy as int,
                        x as int,
                        1,
                    );
                    lemma_pixel_row_flip(
                        w as int,
                        h as int,
                        self.color_buffer@,
                        dy as int,
                        x as int,
                        2,
                    );
                    lemma_pixel_row_flip(
                        w as int,
                        h as int,
                        self.color_buffer@,
                        dy as int,
                        x as int,
                        3,
                    );
                }
                let src = ((h - 1 - dy) * w + x) as usize;
                let cell = self.color_buffer[src];
                res.push(cell.r);
                res.push(cell.g);
                res.push(cell.b);
                res.push(cell.a);
                x = x + 1;
            }
            proof {
                assert((dy as int * w as int + w as int) * 4 == ((dy as int + 1) * w as int) * 4)
                    by (nonlinear_arith);
            }
            dy = dy + 1;
        }
        proof {
            assert((h as int * w as int) * 4 == (w as int * h as int) * 4) by (nonlinear_arith);
        }
        res
    }
}

} // verus!
