//! The renderer: clearing the target and rasterizing indexed triangles
//! into it, pixel by pixel, in submission order. No depth test is made:
//! where triangles overlap, the one submitted last wins.

use vstd::prelude::*;

use crate::raster::edge_value;
use crate::raster::is_point_in_triangle;
use crate::raster::lemma_outside_bounding_box;
use crate::raster::max3;
use crate::raster::min3;
use crate::raster::spec_bound_hi;
use crate::raster::spec_bound_lo;
use crate::raster::spec_point_in_triangle;
use crate::raster::triangle_bounds;
use crate::render_target::lemma_row_major_bound;
use crate::render_target::lemma_row_major_injective;
use crate::render_target::Color;
use crate::render_target::RenderTarget;
use crate::vmath::IVec2;

verus! {

use vstd::arithmetic::div_mod::lemma_fundamental_div_mod;
use vstd::arithmetic::div_mod::lemma_mod_bound;

/// The framebuffer cell a viewport point selects, row-major.
pub open spec fn pixel_at(buf: Seq<Color>, width: int, p: IVec2) -> Color {
    buf[p.y * width + p.x]
}

/// Whether rasterizing the triangle `(a, b, c)` writes the viewport
/// point `p`: `p` lies inside the triangle's clamped bounding box and
/// passes the membership test. The clamped box never collapses to
/// nothing, so a degenerate triangle whose edge tests accept every point
/// still writes its whole clamped box.
pub open spec fn tri_covers(
    a: IVec2,
    b: IVec2,
    c: IVec2,
    width: int,
    height: int,
    p: IVec2,
) -> bool {
    &&& spec_bound_lo(a.x as int, b.x as int, c.x as int, width) <= p.x
    &&& p.x <= spec_bound_hi(a.x as int, b.x as int, c.x as int, width)
    &&& spec_bound_lo(a.y as int, b.y as int, c.y as int, height) <= p.y
    &&& p.y <= spec_bound_hi(a.y as int, b.y as int, c.y as int, height)
    &&& spec_point_in_triangle(p, a, b, c)
}

/// The color of viewport point `p` after the first `n` triangles of an
/// indexed triangle list are rasterized over a cell that started as
/// `base`: the color of the last of those triangles that covers `p`, or
/// `base` when none does.
pub open spec fn painted_color(
    points: Seq<IVec2>,
    indices: Seq<u32>,
    colors: Seq<Color>,
    width: int,
    height: int,
    n: int,
    p: IVec2,
    base: Color,
) -> Color
    decreases n,
{
    if n <= 0 {
        base
    } else {
        let a = points[indices[3 * (n - 1)] as int];
        let b = points[indices[3 * (n - 1) + 1] as int];
        let c = points[indices[3 * (n - 1) + 2] as int];
        if tri_covers(a, b, c, width, height, p) {
            colors[n - 1]
        } else {
            painted_color(points, indices, colors, width, height, n - 1, p, base)
        }
    }
}

/// Rasterize one screen triangle into the target with one color: every
/// viewport point the triangle covers takes `color`, every other cell
/// keeps its value.
pub fn raster_triangle(target: &mut RenderTarget, a: IVec2, b: IVec2, c: IVec2, color: Color)
    requires
        old(target).wf(),
    ensures
        final(target).wf(),
        final(target).width == old(target).width,
        final(target).height == old(target).height,
        forall|p: IVec2|
            #![trigger pixel_at(final(target).color_buffer@, final(target).width as int, p)]
            0 <= p.x < final(target).width && 0 <= p.y < final(target).height ==> pixel_at(
                final(target).color_buffer@,
                final(target).width as int,
                p,
            ) == (if tri_covers(a, b, c, final(target).width as int, final(target).height as int, p) {
                color
            } else {
                pixel_at(old(target).color_buffer@, final(target).width as int, p)
            }),
{
    let w = target.width;
    let h = target.height;
    let bounds = triangle_bounds(a, b, c, w, h);
    let lo = bounds.0;
    let hi = bounds.1;
    let mut y = lo.y;
    while y <= hi.y
        invariant
            target.wf(),
            w == target.width,
            h == target.height,
            lo.x == spec_bound_lo(a.x as int, b.x as int, c.x as int, w as int),
            lo.y == spec_bound_lo(a.y as int, b.y as int, c.y as int, h as int),
            hi.x == spec_bound_hi(a.x as int, b.x as int, c.x as int, w as int),
            hi.y == spec_bound_hi(a.y as int, b.y as int, c.y as int, h as int),
            0 <= lo.x <= hi.x <= w - 1,
            0 <= lo.y <= hi.y <= h - 1,
            lo.y <= y <= hi.y + 1,
            forall|p: IVec2|
                #![trigger pixel_at(target.color_buffer@, w as int, p)]
                0 <= p.x < w && 0 <= p.y < h ==> pixel_at(target.color_buffer@, w as int, p) == (
                if p.y < y && tri_covers(a, b, c, w as int, h as int, p) {
                    color
                } else {
                    pixel_at(old(target).color_buffer@, w as int, p)
                }),
        decreases hi.y + 1 - y,
    {
        let mut x = lo.x;
        while x <= hi.x
            invariant
                target.wf(),
                w == target.width,
                h == target.height,
                lo.x == spec_bound_lo(a.x as int, b.x as int, c.x as int, w as int),
                lo.y == spec_bound_lo(a.y as int, b.y as int, c.y as int, h as int),
                hi.x == spec_bound_hi(a.x as int, b.x as int, c.x as int, w as int),
                hi.y == spec_bound_hi(a.y as int, b.y as int, c.y as int, h as int),
                0 <= lo.x <= hi.x <= w - 1,
                0 <= lo.y <= hi.y <= h - 1,
                lo.y <= y <= hi.y,
                lo.x <= x <= hi.x + 1,
                forall|p: IVec2|
                    #![trigger pixel_at(target.color_buffer@, w as int, p)]
                    0 <= p.x < w && 0 <= p.y < h ==> pixel_at(target.color_buffer@, w as int, p)
                        == (if (p.y < y || (p.y == y && p.x < x)) && tri_covers(
                        a,
                        b,
                        c,
                        w as int,
                        h as int,
                        p,
                    ) {
                        color
                    } else {
                        pixel_at(old(target).color_buffer@, w as int, p)
                    }),
            decreases hi.x + 1 - x,
        {
            let ghost prev = target.color_buffer@;
            if is_point_in_triangle(IVec2::new(x, y), a, b, c) {
                proof {
                    lemma_row_major_bound(w as int, h as int, x as int, y as int);
                }
                let idx = (y * w + x) as usize;
                target.color_buffer[idx] = color;
            }
            proof {
                let q = IVec2 { x, y };
                assert forall|p: IVec2|
                    0 <= p.x < w && 0 <= p.y < h implies #[trigger] pixel_at(
                    target.color_buffer@,
                    w as int,
                    p,
                ) == (if (p.y < y || (p.y == y && p.x < x + 1)) && tri_covers(
                    a,
                    b,
                    c,
                    w as int,
                    h as int,
                    p,
                ) {
                    color
                } else {
                    pixel_at(old(target).color_buffer@, w as int, p)
                }) by {
                    lemma_row_major_bound(w as int, h as int, p.x as int, p.y as int);
                    lemma_row_major_bound(w as int, h as int, x as int, y as int);
                    assert(pixel_at(prev, w as int, p) == (if (p.y < y || (p.y == y && p.x < x))
                        && tri_covers(a, b, c, w as int, h as int, p) {
                        color
                    } else {
                        pixel_at(old(target).color_buffer@, w as int, p)
                    }));
                    if p.y as int * w as int + p.x as int == y as int * w as int + x as int {
                        lemma_row_major_injective(
                            w as int,
                            p.x as int,
                            p.y as int,
                            x as int,
                            y as int,
                        );
                        assert(p == q);
                    }
                }
            }
            x = x + 1;
        }
        y = y + 1;
    }
}

/// The renderer owns its render target and draws into it.
pub struct Renderer {
    pub target: RenderTarget,
}

impl Renderer {
    /// Build a renderer around a freshly allocated target.
    pub fn new(width: i32, height: i32) -> (r: Self)
        requires
            0 < width,
            0 < height,
            width * height <= i32::MAX,
            width * height * 4 <= usize::MAX,
        ensures
            r.target.wf(),
            r.target.width == width,
            r.target.height == height,
            forall|i: int|
                0 <= i < r.target.color_buffer@.len() ==> r.target.color_buffer@[i] == (Color {
                    r: 0,
                    g: 0,
                    b: 0,
                    a: 0,
                }),
    {
        Renderer { target: RenderTarget::new(width, height) }
    }

    /// Overwrite every framebuffer cell with one color. The extents are
    /// kept; nothing else changes.
    pub fn clear_color(&mut self, color: Color)
        requires
            old(self).target.wf(),
        ensures
            final(self).target.wf(),
            final(self).target.width == old(self).target.width,
            final(self).target.height == old(self).target.height,
            forall|i: int|
                0 <= i < final(self).target.color_buffer@.len() ==> final(self).target.color_buffer@[i]
                    == color,
    {
        let n = self.target.color_buffer.len();
        let mut i: usize = 0;
        while i < n
            invariant
                self.target.wf(),
                self.target.width == old(self).target.width,
                self.target.height == old(self).target.height,
                n == self.target.color_buffer@.len(),
                i <= n,
                forall|j: int| 0 <= j < i ==> self.target.color_buffer@[j] == color,
            decreases n - i,
        {
            self.target.color_buffer[i] = color;
            i = i + 1;
        }
    }

    /// Rasterize an indexed triangle list: each consecutive index triple
    /// names a triangle over `points`, drawn with its triangle's entry
    /// of `colors`, in list order. Every covered viewport cell takes the
    /// color of the last triangle covering it; every other cell is kept.
    pub fn draw_triangles(&mut self, points: &Vec<IVec2>, index_buf: &Vec<u32>, colors: &Vec<
        Color,
    >)
        requires
            old(self).target.wf(),
            index_buf@.len() % 3 == 0,
            forall|i: int| 0 <= i < index_buf@.len() ==> (index_buf@[i] as int) < points@.len(),
            colors@.len() * 3 == index_buf@.len(),
        ensures
            final(self).target.wf(),
            final(self).target.width == old(self).target.width,
            final(self).target.height == old(self).target.height,
            forall|p: IVec2|
                #![trigger pixel_at(final(self).target.color_buffer@, final(self).target.width as int, p)]
                0 <= p.x < final(self).target.width && 0 <= p.y < final(self).target.height
                    ==> pixel_at(
                    final(self).target.color_buffer@,
                    final(self).target.width as int,
                    p,
                ) == painted_color(
                    points@,
                    index_buf@,
                    colors@,
                    final(self).target.width as int,
                    final(self).target.height as int,
                    colors@.len() as int,
                    p,
                    pixel_at(old(self).target.color_buffer@, final(self).target.width as int, p),
                ),
    {
        let w = self.target.width;
        let h = self.target.height;
        if index_buf.len() == 0 {
            return ;
        }
        let tri_count = index_buf.len() / 3;
        assert(tri_count == colors@.len());
        let mut i: usize = 0;
        while i < tri_count
            invariant
                self.target.wf(),
                w == self.target.width,
                h == self.target.height,
                self.target.width == old(self).target.width,
                self.target.height == old(self).target.height,
                tri_count == colors@.len(),
                3 * tri_count == index_buf@.len(),
                index_buf@.len() <= usize::MAX,
                forall|k: int| 0 <= k < index_buf@.len() ==> (index_buf@[k] as int) < points@.len(),
                i <= tri_count,
                forall|p: IVec2|
                    #![trigger pixel_at(self.target.color_buffer@, w as int, p)]
                    0 <= p.x < w && 0 <= p.y < h ==> pixel_at(self.target.color_buffer@, w as int, p)
                        == painted_color(
                        points@,
                        index_buf@,
                        colors@,
                        w as int,
                        h as int,
                        i as int,
                        p,
                        pixel_at(old(self).target.color_buffer@, w as int, p),
                    ),
            decreases tri_count - i,
        {
            let ghost prev = self.target.color_buffer@;
            let i1 = index_buf[3 * i];
            let i2 = index_buf[3 * i + 1];
            let i3 = index_buf[3 * i + 2];
            let p1 = points[i1 as usize];
            let p2 = points[i2 as usize];
            let p3 = points[i3 as usize];
            let col = colors[i];
            raster_triangle(&mut self.target, p1, p2, p3, col);
            proof {
                assert forall|p: IVec2| 0 <= p.x < w && 0 <= p.y < h implies #[trigger] pixel_at(
                    self.target.color_buffer@,
                    w as int,
                    p,
                ) == painted_color(
                    points@,
                    index_buf@,
                    colors@,
                    w as int,
                    h as int,
                    i + 1 as int,
                    p,
                    pixel_at(old(self).target.color_buffer@, w as int, p),
                ) by {
                    assert(pixel_at(prev, w as int, p) == painted_color(
                        points@,
                        index_buf@,
                        colors@,
                        w as int,
                        h as int,
                        i as int,
                        p,
                        pixel_at(old(self).target.color_buffer@, w as int, p),
                    ));
                }
            }
            i = i + 1;
        }
    }
}

/// Law: rasterization is a function of its inputs. Any two framebuffers
/// that stand in the rasterization relation to the same triangle list,
/// the same colors and the same starting buffer are equal cell for cell;
/// rendering a frame twice from one configuration gives one image.
pub proof fn lemma_draw_result_unique(
    points: Seq<IVec2>,
    indices: Seq<u32>,
    colors: Seq<Color>,
    width: int,
    height: int,
    base: Seq<Color>,
    b1: Seq<Color>,
    b2: Seq<Color>,
)
    requires
        0 < width <= i32::MAX,
        0 < height <= i32::MAX,
        b1.len() == width * height,
        b2.len() == width * height,
        forall|p: IVec2|
            #![trigger pixel_at(b1, width, p)]
            0 <= p.x < width && 0 <= p.y < height ==> pixel_at(b1, width, p) == painted_color(
                points,
                indices,
                colors,
                width,
                height,
                colors.len() as int,
                p,
                pixel_at(base, width, p),
            ),
        forall|p: IVec2|
            #![trigger pixel_at(b2, width, p)]
            0 <= p.x < width && 0 <= p.y < height ==> pixel_at(b2, width, p) == painted_color(
                points,
                indices,
                colors,
                width,
                height,
                colors.len() as int,
                p,
                pixel_at(base, width, p),
            ),
    ensures
        b1 == b2,
{
    assert forall|i: int| 0 <= i < b1.len() implies b1[i] == b2[i] by {
        let x = i % width;
        let y = i / width;
        lemma_fundamental_div_mod(i, width);
        lemma_mod_bound(i, width);
        assert(y < height) by (nonlinear_arith)
            requires
                width * y + x == i,
                0 <= x,
                i < width * height,
                0 < width,
        ;
        assert(0 <= y) by (nonlinear_arith)
            requires
                width * y + x == i,
                0 <= i,
                x < width,
                0 < width,
        ;
        let p = IVec2 { x: x as i32, y: y as i32 };
        assert(p.x as int == x && p.y as int == y);
        assert(y * width + x == i) by (nonlinear_arith)
            requires
                width * y + x == i,
        ;
        assert(pixel_at(b1, width, p) == b1[i]);
        assert(pixel_at(b2, width, p) == b2[i]);
    }
    assert(b1 =~= b2);
}

/// Law: the clamped bounding box only culls, it never cuts coverage.
/// For a non-degenerate triangle of the accepted winding whose vertices
/// all lie inside the viewport, a viewport point is written exactly when
/// it passes the membership test.
pub proof fn lemma_covers_is_membership(
    a: IVec2,
    b: IVec2,
    c: IVec2,
    width: int,
    height: int,
    p: IVec2,
)
    requires
        edge_value(a, b, c) < 0,
        0 <= a.x < width,
        0 <= b.x < width,
        0 <= c.x < width,
        0 <= a.y < height,
        0 <= b.y < height,
        0 <= c.y < height,
        0 <= p.x < width,
        0 <= p.y < height,
    ensures
        tri_covers(a, b, c, width, height, p) == spec_point_in_triangle(p, a, b, c),
{
    if spec_point_in_triangle(p, a, b, c) {
        if p.x < min3(a.x as int, b.x as int, c.x as int) || p.x > max3(
            a.x as int,
            b.x as int,
            c.x as int,
        ) || p.y < min3(a.y as int, b.y as int, c.y as int) || p.y > max3(
            a.y as int,
            b.y as int,
            c.y as int,
        ) {
            lemma_outside_bounding_box(a, b, c, p);
        }
    }
}

} // verus!
