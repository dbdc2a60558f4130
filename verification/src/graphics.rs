//! A software back buffer in front of a linear framebuffer, and the drawing
//! primitives that paint into it.
//!
//! The back buffer keeps one stored value per pixel, row by row: the pixel's
//! encoding in the framebuffer's format, cut to the bytes a pixel occupies.
//! `present` hands out the bytes of the rows that changed, for the caller to
//! copy into the framebuffer's memory.

use vstd::prelude::*;
use crate::color::{Color, blend, blend_channel, packed_color};
use crate::bytes::le_bytes;

verus! {

/// A point on the screen.
#[derive(Debug, Clone, Copy, PartialEq, Eq, Structural)]
pub struct Pixel {
    pub x: u64,
    pub y: u64,
}

impl Pixel {
    pub fn new(x: u64, y: u64) -> (p: Self)
        ensures
            p.x == x,
            p.y == y,
    {
        Pixel { x, y }
    }
}

/// Something that has screen coordinates.
pub trait PixelCoord {
    fn to_coord(&self) -> (u64, u64);
}

impl PixelCoord for Pixel {
    fn to_coord(&self) -> (c: (u64, u64))
        ensures
            c == (self.x, self.y),
    {
        (self.x, self.y)
    }
}

/// The geometry and pixel format of a linear framebuffer.
#[derive(Debug, Clone, Copy, PartialEq, Eq, Structural)]
pub struct FramebufferInfo {
    pub width: u64,
    pub height: u64,
    /// Bytes from the start of one row to the start of the next.
    pub pitch: u64,
    /// Bits per pixel.
    pub bpp: u16,
    pub red_mask_shift: u8,
    pub green_mask_shift: u8,
    pub blue_mask_shift: u8,
}

/// What a renderer holds, seen abstractly: the stored value of each pixel,
/// row by row, and the rectangle that changed since the last `present`.
pub struct Canvas {
    pub pixels: Seq<u32>,
    pub dirty_min_x: u64,
    pub dirty_min_y: u64,
    pub dirty_max_x: u64,
    pub dirty_max_y: u64,
}

/// The bytes that `present` asks to be written at one place of the framebuffer.
#[derive(Debug, PartialEq, Eq)]
pub struct FrameCopy {
    /// Byte offset from the start of the framebuffer.
    pub offset: usize,
    pub bytes: Vec<u8>,
}

pub open spec fn min_u64(a: u64, b: u64) -> u64 {
    if a <= b { a } else { b }
}

pub open spec fn max_u64(a: u64, b: u64) -> u64 {
    if a >= b { a } else { b }
}

/// The color that a stored value reads back as (see `Color::from_u32`).
pub open spec fn unpacked(v: u32) -> Color {
    Color {
        r: (v / 0x1000000) as u8,
        g: ((v / 0x10000) % 0x100) as u8,
        b: ((v / 0x100) % 0x100) as u8,
        a: 255,
    }
}

impl FramebufferInfo {
    /// A format this renderer can draw in: 24 or 32 bits per pixel, channel
    /// shifts that fit a `u32`, sides that fit an `i32`, and a framebuffer
    /// whose bytes are addressable.
    pub open spec fn valid(self) -> bool {
        &&& self.bpp == 24 || self.bpp == 32
        &&& self.red_mask_shift < 32
        &&& self.green_mask_shift < 32
        &&& self.blue_mask_shift < 32
        &&& self.width < 0x8000_0000
        &&& self.height < 0x8000_0000
        &&& self.width * self.height <= usize::MAX
        &&& self.height * self.pitch + self.width * 4 <= usize::MAX
    }

    pub open spec fn pixel_bytes(self) -> nat {
        (self.bpp / 8) as nat
    }

    /// The encoding of a color in this format.
    pub open spec fn mask(self, c: Color) -> u32 {
        if self.bpp == 32 {
            ((c.r as u32) << (self.red_mask_shift as u32)) | ((c.g as u32) << (
            self.green_mask_shift as u32)) | ((c.b as u32) << (self.blue_mask_shift as u32))
        } else {
            packed_color(c, false)
        }
    }

    /// An encoding cut to the bytes a pixel occupies.
    pub open spec fn stored(self, v: u32) -> u32 {
        if self.bpp == 32 {
            v
        } else {
            (v % 0x1000000) as u32
        }
    }

    pub open spec fn in_bounds(self, x: int, y: int) -> bool {
        0 <= x < self.width && 0 <= y < self.height
    }

    pub open spec fn index(self, x: int, y: int) -> int {
        y * self.width + x
    }

    /// The stored value of a pixel after painting `c` over the value `old`:
    /// opaque colors replace it, translucent ones blend with what it reads back as.
    pub open spec fn paint_value(self, c: Color, old: u32) -> u32 {
        if c.a == 255 {
            self.stored(self.mask(c))
        } else {
            let cur = unpacked(old);
            self.stored(
                self.mask(
                    Color {
                        r: blend_channel(c.r, cur.r, c.a),
                        g: blend_channel(c.g, cur.g, c.a),
                        b: blend_channel(c.b, cur.b, c.a),
                        a: 255,
                    },
                ),
            )
        }
    }

    /// Painting one pixel: nothing happens off screen or for a fully
    /// transparent color; else the pixel changes and the dirty rectangle grows.
    pub open spec fn paint(self, cv: Canvas, x: int, y: int, c: Color) -> Canvas {
        if !self.in_bounds(x, y) || c.a == 0 {
            cv
        } else {
            Canvas {
                pixels: cv.pixels.update(
                    self.index(x, y),
                    self.paint_value(c, cv.pixels[self.index(x, y)]),
                ),
                dirty_min_x: min_u64(cv.dirty_min_x, x as u64),
                dirty_min_y: min_u64(cv.dirty_min_y, y as u64),
                dirty_max_x: max_u64(cv.dirty_max_x, x as u64),
                dirty_max_y: max_u64(cv.dirty_max_y, y as u64),
            }
        }
    }

    /// Painting points in order.
    pub open spec fn paint_all(self, cv: Canvas, pts: Seq<(int, int)>, c: Color) -> Canvas
        decreases pts.len(),
    {
        if pts.len() == 0 {
            cv
        } else {
            self.paint(self.paint_all(cv, pts.drop_last(), c), pts.last().0, pts.last().1, c)
        }
    }

    /// The points `(x_from, y) ..= (x_to, y)`, left to right.
    pub open spec fn row_points(y: int, x_from: int, x_to: int) -> Seq<(int, int)> {
        Seq::new(
            if x_to >= x_from { (x_to - x_from + 1) as nat } else { 0 },
            |i: int| (x_from + i, y),
        )
    }

    /// Painting the rows `y_from ..= y_to` of a rectangle, top to bottom.
    pub open spec fn paint_rect(
        self,
        cv: Canvas,
        x_from: int,
        x_to: int,
        y_from: int,
        y_to: int,
        c: Color,
    ) -> Canvas
        decreases y_to - y_from + 1,
    {
        if y_to < y_from {
            cv
        } else {
            self.paint_all(
                self.paint_rect(cv, x_from, x_to, y_from, y_to - 1, c),
                Self::row_points(y_to, x_from, x_to),
                c,
            )
        }
    }

    /// Every pixel holding one stored value.
    pub open spec fn filled(self, v: u32) -> Seq<u32> {
        Seq::new((self.width * self.height) as nat, |i: int| v)
    }
}

pub proof fn lemma_paint_all_push(
    info: FramebufferInfo,
    cv: Canvas,
    pts: Seq<(int, int)>,
    p: (int, int),
    c: Color,
)
    ensures
        info.paint_all(cv, pts.push(p), c) == info.paint(info.paint_all(cv, pts, c), p.0, p.1, c),
{
    assert(pts.push(p).drop_last() =~= pts);
}

pub proof fn lemma_index_in_range(info: FramebufferInfo, x: int, y: int)
    requires
        info.in_bounds(x, y),
    ensures
        0 <= info.index(x, y) < info.width * info.height,
{
    assert(y * info.width + x < info.width * info.height) by (nonlinear_arith)
        requires
            0 <= x < info.width,
            0 <= y < info.height,
    ;
    assert(0 <= y * info.width) by (nonlinear_arith)
        requires
            0 <= y,
            0 <= info.width,
    ;
}

/// Coordinates that the line, circle and polygon routines take: small enough
/// that their signed 64-bit arithmetic cannot overflow.
pub open spec fn drawable(p: Pixel) -> bool {
    p.x < 0x4000_0000_0000_0000 && p.y < 0x4000_0000_0000_0000
}

/// How Bresenham's algorithm sets up a line: whether it steps along `y`
/// (`steep`), the start `(x1, y1)` after swapping axes and ends, the run `dx`,
/// the rise `dy` and the direction of `y`.
pub open spec fn line_setup(p1: Pixel, p2: Pixel) -> (bool, int, int, int, int, int) {
    let dx_abs = if p2.x >= p1.x { p2.x - p1.x } else { p1.x - p2.x };
    let dy_abs = if p2.y >= p1.y { p2.y - p1.y } else { p1.y - p2.y };
    let steep = dy_abs > dx_abs;
    let (a1, b1, a2, b2) = if steep {
        (p1.y as int, p1.x as int, p2.y as int, p2.x as int)
    } else {
        (p1.x as int, p1.y as int, p2.x as int, p2.y as int)
    };
    let (x1, y1, x2, y2) = if a1 > a2 { (a2, b2, a1, b1) } else { (a1, b1, a2, b2) };
    let dy = if y2 >= y1 { y2 - y1 } else { y1 - y2 };
    (steep, x1, y1, x2 - x1, dy, if y1 < y2 { 1 } else { -1 })
}

/// The row and error term of Bresenham's algorithm after `k` steps.
pub open spec fn line_state(y1: int, dx: int, dy: int, ystep: int, k: nat) -> (int, int)
    decreases k,
{
    if k == 0 {
        (y1, dx / 2)
    } else {
        let (y, e) = line_state(y1, dx, dy, ystep, (k - 1) as nat);
        if e - dy < 0 {
            (y + ystep, e - dy + dx)
        } else {
            (y, e - dy)
        }
    }
}

/// The points that Bresenham's algorithm visits from `p1` to `p2`, in order.
pub open spec fn line_points(p1: Pixel, p2: Pixel) -> Seq<(int, int)> {
    let (steep, x1, y1, dx, dy, ystep) = line_setup(p1, p2);
    Seq::new(
        (dx + 1) as nat,
        |k: int|
            {
                let y = line_state(y1, dx, dy, ystep, k as nat).0;
                if steep {
                    (y, x1 + k)
                } else {
                    (x1 + k, y)
                }
            },
    )
}

/// Division rounding toward zero, as machine division does.
pub open spec fn trunc_div(n: int, d: int) -> int {
    if n >= 0 {
        n / d
    } else {
        -((-n) / d)
    }
}

/// The `x` at `t` rows below a start `x0` along an edge that moves `dx`
/// over `dy` rows, rounded to the nearest column.
pub open spec fn edge_x(x0: int, dx: int, dy: int, t: int) -> int {
    if dy != 0 {
        x0 + trunc_div(dx * t + dy / 2, dy)
    } else {
        x0
    }
}

/// The edge starting at `(x0, y0)` as a function of the row.
pub open spec fn edge_fn(x0: int, dx: int, dy: int, y0: int) -> spec_fn(int) -> int {
    |y: int| edge_x(x0, dx, dy, y - y0)
}

/// The columns that a scanline from `a` to `b` covers on a screen `w` wide:
/// both ends are clamped to the screen and put in order.
pub open spec fn h_span(a: int, b: int, w: int) -> (bool, int, int) {
    let s = if a > 0 { a } else { 0 };
    let e = if b < w - 1 { b } else { w - 1 };
    if s <= e {
        (true, s, e)
    } else if e < 0 || s >= w {
        let s2 = if e > 0 { e } else { 0 };
        let e2 = if s < w - 1 { s } else { w - 1 };
        if s2 > e2 {
            (false, 0, 0)
        } else {
            (true, s2, e2)
        }
    } else {
        (true, e, s)
    }
}

/// The three corners ordered by `y` as the triangle filler orders them.
pub open spec fn sort3(a: Pixel, b: Pixel, c: Pixel) -> (Pixel, Pixel, Pixel) {
    let (a, b) = if a.y > b.y { (b, a) } else { (a, b) };
    let (a, c) = if a.y > c.y { (c, a) } else { (a, c) };
    let (b, c) = if b.y > c.y { (c, b) } else { (b, c) };
    (a, b, c)
}

impl FramebufferInfo {
    /// Painting the scanline between columns `a` and `b` of row `y`.
    pub open spec fn paint_span(self, cv: Canvas, y: int, a: int, b: int, c: Color) -> Canvas {
        let (ok, s, e) = h_span(a, b, self.width as int);
        if y < 0 || y >= self.height || !ok {
            cv
        } else {
            self.paint_all(cv, Self::row_points(y, s, e), c)
        }
    }

    /// Painting the scanlines of rows `y_from ..= y_to`, top to bottom, each
    /// between the columns that `fa` and `fb` give for it.
    pub open spec fn paint_spans(
        self,
        cv: Canvas,
        y_from: int,
        y_to: int,
        fa: spec_fn(int) -> int,
        fb: spec_fn(int) -> int,
        c: Color,
    ) -> Canvas
        decreases y_to - y_from + 1,
    {
        if y_to < y_from {
            cv
        } else {
            let prev = self.paint_spans(cv, y_from, y_to - 1, fa, fb, c);
            self.paint_span(prev, y_to, fa(y_to), fb(y_to), c)
        }
    }

    /// What filling a triangle paints: the upper half row by row between the
    /// long edge and the upper edge, then, where the lower edge is not flat,
    /// the lower half between the long edge and the lower edge (the middle
    /// row belongs to both halves).
    pub open spec fn paint_triangle(self, cv: Canvas, p1: Pixel, p2: Pixel, p3: Pixel, c: Color) -> Canvas {
        let (q1, q2, q3) = sort3(p1, p2, p3);
        let (x1, y1, x2, y2, x3, y3) = (
            q1.x as int,
            q1.y as int,
            q2.x as int,
            q2.y as int,
            q3.x as int,
            q3.y as int,
        );
        if y1 == y3 {
            cv
        } else {
            let long = edge_fn(x1, x3 - x1, y3 - y1, y1);
            let upper = edge_fn(x1, x2 - x1, y2 - y1, y1);
            let lower = edge_fn(x2, x3 - x2, y3 - y2, y2);
            let mid = self.paint_spans(cv, y1, y2, long, upper, c);
            if y3 != y2 {
                self.paint_spans(mid, y2, y3, long, lower, c)
            } else {
                mid
            }
        }
    }

    /// The eight points that the circle routine paints for one step, in order.
    pub open spec fn octants(cx: int, cy: int, x: int, y: int) -> Seq<(int, int)> {
        seq![
            (cx + x, cy + y),
            (cx + x, cy - y),
            (cx - x, cy + y),
            (cx - x, cy - y),
            (cx + y, cy + x),
            (cx + y, cy - x),
            (cx - y, cy + x),
            (cx - y, cy - x),
        ]
    }

    /// Painting the midpoint circle algorithm's steps from state `(x, y, d)` on.
    pub open spec fn paint_circle_from(
        self,
        cv: Canvas,
        cx: int,
        cy: int,
        x: int,
        y: int,
        d: int,
        c: Color,
    ) -> Canvas
        decreases y - x + 2,
    {
        if x > y {
            cv
        } else {
            let next = self.paint_all(cv, Self::octants(cx, cy, x, y), c);
            if d < 0 {
                self.paint_circle_from(next, cx, cy, x + 1, y, d + 4 * x + 6, c)
            } else {
                self.paint_circle_from(next, cx, cy, x + 1, y - 1, d + 4 * (x - y) + 10, c)
            }
        }
    }

    /// Painting the outline through `points`, each point joined to the next
    /// and the last to the first; only the first `n` edges.
    pub open spec fn paint_polygon(self, cv: Canvas, points: Seq<Pixel>, n: int, c: Color) -> Canvas
        decreases n,
    {
        if n <= 0 {
            cv
        } else {
            let prev = self.paint_polygon(cv, points, n - 1, c);
            self.paint_all(
                prev,
                line_points(points[n - 1], points[n % points.len() as int]),
                c,
            )
        }
    }

    /// The pixels after scrolling by `offset` rows (down when positive): rows
    /// that come into view hold `fill`.
    pub open spec fn scrolled(self, pixels: Seq<u32>, offset: int, fill: u32) -> Seq<u32> {
        let n = pixels.len() as int;
        let k = (if offset >= 0 { offset } else { -offset }) * self.width;
        Seq::new(
            pixels.len(),
            |i: int|
                if offset > 0 {
                    if i < k {
                        fill
                    } else {
                        pixels[i - k]
                    }
                } else {
                    if i < n - k {
                        pixels[i + k]
                    } else {
                        fill
                    }
                },
        )
    }
}

/// The bytes of `count` stored pixel values from `start` on, each in `size` bytes.
pub open spec fn row_bytes(pixels: Seq<u32>, start: int, count: nat, size: nat) -> Seq<u8>
    decreases count,
{
    if count == 0 {
        Seq::empty()
    } else {
        row_bytes(pixels, start, (count - 1) as nat, size) + le_bytes(
            pixels[start + count - 1] as nat,
            size,
        )
    }
}

/// Painting an opaque color on screen makes the pixel read back as that
/// color's stored value, and leaves every other pixel as it was.
pub proof fn lemma_paint_then_read(info: FramebufferInfo, cv: Canvas, x: int, y: int, c: Color)
    requires
        info.in_bounds(x, y),
        c.a == 255,
        cv.pixels.len() == info.width * info.height,
    ensures
        info.paint(cv, x, y, c).pixels[info.index(x, y)] == info.stored(info.mask(c)),
        forall|x2: int, y2: int|
            #![trigger info.index(x2, y2)]
            info.in_bounds(x2, y2) && (x2, y2) != (x, y) ==> info.paint(cv, x, y, c).pixels[info.index(
                x2,
                y2,
            )] == cv.pixels[info.index(x2, y2)],
{
    lemma_index_in_range(info, x, y);
    assert forall|x2: int, y2: int|
        #![trigger info.index(x2, y2)]
        info.in_bounds(x2, y2) && (x2, y2) != (x, y) implies info.paint(cv, x, y, c).pixels[info.index(
        x2,
        y2,
    )] == cv.pixels[info.index(x2, y2)] by {
        lemma_index_in_range(info, x2, y2);
        if info.index(x2, y2) == info.index(x, y) {
            assert(y2 == y && x2 == x) by (nonlinear_arith)
                requires
                    y2 * info.width + x2 == y * info.width + x,
                    0 <= x < info.width,
                    0 <= x2 < info.width,
            ;
        }
    }
}

/// Once presented, nothing is left to present: a canvas with the dirty
/// rectangle that `present` leaves behind has an empty rectangle to copy.
pub proof fn lemma_nothing_left_to_present(info: FramebufferInfo, cv: Canvas)
    requires
        cv.dirty_min_x == u64::MAX,
        cv.dirty_min_y == u64::MAX,
        cv.dirty_max_x == 0,
        cv.dirty_max_y == 0,
    ensures
        min_u64(cv.dirty_min_x, info.width) >= min_u64(cv.dirty_max_x, info.width),
{
}

/// Machine division of `n` by a positive `d`, rounding toward zero.
fn trunc_div_exec(n: i64, d: i64) -> (q: i64)
    requires
        d > 0,
        -0x1_0000_0000_0000 < n < 0x1_0000_0000_0000,
    ensures
        q == trunc_div(n as int, d as int),
{
    if n >= 0 {
        ((n as u64) / (d as u64)) as i64
    } else {
        -((((-n) as u64) / (d as u64)) as i64)
    }
}

/// The column of an edge `t` rows below its start (see [`edge_x`]).
fn edge_x_exec(x0: i64, dx: i64, dy: i64, t: i64) -> (x: i64)
    requires
        0 <= x0 <= 46340,
        -46340 <= dx <= 46340,
        0 <= dy <= 46340,
        0 <= t <= 46340,
    ensures
        x == edge_x(x0 as int, dx as int, dy as int, t as int),
        -0x1_0000_0000 < x < 0x1_0000_0000,
{
    if dy != 0 {
        proof {
            assert(-46340 * 46340 <= dx * t <= 46340 * 46340) by (nonlinear_arith)
                requires
                    -46340 <= dx <= 46340,
                    0 <= t <= 46340,
            ;
        }
        let q = trunc_div_exec(dx * t + dy / 2, dy);
        proof {
            assert(-46340 * 46340 - 46340 <= q <= 46340 * 46340 + 46340) by (nonlinear_arith)
                requires
                    q == trunc_div((dx * t + dy / 2) as int, dy as int),
                    -46340 * 46340 <= dx * t <= 46340 * 46340,
                    0 < dy <= 46340,
            ;
        }
        x0 + q
    } else {
        x0
    }
}

/// Appends the `size` low bytes of a pixel value, least significant first.
fn push_pixel_bytes(out: &mut Vec<u8>, v: u32, size: usize)
    requires
        size == 3 || size == 4,
    ensures
        final(out)@ == old(out)@ + le_bytes(v as nat, size as nat),
{
    out.push((v % 256) as u8);
    out.push(((v / 256) % 256) as u8);
    out.push(((v / 65536) % 256) as u8);
    if size == 4 {
        out.push((v / 16777216) as u8);
    }
    proof {
        reveal_with_fuel(le_bytes, 5);
        assert(final(out)@ =~= old(out)@ + le_bytes(v as nat, size as nat));
    }
}

/// A back buffer in front of a framebuffer, with drawing primitives.
pub struct Renderer {
    info: FramebufferInfo,
    back_buffer: Vec<u32>,
    pixel_size: usize,
    clear_color: Color,
    dirty_min_x: u64,
    dirty_min_y: u64,
    dirty_max_x: u64,
    dirty_max_y: u64,
    width: usize,
    height: usize,
    bpp: usize,
}

impl View for Renderer {
    type V = Canvas;

    closed spec fn view(&self) -> Canvas {
        Canvas {
            pixels: self.back_buffer@,
            dirty_min_x: self.dirty_min_x,
            dirty_min_y: self.dirty_min_y,
            dirty_max_x: self.dirty_max_x,
            dirty_max_y: self.dirty_max_y,
        }
    }
}

impl Renderer {
    pub closed spec fn wf(&self) -> bool {
        &&& self.info.valid()
        &&& self.width == self.info.width
        &&& self.height == self.info.height
        &&& self.bpp == self.info.bpp
        &&& self.pixel_size == self.info.pixel_bytes()
        &&& self.back_buffer@.len() == self.info.width * self.info.height
    }

    pub closed spec fn format(&self) -> FramebufferInfo {
        self.info
    }

    pub closed spec fn spec_clear_color(&self) -> Color {
        self.clear_color
    }

    /// A renderer for a framebuffer of the given format, with a black back
    /// buffer, a black clear color and nothing to present.
    pub fn new(info: FramebufferInfo) -> (r: Self)
        requires
            info.valid(),
        ensures
            r.wf(),
            r.format() == info,
            r.spec_clear_color() == (Color { r: 0, g: 0, b: 0, a: 255 }),
            r@.pixels == info.filled(0),
            r@.dirty_min_x == u64::MAX,
            r@.dirty_min_y == u64::MAX,
            r@.dirty_max_x == 0,
            r@.dirty_max_y == 0,
    {
        let width = info.width as usize;
        let height = info.height as usize;
        let bpp = info.bpp as usize;
        let pixel_size = bpp / 8;
        let count = width * height;
        let mut back_buffer: Vec<u32> = Vec::new();
        let mut i: usize = 0;
        while i < count
            invariant
                i <= count,
                back_buffer@ == Seq::new(i as nat, |k: int| 0u32),
            decreases count - i,
        {
            back_buffer.push(0);
            i = i + 1;
        }
        proof {
            assert(back_buffer@ =~= info.filled(0));
        }
        Renderer {
            info,
            back_buffer,
            pixel_size,
            clear_color: Color::new(0, 0, 0),
            dirty_min_x: u64::MAX,
            dirty_min_y: u64::MAX,
            dirty_max_x: 0,
            dirty_max_y: 0,
            width,
            height,
            bpp,
        }
    }

    pub fn width(&self) -> (w: u64)
        ensures
            w == self.format().width,
    {
        self.info.width
    }

    pub fn height(&self) -> (h: u64)
        ensures
            h == self.format().height,
    {
        self.info.height
    }

    /// Position of a pixel in the back buffer.
    fn get_buffer_offset(&self, x: u64, y: u64) -> (i: usize)
        requires
            self.wf(),
            self.format().in_bounds(x as int, y as int),
        ensures
            i == self.format().index(x as int, y as int),
            i < self@.pixels.len(),
    {
        proof {
            lemma_index_in_range(self.info, x as int, y as int);
        }
        (y * self.info.width + x) as usize
    }

    /// The encoding of a color in the framebuffer's format.
    fn mask_color(&self, color: &Color) -> (v: u32)
        requires
            self.wf(),
        ensures
            v == self.format().mask(*color),
    {
        if self.bpp == 32 {
            ((color.r as u32) << (self.info.red_mask_shift as u32)) | ((color.g as u32) << (
            self.info.green_mask_shift as u32)) | ((color.b as u32) << (
            self.info.blue_mask_shift as u32))
        } else {
            color.to_u32(false)
        }
    }

    fn stored_value(&self, v: u32) -> (s: u32)
        requires
            self.wf(),
        ensures
            s == self.format().stored(v),
    {
        if self.pixel_size == 4 {
            v
        } else {
            v % 0x1000000
        }
    }

    /// Paints one pixel that lies on screen.
    fn set_pixel_raw_unchecked(&mut self, x: u64, y: u64, color: &Color)
        requires
            old(self).wf(),
            old(self).format().in_bounds(x as int, y as int),
        ensures
            final(self).wf(),
            final(self).format() == old(self).format(),
            final(self).spec_clear_color() == old(self).spec_clear_color(),
            final(self)@ == old(self).format().paint(old(self)@, x as int, y as int, *color),
    {
        let offset = self.get_buffer_offset(x, y);
        if color.a == 0 {
            return;
        }
        let value = if color.a == 255 {
            self.mask_color(color)
        } else {
            let current = Color::from_u32(self.back_buffer[offset]);
            let r = blend(color.r, current.r, color.a);
            let g = blend(color.g, current.g, color.a);
            let b = blend(color.b, current.b, color.a);
            let mixed = Color::with_alpha(r, g, b, 255);
            self.mask_color(&mixed)
        };
        let stored = self.stored_value(value);
        self.back_buffer.set(offset, stored);
        if x < self.dirty_min_x {
            self.dirty_min_x = x;
        }
        if y < self.dirty_min_y {
            self.dirty_min_y = y;
        }
        if x > self.dirty_max_x {
            self.dirty_max_x = x;
        }
        if y > self.dirty_max_y {
            self.dirty_max_y = y;
        }
        proof {
            assert(self@.pixels =~= old(self).format().paint(
                old(self)@,
                x as int,
                y as int,
                *color,
            ).pixels);
        }
    }

    /// Paints one pixel; a pixel off screen is ignored.
    pub fn set_pixel_raw(&mut self, x: u64, y: u64, color: &Color)
        requires
            old(self).wf(),
        ensures
            final(self).wf(),
            final(self).format() == old(self).format(),
            final(self).spec_clear_color() == old(self).spec_clear_color(),
            final(self)@ == old(self).format().paint(old(self)@, x as int, y as int, *color),
    {
        if x >= self.info.width || y >= self.info.height {
            return;
        }
        self.set_pixel_raw_unchecked(x, y, color);
    }

    /// Paints the pixel at a point.
    pub fn set_pixel(&mut self, pixel: Pixel, color: &Color)
        requires
            old(self).wf(),
        ensures
            final(self).wf(),
            final(self).format() == old(self).format(),
            final(self).spec_clear_color() == old(self).spec_clear_color(),
            final(self)@ == old(self).format().paint(
                old(self)@,
                pixel.x as int,
                pixel.y as int,
                *color,
            ),
    {
        let (x, y) = pixel.to_coord();
        self.set_pixel_raw(x, y, color);
    }

    /// The color that the back buffer holds at a point on screen.
    pub fn get_pixel(&self, pixel: Pixel) -> (c: Color)
        requires
            self.wf(),
            self.format().in_bounds(pixel.x as int, pixel.y as int),
        ensures
            c == unpacked(self@.pixels[self.format().index(pixel.x as int, pixel.y as int)]),
    {
        let (x, y) = pixel.to_coord();
        self.get_pixel_raw(x, y)
    }

    fn get_pixel_raw(&self, x: u64, y: u64) -> (c: Color)
        requires
            self.wf(),
            self.format().in_bounds(x as int, y as int),
        ensures
            c == unpacked(self@.pixels[self.format().index(x as int, y as int)]),
    {
        let offset = self.get_buffer_offset(x, y);
        Color::from_u32(self.back_buffer[offset])
    }

    pub fn set_clear_color(&mut self, color: Color)
        ensures
            final(self).spec_clear_color() == color,
            final(self)@ == old(self)@,
            final(self).format() == old(self).format(),
            old(self).wf() ==> final(self).wf(),
    {
        self.clear_color = color;
    }

    pub fn get_clear_color(&self) -> (c: Color)
        ensures
            c == self.spec_clear_color(),
    {
        self.clear_color
    }

    /// The stored value that clearing writes.
    pub open spec fn clear_value(&self) -> u32 {
        self.format().stored(self.format().mask(self.spec_clear_color()))
    }

    /// Fills the back buffer with the clear color and marks it all dirty.
    pub fn clear(&mut self)
        requires
            old(self).wf(),
        ensures
            final(self).wf(),
            final(self).format() == old(self).format(),
            final(self).spec_clear_color() == old(self).spec_clear_color(),
            final(self)@.pixels == old(self).format().filled(old(self).clear_value()),
            final(self)@.dirty_min_x == 0,
            final(self)@.dirty_min_y == 0,
            final(self)@.dirty_max_x == old(self).format().width,
            final(self)@.dirty_max_y == old(self).format().height,
    {
        let color = self.clear_color;
        let masked = self.mask_color(&color);
        let value = self.stored_value(masked);
        let n = self.back_buffer.len();
        let mut i: usize = 0;
        while i < n
            invariant
                self.wf(),
                self.info == old(self).info,
                self.clear_color == old(self).clear_color,
                value == old(self).clear_value(),
                n == self.back_buffer@.len(),
                i <= n,
                forall|k: int| 0 <= k < i ==> self.back_buffer@[k] == value,
            decreases n - i,
        {
            self.back_buffer.set(i, value);
            i = i + 1;
        }
        self.dirty_min_x = 0;
        self.dirty_min_y = 0;
        self.dirty_max_x = self.info.width;
        self.dirty_max_y = self.info.height;
        proof {
            assert(self.back_buffer@ =~= old(self).format().filled(value));
        }
    }

    /// Draws a line from `p1` to `p2` with Bresenham's algorithm.
    pub fn draw_line(&mut self, p1: Pixel, p2: Pixel, color: Color)
        requires
            old(self).wf(),
            drawable(p1),
            drawable(p2),
        ensures
            final(self).wf(),
            final(self).format() == old(self).format(),
            final(self).spec_clear_color() == old(self).spec_clear_color(),
            final(self)@ == old(self).format().paint_all(old(self)@, line_points(p1, p2), color),
    {
        let dx_abs: u64 = if p2.x >= p1.x { p2.x - p1.x } else { p1.x - p2.x };
        let dy_abs: u64 = if p2.y >= p1.y { p2.y - p1.y } else { p1.y - p2.y };
        let steep = dy_abs > dx_abs;
        let (mut x1, mut y1) = p1.to_coord();
        let (mut x2, mut y2) = p2.to_coord();
        if steep {
            let t = x1;
            x1 = y1;
            y1 = t;
            let t = x2;
            x2 = y2;
            y2 = t;
        }
        if x1 > x2 {
            let t = x1;
            x1 = x2;
            x2 = t;
            let t = y1;
            y1 = y2;
            y2 = t;
        }
        let dx = x2 - x1;
        let dy: u64 = if y2 >= y1 { y2 - y1 } else { y1 - y2 };
        let mut error: i64 = (dx / 2) as i64;
        let y_step: i64 = if y1 < y2 { 1 } else { -1 };
        let mut y: i64 = y1 as i64;
        let ghost info = self.info;
        let ghost start = self@;
        let ghost pts = line_points(p1, p2);
        proof {
            assert(line_setup(p1, p2) == (
                steep,
                x1 as int,
                y1 as int,
                dx as int,
                dy as int,
                y_step as int,
            ));
            assert(dy <= dx);
            assert(pts.take(0) =~= Seq::<(int, int)>::empty());
        }
        let mut x = x1;
        while x <= x2
            invariant
                self.wf(),
                self.info == info,
                info == old(self).info,
                self.clear_color == old(self).clear_color,
                start == old(self)@,
                pts == line_points(p1, p2),
                line_setup(p1, p2) == (
                    steep,
                    x1 as int,
                    y1 as int,
                    dx as int,
                    dy as int,
                    y_step as int,
                ),
                dx == x2 - x1,
                dy <= dx,
                x2 < 0x4000_0000_0000_0000,
                y1 < 0x4000_0000_0000_0000,
                y_step == 1 || y_step == -1,
                x1 <= x <= x2 + 1,
                (y as int, error as int) == line_state(
                    y1 as int,
                    dx as int,
                    dy as int,
                    y_step as int,
                    (x - x1) as nat,
                ),
                0 <= error <= dx,
                y1 - (x - x1) <= y <= y1 + (x - x1),
                self@ == info.paint_all(start, pts.take((x - x1) as int), color),
            decreases x2 + 1 - x,
        {
            proof {
                let k = (x - x1) as int;
                assert(pts[k] == (if steep { (y as int, x as int) } else { (x as int, y as int) }));
                assert(pts.take(k + 1) =~= pts.take(k).push(pts[k]));
                lemma_paint_all_push(info, start, pts.take(k), pts[k], color);
            }
            if steep {
                if y >= 0 && (y as u64) < self.info.width && x < self.info.height {
                    self.set_pixel_raw(y as u64, x, &color);
                }
            } else {
                if x < self.info.width && y >= 0 && (y as u64) < self.info.height {
                    self.set_pixel_raw(x, y as u64, &color);
                }
            }
            error = error - dy as i64;
            if error < 0 {
                y = y + y_step;
                error = error + dx as i64;
            }
            x = x + 1;
        }
        proof {
            assert(pts.take((x - x1) as int) =~= pts);
        }
    }

    /// Draws the outline of a triangle: the lines `p1`-`p2`, `p2`-`p3`, `p3`-`p1`.
    pub fn draw_triangle(&mut self, p1: Pixel, p2: Pixel, p3: Pixel, color: Color)
        requires
            old(self).wf(),
            drawable(p1),
            drawable(p2),
            drawable(p3),
        ensures
            final(self).wf(),
            final(self).format() == old(self).format(),
            final(self).spec_clear_color() == old(self).spec_clear_color(),
            final(self)@ == old(self).format().paint_all(
                old(self).format().paint_all(
                    old(self).format().paint_all(old(self)@, line_points(p1, p2), color),
                    line_points(p2, p3),
                    color,
                ),
                line_points(p3, p1),
                color,
            ),
    {
        self.draw_line(p1, p2, color);
        self.draw_line(p2, p3, color);
        self.draw_line(p3, p1, color);
    }

    /// Draws the outline of the rectangle with corners `pixel` and
    /// `pixel + (width, height)`.
    pub fn draw_rect(&mut self, pixel: Pixel, width: u64, height: u64, color: Color)
        requires
            old(self).wf(),
            drawable(Pixel { x: (pixel.x + width) as u64, y: (pixel.y + height) as u64 }),
            pixel.x + width <= u64::MAX,
            pixel.y + height <= u64::MAX,
        ensures
            final(self).wf(),
            final(self).format() == old(self).format(),
            final(self).spec_clear_color() == old(self).spec_clear_color(),
            ({
                let (x, y) = (pixel.x, pixel.y);
                let (x2, y2) = ((x + width) as u64, (y + height) as u64);
                let f = old(self).format();
                let a = f.paint_all(old(self)@, line_points(Pixel { x, y }, Pixel { x: x2, y }), color);
                let b = f.paint_all(a, line_points(Pixel { x: x2, y }, Pixel { x: x2, y: y2 }), color);
                let c = f.paint_all(b, line_points(Pixel { x: x2, y: y2 }, Pixel { x, y: y2 }), color);
                final(self)@ == f.paint_all(c, line_points(Pixel { x, y: y2 }, Pixel { x, y }), color)
            }),
    {
        let (x, y) = pixel.to_coord();
        let x2 = x + width;
        let y2 = y + height;
        self.draw_line(Pixel::new(x, y), Pixel::new(x2, y), color);
        self.draw_line(Pixel::new(x2, y), Pixel::new(x2, y2), color);
        self.draw_line(Pixel::new(x2, y2), Pixel::new(x, y2), color);
        self.draw_line(Pixel::new(x, y2), Pixel::new(x, y), color);
    }

    /// Draws the closed outline through `points`; fewer than three points draw nothing.
    pub fn draw_polygon(&mut self, points: &[Pixel], color: Color)
        requires
            old(self).wf(),
            forall|i: int| 0 <= i < points@.len() ==> drawable(#[trigger] points@[i]),
        ensures
            final(self).wf(),
            final(self).format() == old(self).format(),
            final(self).spec_clear_color() == old(self).spec_clear_color(),
            points@.len() < 3 ==> final(self)@ == old(self)@,
            points@.len() >= 3 ==> final(self)@ == old(self).format().paint_polygon(
                old(self)@,
                points@,
                points@.len() as int,
                color,
            ),
    {
        let n = points.len();
        if n < 3 {
            return;
        }
        let ghost info = self.info;
        let ghost start = self@;
        let mut i: usize = 0;
        while i < n
            invariant
                self.wf(),
                self.info == info,
                info == old(self).info,
                self.clear_color == old(self).clear_color,
                start == old(self)@,
                n == points@.len(),
                n >= 3,
                i <= n,
                forall|j: int| 0 <= j < points@.len() ==> drawable(#[trigger] points@[j]),
                self@ == info.paint_polygon(start, points@, i as int, color),
            decreases n - i,
        {
            let p1 = points[i];
            let p2 = points[(i + 1) % n];
            self.draw_line(p1, p2, color);
            i = i + 1;
        }
    }

    /// Paints the scanline between columns `start_x` and `end_x` of row `y`.
    fn fill_h_line(&mut self, start_x: i64, end_x: i64, y: i64, color: &Color)
        requires
            old(self).wf(),
            -0x1_0000_0000 < start_x < 0x1_0000_0000,
            -0x1_0000_0000 < end_x < 0x1_0000_0000,
        ensures
            final(self).wf(),
            final(self).format() == old(self).format(),
            final(self).spec_clear_color() == old(self).spec_clear_color(),
            final(self)@ == old(self).format().paint_span(
                old(self)@,
                y as int,
                start_x as int,
                end_x as int,
                *color,
            ),
    {
        let w = self.info.width as i64;
        let h = self.info.height as i64;
        if y < 0 || y >= h {
            return;
        }
        let mut s = if start_x > 0 { start_x } else { 0 };
        let mut e = if end_x < w - 1 { end_x } else { w - 1 };
        if s > e {
            let t = s;
            s = e;
            e = t;
        }
        if s < 0 || e >= w {
            s = if s > 0 { s } else { 0 };
            e = if e < w - 1 { e } else { w - 1 };
            if s > e {
                return;
            }
        }
        self.paint_row(y as u64, s as u64, e as u64, color);
    }

    /// Paints the scanlines of rows `y_from ..= y_to`, each between the
    /// edges `(ax0, adx, ady, ay0)` and `(bx0, bdx, bdy, by0)` (see [`edge_fn`]).
    fn fill_between(
        &mut self,
        y_from: i64,
        y_to: i64,
        a: (i64, i64, i64, i64),
        b: (i64, i64, i64, i64),
        color: &Color,
    )
        requires
            old(self).wf(),
            0 <= a.3 <= y_from,
            0 <= b.3 <= y_from,
            y_to <= 46340,
            0 <= a.0 <= 46340,
            0 <= b.0 <= 46340,
            -46340 <= a.1 <= 46340,
            -46340 <= b.1 <= 46340,
            0 <= a.2 <= 46340,
            0 <= b.2 <= 46340,
        ensures
            final(self).wf(),
            final(self).format() == old(self).format(),
            final(self).spec_clear_color() == old(self).spec_clear_color(),
            final(self)@ == old(self).format().paint_spans(
                old(self)@,
                y_from as int,
                y_to as int,
                edge_fn(a.0 as int, a.1 as int, a.2 as int, a.3 as int),
                edge_fn(b.0 as int, b.1 as int, b.2 as int, b.3 as int),
                *color,
            ),
    {
        let ghost info = self.info;
        let ghost start = self@;
        let ghost fa = edge_fn(a.0 as int, a.1 as int, a.2 as int, a.3 as int);
        let ghost fb = edge_fn(b.0 as int, b.1 as int, b.2 as int, b.3 as int);
        let mut y = y_from;
        while y <= y_to
            invariant
                self.wf(),
                self.info == info,
                info == old(self).info,
                self.clear_color == old(self).clear_color,
                start == old(self)@,
                0 <= a.3 <= y_from,
                0 <= b.3 <= y_from,
                y_to <= 46340,
                0 <= a.0 <= 46340,
                0 <= b.0 <= 46340,
                -46340 <= a.1 <= 46340,
                -46340 <= b.1 <= 46340,
                0 <= a.2 <= 46340,
                0 <= b.2 <= 46340,
                fa == edge_fn(a.0 as int, a.1 as int, a.2 as int, a.3 as int),
                fb == edge_fn(b.0 as int, b.1 as int, b.2 as int, b.3 as int),
                y_from <= y,
                y <= y_to + 1 || y == y_from,
                self@ == info.paint_spans(start, y_from as int, y as int - 1, fa, fb, *color),
            decreases y_to + 1 - y,
        {
            let xa = edge_x_exec(a.0, a.1, a.2, y - a.3);
            let xb = edge_x_exec(b.0, b.1, b.2, y - b.3);
            self.fill_h_line(xa, xb, y, color);
            y = y + 1;
        }
    }

    /// Fills a triangle scanline by scanline. Its edge arithmetic is 32-bit:
    /// coordinates go up to 46340, the largest whose squares fit in an `i32`.
    pub fn fill_triangle(&mut self, p1: Pixel, p2: Pixel, p3: Pixel, color: Color)
        requires
            old(self).wf(),
            p1.x <= 46340 && p1.y <= 46340,
            p2.x <= 46340 && p2.y <= 46340,
            p3.x <= 46340 && p3.y <= 46340,
        ensures
            final(self).wf(),
            final(self).format() == old(self).format(),
            final(self).spec_clear_color() == old(self).spec_clear_color(),
            final(self)@ == old(self).format().paint_triangle(old(self)@, p1, p2, p3, color),
    {
        let (a, b) = if p1.y > p2.y { (p2, p1) } else { (p1, p2) };
        let (a, c) = if a.y > p3.y { (p3, a) } else { (a, p3) };
        let (b, c) = if b.y > c.y { (c, b) } else { (b, c) };
        proof {
            assert(sort3(p1, p2, p3) == (a, b, c));
        }
        if a.y == c.y {
            return;
        }
        let (x1, y1) = (a.x as i64, a.y as i64);
        let (x2, y2) = (b.x as i64, b.y as i64);
        let (x3, y3) = (c.x as i64, c.y as i64);
        let long = (x1, x3 - x1, y3 - y1, y1);
        self.fill_between(y1, y2, long, (x1, x2 - x1, y2 - y1, y1), &color);
        if y3 - y2 != 0 {
            self.fill_between(y2, y3, long, (x2, x3 - x2, y3 - y2, y2), &color);
        }
    }

    /// Paints a pixel given by signed coordinates; negative ones are off screen.
    fn paint_signed(&mut self, x: i128, y: i128, color: &Color)
        requires
            old(self).wf(),
        ensures
            final(self).wf(),
            final(self).format() == old(self).format(),
            final(self).spec_clear_color() == old(self).spec_clear_color(),
            final(self)@ == old(self).format().paint(old(self)@, x as int, y as int, *color),
    {
        if 0 <= x && x < self.info.width as i128 && 0 <= y && y < self.info.height as i128 {
            self.set_pixel_raw(x as u64, y as u64, color);
        }
    }

    /// Draws a circle with the midpoint algorithm; a zero radius draws nothing.
    pub fn draw_circle(&mut self, center: Pixel, radius: u64, color: Color)
        requires
            old(self).wf(),
            drawable(center),
            radius < 0x4000_0000_0000_0000,
        ensures
            final(self).wf(),
            final(self).format() == old(self).format(),
            final(self).spec_clear_color() == old(self).spec_clear_color(),
            radius == 0 ==> final(self)@ == old(self)@,
            radius > 0 ==> final(self)@ == old(self).format().paint_circle_from(
                old(self)@,
                center.x as int,
                center.y as int,
                0,
                radius as int,
                3 - 2 * radius,
                color,
            ),
    {
        if radius == 0 {
            return;
        }
        let ghost info = self.info;
        let ghost target = info.paint_circle_from(
            self@,
            center.x as int,
            center.y as int,
            0,
            radius as int,
            3 - 2 * radius,
            color,
        );
        let (cx, cy) = center.to_coord();
        let cx = cx as i128;
        let cy = cy as i128;
        let r = radius as i128;
        let mut x: i128 = 0;
        let mut y: i128 = r;
        let mut d: i128 = 3 - 2 * r;
        while x <= y
            invariant
                self.wf(),
                self.info == info,
                info == old(self).info,
                self.clear_color == old(self).clear_color,
                0 <= cx < 0x4000_0000_0000_0000,
                0 <= cy < 0x4000_0000_0000_0000,
                0 < r < 0x4000_0000_0000_0000,
                0 <= x,
                x <= y + 2,
                -1 <= y <= r,
                -(3 + 2 * r + x * (4 * r + 10)) <= d <= 3 + 2 * r + x * (4 * r + 10),
                info.paint_circle_from(self@, cx as int, cy as int, x as int, y as int, d as int, color)
                    == target,
            decreases y - x + 2,
        {
            proof {
                assert(x * (4 * r + 10) <= (r + 2) * (4 * r + 10)) by (nonlinear_arith)
                    requires
                        0 <= x <= r + 2,
                        0 < r,
                ;
                assert((r + 2) * (4 * r + 10) <= 0x4000_0000_0000_0002 * 0x1_0000_0000_0000_000A)
                    by (nonlinear_arith)
                    requires
                        0 < r < 0x4000_0000_0000_0000,
                ;
                assert(0 <= x * (4 * r + 10)) by (nonlinear_arith)
                    requires
                        0 <= x,
                        0 < r,
                ;
            }
            self.paint_signed(cx + x, cy + y, &color);
            self.paint_signed(cx + x, cy - y, &color);
            self.paint_signed(cx - x, cy + y, &color);
            self.paint_signed(cx - x, cy - y, &color);
            self.paint_signed(cx + y, cy + x, &color);
            self.paint_signed(cx + y, cy - x, &color);
            self.paint_signed(cx - y, cy + x, &color);
            self.paint_signed(cx - y, cy - x, &color);
            proof {
                let oct = FramebufferInfo::octants(cx as int, cy as int, x as int, y as int);
                reveal_with_fuel(FramebufferInfo::paint_all, 9);
                assert(oct.drop_last().drop_last().drop_last().drop_last().drop_last().drop_last()
                    .drop_last().drop_last() =~= Seq::<(int, int)>::empty());
            }
            if d < 0 {
                d = d + 4 * x + 6;
            } else {
                d = d + 4 * (x - y) + 10;
                y = y - 1;
            }
            x = x + 1;
            proof {
                assert(x * (4 * r + 10) == (x - 1) * (4 * r + 10) + (4 * r + 10)) by (nonlinear_arith);
            }
        }
    }

    /// Moves the picture by `offset` rows (down when positive) and fills the
    /// rows that come into view with the clear color; a move by the whole
    /// height or more clears the screen.
    pub fn scroll_y(&mut self, offset: i64)
        requires
            old(self).wf(),
        ensures
            final(self).wf(),
            final(self).format() == old(self).format(),
            final(self).spec_clear_color() == old(self).spec_clear_color(),
            offset == 0 ==> final(self)@ == old(self)@,
            offset != 0 ==> final(self)@.dirty_min_x == 0 && final(self)@.dirty_min_y == 0
                && final(self)@.dirty_max_x == old(self).format().width
                && final(self)@.dirty_max_y == old(self).format().height,
            offset != 0 && (if offset >= 0 { offset as int } else { -offset }) >= old(
                self,
            ).format().height ==> final(self)@.pixels == old(self).format().filled(
                old(self).clear_value(),
            ),
            offset != 0 && (if offset >= 0 { offset as int } else { -offset }) < old(
                self,
            ).format().height ==> final(self)@.pixels == old(self).format().scrolled(
                old(self)@.pixels,
                offset as int,
                old(self).clear_value(),
            ),
    {
        if offset == 0 {
            return;
        }
        let abs_offset: u64 = if offset >= 0 { offset as u64 } else { (-(offset as i128)) as u64 };
        if abs_offset >= self.info.height {
            self.clear();
            return;
        }
        let color = self.clear_color;
        let masked = self.mask_color(&color);
        let fill = self.stored_value(masked);
        let ghost info = self.info;
        let n = self.back_buffer.len();
        proof {
            assert(abs_offset * info.width <= info.width * info.height) by (nonlinear_arith)
                requires
                    abs_offset < info.height,
            ;
        }
        let k = (abs_offset * self.info.width) as usize;
        let ghost target = info.scrolled(self.back_buffer@, offset as int, fill);
        let mut moved: Vec<u32> = Vec::new();
        let mut i: usize = 0;
        while i < n
            invariant
                self.wf(),
                self.info == info,
                n == self.back_buffer@.len(),
                k <= n,
                k == (if offset >= 0 { offset as int } else { -offset }) * info.width,
                offset != 0,
                target == info.scrolled(self.back_buffer@, offset as int, fill),
                i <= n,
                moved@ == target.take(i as int),
            decreases n - i,
        {
            let v = if offset > 0 {
                if i < k {
                    fill
                } else {
                    self.back_buffer[i - k]
                }
            } else {
                if i < n - k {
                    self.back_buffer[i + k]
                } else {
                    fill
                }
            };
            proof {
                assert(target.take(i as int + 1) =~= target.take(i as int).push(v));
            }
            moved.push(v);
            i = i + 1;
        }
        proof {
            assert(moved@ =~= target);
        }
        self.back_buffer = moved;
        self.dirty_min_x = 0;
        self.dirty_min_y = 0;
        self.dirty_max_x = self.info.width;
        self.dirty_max_y = self.info.height;
    }

    /// The bytes of the rows that changed since the last call, each with the
    /// offset where it belongs in the framebuffer (rows `pitch` bytes apart);
    /// the dirty rectangle is then emptied. Nothing is handed out, and nothing
    /// changes, when the dirty rectangle is empty.
    pub fn present(&mut self) -> (copies: Vec<FrameCopy>)
        requires
            old(self).wf(),
        ensures
            final(self).wf(),
            final(self).format() == old(self).format(),
            final(self).spec_clear_color() == old(self).spec_clear_color(),
            final(self)@.pixels == old(self)@.pixels,
            ({
                let f = old(self).format();
                let cv = old(self)@;
                let min_x = min_u64(cv.dirty_min_x, f.width);
                let min_y = min_u64(cv.dirty_min_y, f.height);
                let max_x = min_u64(cv.dirty_max_x, f.width);
                let max_y = min_u64(cv.dirty_max_y, f.height);
                if min_x >= max_x || min_y >= max_y {
                    copies@.len() == 0 && final(self)@ == cv
                } else {
                    &&& copies@.len() == max_y - min_y
                    &&& forall|j: int|
                        0 <= j < copies@.len() ==> {
                            &&& (#[trigger] copies@[j]).offset == (min_y + j) * f.pitch + min_x
                                * f.pixel_bytes()
                            &&& copies@[j].bytes@ == row_bytes(
                                cv.pixels,
                                f.index(min_x as int, min_y + j),
                                (max_x - min_x) as nat,
                                f.pixel_bytes(),
                            )
                        }
                    &&& final(self)@.dirty_min_x == u64::MAX
                    &&& final(self)@.dirty_min_y == u64::MAX
                    &&& final(self)@.dirty_max_x == 0
                    &&& final(self)@.dirty_max_y == 0
                }
            }),
    {
        let w = self.info.width;
        let h = self.info.height;
        let min_x = if self.dirty_min_x < w { self.dirty_min_x } else { w };
        let min_y = if self.dirty_min_y < h { self.dirty_min_y } else { h };
        let max_x = if self.dirty_max_x < w { self.dirty_max_x } else { w };
        let max_y = if self.dirty_max_y < h { self.dirty_max_y } else { h };
        let mut copies: Vec<FrameCopy> = Vec::new();
        if min_x >= max_x || min_y >= max_y {
            return copies;
        }
        let ghost info = self.info;
        let ps = self.pixel_size;
        let mut y = min_y;
        while y < max_y
            invariant
                self.wf(),
                self.info == info,
                self.back_buffer@ == old(self).back_buffer@,
                ps == info.pixel_bytes(),
                w == info.width,
                h == info.height,
                min_x < max_x <= w,
                min_y <= y <= max_y,
                max_y <= h,
                copies@.len() == y - min_y,
                forall|j: int|
                    0 <= j < copies@.len() ==> {
                        &&& (#[trigger] copies@[j]).offset == (min_y + j) * info.pitch + min_x
                            * info.pixel_bytes()
                        &&& copies@[j].bytes@ == row_bytes(
                            self.back_buffer@,
                            info.index(min_x as int, min_y + j),
                            (max_x - min_x) as nat,
                            info.pixel_bytes(),
                        )
                    },
            decreases max_y - y,
        {
            proof {
                lemma_index_in_range(info, min_x as int, y as int);
                lemma_index_in_range(info, max_x - 1, y as int);
                assert(y * info.pitch + min_x * ps <= info.height * info.pitch + info.width * 4) by (nonlinear_arith)
                    requires
                        y < info.height,
                        min_x < info.width,
                        ps <= 4,
                ;
            }
            let row_start = (y * w + min_x) as usize;
            let count = (max_x - min_x) as usize;
            let mut bytes: Vec<u8> = Vec::new();
            let mut i: usize = 0;
            while i < count
                invariant
                    self.wf(),
                    self.info == info,
                    ps == info.pixel_bytes(),
                    row_start + count <= self.back_buffer@.len(),
                    i <= count,
                    bytes@ == row_bytes(self.back_buffer@, row_start as int, i as nat, ps as nat),
                decreases count - i,
            {
                let v = self.back_buffer[row_start + i];
                push_pixel_bytes(&mut bytes, v, ps);
                i = i + 1;
            }
            let offset = (y * self.info.pitch) as usize + (min_x as usize) * ps;
            copies.push(FrameCopy { offset, bytes });
            y = y + 1;
        }
        self.dirty_min_x = u64::MAX;
        self.dirty_min_y = u64::MAX;
        self.dirty_max_x = 0;
        self.dirty_max_y = 0;
        copies
    }

    /// Paints the row `(x_from, y) ..= (x_to, y)`, left to right.
    fn paint_row(&mut self, y: u64, x_from: u64, x_to: u64, color: &Color)
        requires
            old(self).wf(),
            x_to < u64::MAX,
        ensures
            final(self).wf(),
            final(self).format() == old(self).format(),
            final(self).spec_clear_color() == old(self).spec_clear_color(),
            final(self)@ == old(self).format().paint_all(
                old(self)@,
                FramebufferInfo::row_points(y as int, x_from as int, x_to as int),
                *color,
            ),
    {
        let ghost info = self.info;
        let ghost start = self@;
        let mut x = x_from;
        while x <= x_to
            invariant
                self.wf(),
                self.info == info,
                self.clear_color == old(self).clear_color,
                info == old(self).info,
                start == old(self)@,
                x_from <= x,
                x <= x_to + 1 || x == x_from,
                x_to < u64::MAX,
                self@ == info.paint_all(
                    start,
                    FramebufferInfo::row_points(y as int, x_from as int, x as int - 1),
                    *color,
                ),
            decreases x_to + 1 - x,
        {
            proof {
                let pts = FramebufferInfo::row_points(y as int, x_from as int, x as int - 1);
                assert(FramebufferInfo::row_points(y as int, x_from as int, x as int) =~= pts.push(
                    (x as int, y as int),
                ));
                lemma_paint_all_push(info, start, pts, (x as int, y as int), *color);
            }
            self.set_pixel_raw(x, y, color);
            x = x + 1;
        }
        proof {
            assert(FramebufferInfo::row_points(y as int, x_from as int, x as int - 1)
                =~= FramebufferInfo::row_points(y as int, x_from as int, x_to as int));
        }
    }

    /// Fills the rectangle from `pixel` to `pixel + (width, height)`, both
    /// corners included and cut at the right and bottom edges of the screen.
    pub fn fill_rect(&mut self, pixel: Pixel, width: u64, height: u64, color: Color)
        requires
            old(self).wf(),
            old(self).format().width > 0,
            old(self).format().height > 0,
            pixel.x + width <= u64::MAX,
            pixel.y + height <= u64::MAX,
        ensures
            final(self).wf(),
            final(self).format() == old(self).format(),
            final(self).spec_clear_color() == old(self).spec_clear_color(),
            final(self)@ == old(self).format().paint_rect(
                old(self)@,
                pixel.x as int,
                min_u64((pixel.x + width) as u64, (old(self).format().width - 1) as u64) as int,
                pixel.y as int,
                min_u64((pixel.y + height) as u64, (old(self).format().height - 1) as u64) as int,
                color,
            ),
    {
        let (x_min, y_min) = pixel.to_coord();
        let x_max = x_min + width;
        let y_max = y_min + height;
        let x_start = x_min;
        let x_end = if x_max < self.info.width - 1 { x_max } else { self.info.width - 1 };
        let y_start = y_min;
        let y_end = if y_max < self.info.height - 1 { y_max } else { self.info.height - 1 };
        let ghost info = self.info;
        let ghost start = self@;
        let mut y = y_start;
        while y <= y_end
            invariant
                self.wf(),
                self.info == info,
                info == old(self).info,
                self.clear_color == old(self).clear_color,
                start == old(self)@,
                y_start <= y,
                y <= y_end + 1 || y == y_start,
                y_end < u64::MAX,
                x_end < u64::MAX,
                self@ == info.paint_rect(
                    start,
                    x_start as int,
                    x_end as int,
                    y_start as int,
                    y as int - 1,
                    color,
                ),
            decreases y_end + 1 - y,
        {
            self.paint_row(y, x_start, x_end, &color);
            y = y + 1;
        }
    }
}

} // verus!
