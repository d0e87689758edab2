use vstd::prelude::*;

verus! {

/// Width of the canvas in pixels.
pub const WIDTH: i32 = 500;

/// Height of the canvas in pixels.
pub const HEIGHT: i32 = 500;

/// An RGBA colour, one byte per channel.
#[derive(Clone, Copy, Debug, PartialEq, Eq, Structural)]
pub struct Color {
    pub red: u8,
    pub green: u8,
    pub blue: u8,
    pub alpha: u8,
}

impl Color {
    pub fn new(red: u8, green: u8, blue: u8, alpha: u8) -> (c: Self)
        ensures
            c == (Color { red, green, blue, alpha }),
    {
        Self { red, green, blue, alpha }
    }

    /// The channel stored at offset `k` (0 red, 1 green, 2 blue, 3 alpha) of a pixel.
    pub open spec fn channel(self, k: int) -> u8 {
        if k == 0 {
            self.red
        } else if k == 1 {
            self.green
        } else if k == 2 {
            self.blue
        } else {
            self.alpha
        }
    }
}

/// Where the point given to a shape sits relative to the shape.
#[allow(non_camel_case_types)]
#[derive(Clone, Copy, Debug, PartialEq, Eq, Structural)]
pub enum DrawMode {
    CENTER,
    TOPLEFT,
    BOTTOMLEFT,
    TOPRIGHT,
    BOTTOMRIGHT,
}


/// Index of the first byte of pixel `(i, j)` in a row-major RGBA buffer
/// whose rows are `WIDTH` pixels long.
pub open spec fn pixel_base(i: int, j: int) -> int {
    (i + j * 500) * 4
}

/// `pixel_base(i, j)` as the drawing routines compute it, in `u32`, does not overflow.
pub open spec fn index_fits(i: int, j: int) -> bool {
    pixel_base(i, j) <= u32::MAX
}

/// The buffer after the four bytes of the pixel starting at `base` are set to `c`;
/// a pixel that does not lie wholly inside the buffer is skipped.
pub open spec fn paint(buf: Seq<u8>, base: int, c: Color) -> Seq<u8> {
    if 0 <= base && base + 4 <= buf.len() {
        buf.update(base, c.red).update(base + 1, c.green).update(base + 2, c.blue).update(
            base + 3,
            c.alpha,
        )
    } else {
        buf
    }
}

/// A figure to rasterise, placed in pixel coordinates.
#[derive(Clone, Copy, Debug, PartialEq, Eq, Structural)]
pub enum Shape {
    /// A rectangle `w` by `h` whose corner is `(sx, sy)`: pixels strictly inside
    /// take the fill colour, the others of its frame take the stroke colour.
    Frame { sx: u32, sy: u32, w: u32, h: u32 },
    /// A disc of diameter `r` around `(cx, cy)`: pixels nearer than `r / 2` take the
    /// fill colour, pixels nearer than `(r + 1) / 2` the stroke colour, distances
    /// compared exactly (not through rounded `f32` square roots).
    Disc { cx: u32, cy: u32, r: u32 },
}

impl Shape {
    /// Whether the shape paints pixel `(i, j)` when it is inside the scanned box.
    pub open spec fn covers(self, i: int, j: int) -> bool {
        match self {
            Shape::Frame { .. } => true,
            Shape::Disc { cx, cy, r } => 4 * ((cx - i) * (cx - i) + (cy - j) * (cy - j)) < (r
                + 1) * (r + 1),
        }
    }

    /// The colour the shape gives pixel `(i, j)`.
    pub open spec fn color_at(self, fill: Color, stroke: Color, i: int, j: int) -> Color {
        match self {
            Shape::Frame { sx, sy, w, h } => if sx < i < sx + w && sy < j < sy + h {
                fill
            } else {
                stroke
            },
            Shape::Disc { cx, cy, r } => if 4 * ((cx - i) * (cx - i) + (cy - j) * (cy - j)) < r
                * r {
                fill
            } else {
                stroke
            },
        }
    }

    /// Whether the shape paints pixel `(i, j)`.
    pub fn contains_pixel(&self, i: u32, j: u32) -> (b: bool)
        ensures
            b == self.covers(i as int, j as int),
    {
        match self {
            Shape::Frame { .. } => true,
            Shape::Disc { cx, cy, r } => {
                let d = squared_gap(*cx, i) + squared_gap(*cy, j);
                let r1 = *r as u128 + 1;
                proof {
                    lemma_square_bound(r1 as int, 0x1_0000_0000);
                }
                4 * d < r1 * r1
            },
        }
    }

    /// The colour the shape gives pixel `(i, j)`.
    pub fn pixel_color(&self, fill: Color, stroke: Color, i: u32, j: u32) -> (c: Color)
        ensures
            c == self.color_at(fill, stroke, i as int, j as int),
    {
        match self {
            Shape::Frame { sx, sy, w, h } => {
                if *sx < i && (i as u64) < *sx as u64 + *w as u64 && *sy < j && (j as u64) < *sy
                    as u64 + *h as u64 {
                    fill
                } else {
                    stroke
                }
            },
            Shape::Disc { cx, cy, r } => {
                let d = squared_gap(*cx, i) + squared_gap(*cy, j);
                let r0 = *r as u128;
                proof {
                    lemma_square_bound(r0 as int, 0x1_0000_0000);
                }
                if 4 * d < r0 * r0 {
                    fill
                } else {
                    stroke
                }
            },
        }
    }
}

proof fn lemma_square_bound(a: int, m: int)
    requires
        0 <= a <= m,
    ensures
        0 <= a * a <= m * m,
{
    assert(0 <= a * a <= m * m) by (nonlinear_arith)
        requires
            0 <= a <= m,
    ;
}

/// `(a - b)²`, computed without overflow.
fn squared_gap(a: u32, b: u32) -> (s: u128)
    ensures
        s == (a - b) * (a - b),
        s <= 0xffff_ffff * 0xffff_ffff,
{
    let g: u128 = if a >= b {
        (a - b) as u128
    } else {
        (b - a) as u128
    };
    proof {
        lemma_square_bound(g as int, 0xffff_ffff);
        assert(g * g == (a - b) * (a - b)) by (nonlinear_arith)
            requires
                g == a - b || g == b - a,
        ;
    }
    g * g
}


/// The buffer after column `i` of a shape is scanned over rows `j .. j_end`, top to bottom.
pub open spec fn draw_column(
    buf: Seq<u8>,
    s: Shape,
    fill: Color,
    stroke: Color,
    i: int,
    j: int,
    j_end: int,
) -> Seq<u8>
    decreases j_end - j,
{
    if j >= j_end {
        buf
    } else {
        let next = if s.covers(i, j) {
            paint(buf, pixel_base(i, j), s.color_at(fill, stroke, i, j))
        } else {
            buf
        };
        draw_column(next, s, fill, stroke, i, j + 1, j_end)
    }
}

/// The buffer after the box of columns `i .. i_end` and rows `j_lo .. j_end` is
/// scanned column by column, left to right.
pub open spec fn draw_box(
    buf: Seq<u8>,
    s: Shape,
    fill: Color,
    stroke: Color,
    i: int,
    i_end: int,
    j_lo: int,
    j_end: int,
) -> Seq<u8>
    decreases i_end - i,
{
    if i >= i_end {
        buf
    } else {
        draw_box(
            draw_column(buf, s, fill, stroke, i, j_lo, j_end),
            s,
            fill,
            stroke,
            i + 1,
            i_end,
            j_lo,
            j_end,
        )
    }
}

/// Every pixel of the box that the shape paints has an index that fits in `u32`.
pub open spec fn box_fits(s: Shape, i_lo: int, i_hi: int, j_lo: int, j_hi: int) -> bool {
    forall|i: int, j: int|
        i_lo <= i < i_hi && j_lo <= j < j_hi && #[trigger] s.covers(i, j) ==> index_fits(i, j)
}

/// Byte `k` of the buffer after the box is drawn, stated directly: the channel of the
/// pixel that holds byte `k` when the shape paints that pixel, else the old byte.
pub open spec fn byte_after(
    old: Seq<u8>,
    s: Shape,
    fill: Color,
    stroke: Color,
    i_lo: int,
    i_hi: int,
    j_lo: int,
    j_hi: int,
    k: int,
) -> u8 {
    let q = k / 4;
    let i = q % 500;
    let j = q / 500;
    if i_lo <= i < i_hi && j_lo <= j < j_hi && s.covers(i, j) {
        s.color_at(fill, stroke, i, j).channel(k % 4)
    } else {
        old[k]
    }
}

/// Byte `k` lies in pixel `(i, j)` exactly when `k / 4` is that pixel's number.
proof fn lemma_byte_pixel(k: int, i: int, j: int)
    requires
        0 <= k,
        0 <= i < 500,
        0 <= j,
    ensures
        (pixel_base(i, j) <= k < pixel_base(i, j) + 4) <==> ((k / 4) % 500 == i && (k / 4) / 500
            == j),
        (pixel_base(i, j) <= k < pixel_base(i, j) + 4) ==> k - pixel_base(i, j) == k % 4,
{
    let q = k / 4;
    vstd::arithmetic::div_mod::lemma_fundamental_div_mod(k, 4);
    vstd::arithmetic::div_mod::lemma_fundamental_div_mod(q, 500);
    assert(0 <= k % 4 < 4);
    assert(0 <= q % 500 < 500);
    if pixel_base(i, j) <= k < pixel_base(i, j) + 4 {
        vstd::arithmetic::div_mod::lemma_fundamental_div_mod_converse(
            k,
            4,
            i + j * 500,
            k - pixel_base(i, j),
        );
        vstd::arithmetic::div_mod::lemma_fundamental_div_mod_converse(q, 500, j, i);
    }
    if q % 500 == i && q / 500 == j {
        assert(q == i + j * 500);
    }
}

proof fn lemma_paint_bytes(buf: Seq<u8>, base: int, c: Color)
    ensures
        paint(buf, base, c).len() == buf.len(),
        forall|k: int|
            0 <= k < buf.len() ==> #[trigger] paint(buf, base, c)[k] == if 0 <= base && base + 4
                <= buf.len() && base <= k < base + 4 {
                c.channel(k - base)
            } else {
                buf[k]
            },
{
}

proof fn lemma_column_bytes(
    buf: Seq<u8>,
    s: Shape,
    fill: Color,
    stroke: Color,
    i: int,
    j: int,
    j_end: int,
)
    requires
        0 <= i < 500,
        0 <= j,
        buf.len() % 4 == 0,
    ensures
        draw_column(buf, s, fill, stroke, i, j, j_end).len() == buf.len(),
        forall|k: int|
            0 <= k < buf.len() ==> #[trigger] draw_column(buf, s, fill, stroke, i, j, j_end)[k]
                == if (k / 4) % 500 == i && j <= (k / 4) / 500 < j_end && s.covers(
                i,
                (k / 4) / 500,
            ) {
                s.color_at(fill, stroke, i, (k / 4) / 500).channel(k % 4)
            } else {
                buf[k]
            },
    decreases j_end - j,
{
    if j < j_end {
        let next = if s.covers(i, j) {
            paint(buf, pixel_base(i, j), s.color_at(fill, stroke, i, j))
        } else {
            buf
        };
        lemma_paint_bytes(buf, pixel_base(i, j), s.color_at(fill, stroke, i, j));
        lemma_column_bytes(next, s, fill, stroke, i, j + 1, j_end);
        assert forall|k: int| 0 <= k < buf.len() implies #[trigger] draw_column(
            buf,
            s,
            fill,
            stroke,
            i,
            j,
            j_end,
        )[k] == if (k / 4) % 500 == i && j <= (k / 4) / 500 < j_end && s.covers(i, (k / 4) / 500) {
            s.color_at(fill, stroke, i, (k / 4) / 500).channel(k % 4)
        } else {
            buf[k]
        } by {
            lemma_byte_pixel(k, i, j);
            vstd::arithmetic::div_mod::lemma_fundamental_div_mod(k, 4);
            vstd::arithmetic::div_mod::lemma_fundamental_div_mod(buf.len() as int, 4);
            assert(pixel_base(i, j) % 4 == 0) by {
                vstd::arithmetic::div_mod::lemma_fundamental_div_mod_converse(
                    pixel_base(i, j),
                    4,
                    i + j * 500,
                    0,
                );
            }
        }
    }
}

/// Drawing a box that does not wrap across rows changes exactly the bytes of the
/// pixels the shape paints, each to the matching channel of its colour.
pub proof fn lemma_draw_box_bytes(
    buf: Seq<u8>,
    s: Shape,
    fill: Color,
    stroke: Color,
    i: int,
    i_end: int,
    j_lo: int,
    j_end: int,
)
    requires
        0 <= i,
        i_end <= 500,
        0 <= j_lo,
        buf.len() % 4 == 0,
    ensures
        draw_box(buf, s, fill, stroke, i, i_end, j_lo, j_end).len() == buf.len(),
        forall|k: int|
            0 <= k < buf.len() ==> #[trigger] draw_box(buf, s, fill, stroke, i, i_end, j_lo, j_end)[k]
                == byte_after(buf, s, fill, stroke, i, i_end, j_lo, j_end, k),
    decreases i_end - i,
{
    if i < i_end {
        let col = draw_column(buf, s, fill, stroke, i, j_lo, j_end);
        lemma_column_bytes(buf, s, fill, stroke, i, j_lo, j_end);
        lemma_draw_box_bytes(col, s, fill, stroke, i + 1, i_end, j_lo, j_end);
        assert forall|k: int| 0 <= k < buf.len() implies #[trigger] draw_box(
            buf,
            s,
            fill,
            stroke,
            i,
            i_end,
            j_lo,
            j_end,
        )[k] == byte_after(buf, s, fill, stroke, i, i_end, j_lo, j_end, k) by {
            assert(col[k] == draw_column(buf, s, fill, stroke, i, j_lo, j_end)[k]);
        }
    }
}


/// Corner `(start_x, start_y)` of a `w` by `h` rectangle placed at `(x, y)` in `mode`.
pub open spec fn rect_corner(mode: DrawMode, x: int, y: int, w: int, h: int) -> (int, int) {
    match mode {
        DrawMode::CENTER => (x - w / 2, y - h / 2),
        DrawMode::TOPLEFT => (x, y),
        DrawMode::BOTTOMLEFT => (x, y - h),
        DrawMode::TOPRIGHT => (x - w, y),
        DrawMode::BOTTOMRIGHT => (x - w, y - h),
    }
}

/// The `u32` arithmetic of drawing a `w` by `h` rectangle at `(x, y)` in `mode`
/// neither underflows nor overflows: the corner and the frame one pixel around it
/// stay in range, and so does the index of every pixel of the frame.
pub open spec fn rect_drawable(mode: DrawMode, x: u32, y: u32, w: u32, h: u32) -> bool {
    let (sx, sy) = rect_corner(mode, x as int, y as int, w as int, h as int);
    &&& 1 <= sx
    &&& 1 <= sy
    &&& sx + w + 1 <= u32::MAX
    &&& sy + h + 1 <= u32::MAX
    &&& index_fits(sx + w, sy + h)
}

/// The buffer after a `w` by `h` rectangle at `(x, y)` in `mode` is drawn: its frame,
/// from one pixel before the corner to the far edge, scanned column by column.
pub open spec fn rect_effect(
    buf: Seq<u8>,
    mode: DrawMode,
    x: u32,
    y: u32,
    w: u32,
    h: u32,
    fill: Color,
    stroke: Color,
) -> Seq<u8> {
    let (sx, sy) = rect_corner(mode, x as int, y as int, w as int, h as int);
    draw_box(
        buf,
        Shape::Frame { sx: sx as u32, sy: sy as u32, w, h },
        fill,
        stroke,
        sx - 1,
        sx + w + 1,
        sy - 1,
        sy + h + 1,
    )
}

/// Scanned box `(min_x, max_x, min_y, max_y)` and centre `(cx, cy)` of a circle of
/// diameter `r` placed at `(x, y)` in `mode`.
pub open spec fn circle_layout(mode: DrawMode, x: int, y: int, r: int) -> (
    int,
    int,
    int,
    int,
    int,
    int,
) {
    match mode {
        DrawMode::CENTER => (x - r / 2, x + r / 2, y - r / 2, y + r / 2, x, y),
        DrawMode::TOPLEFT => (x, x + r, y, y + r, x + r / 2, y + r / 2),
        DrawMode::BOTTOMLEFT => (x, x + r, y - r, y, x + r / 2, y - r / 2),
        DrawMode::TOPRIGHT => (x - r, x, y, y + r, x + r / 2, y + r / 2),
        DrawMode::BOTTOMRIGHT => (x - r, x, y - r, y, x + r / 2, y - r / 2),
    }
}

/// `v` is a value of `u32`.
pub open spec fn in_u32(v: int) -> bool {
    0 <= v <= u32::MAX
}

/// The disc that a circle of diameter `r` at `(x, y)` in `mode` draws.
pub open spec fn circle_shape(mode: DrawMode, x: u32, y: u32, r: u32) -> Shape {
    let l = circle_layout(mode, x as int, y as int, r as int);
    Shape::Disc { cx: l.4 as u32, cy: l.5 as u32, r }
}

/// The `u32` arithmetic of drawing a circle of diameter `r` at `(x, y)` in `mode`
/// neither underflows nor overflows: the box and centre stay in range, and so does
/// the index of every pixel the disc paints.
pub open spec fn circle_drawable(mode: DrawMode, x: u32, y: u32, r: u32) -> bool {
    let l = circle_layout(mode, x as int, y as int, r as int);
    &&& in_u32(l.0)
    &&& in_u32(l.1)
    &&& in_u32(l.2)
    &&& in_u32(l.3)
    &&& in_u32(l.4)
    &&& in_u32(l.5)
    &&& box_fits(circle_shape(mode, x, y, r), l.0, l.1, l.2, l.3)
}

/// The buffer after a circle of diameter `r` at `(x, y)` in `mode` is drawn.
pub open spec fn circle_effect(
    buf: Seq<u8>,
    mode: DrawMode,
    x: u32,
    y: u32,
    r: u32,
    fill: Color,
    stroke: Color,
) -> Seq<u8> {
    let l = circle_layout(mode, x as int, y as int, r as int);
    draw_box(buf, circle_shape(mode, x, y, r), fill, stroke, l.0, l.1, l.2, l.3)
}

/// The state of a canvas as contracts see it.
pub struct CanvasState {
    /// The bytes of the pixel buffer, four per pixel, rows of `WIDTH` pixels.
    pub pixels: Seq<u8>,
    pub stroke: Color,
    pub fill: Color,
    pub ellipse_mode: DrawMode,
    pub rect_mode: DrawMode,
}

impl CanvasState {
    /// The drawing state other than the pixels is that of `other`.
    pub open spec fn same_settings(self, other: CanvasState) -> bool {
        &&& self.stroke == other.stroke
        &&& self.fill == other.fill
        &&& self.ellipse_mode == other.ellipse_mode
        &&& self.rect_mode == other.rect_mode
    }
}

/// An RGBA canvas of `WIDTH` by `HEIGHT` pixels together with the drawing state:
/// the stroke and fill colours and where circles and rectangles are anchored.
pub struct Canvas {
    buffer: Vec<u8>,
    stroke_color: Color,
    fill_color: Color,
    ellipse_draw_mode: DrawMode,
    rect_draw_mode: DrawMode,
}

impl View for Canvas {
    type V = CanvasState;

    closed spec fn view(&self) -> CanvasState {
        CanvasState {
            pixels: self.buffer@,
            stroke: self.stroke_color,
            fill: self.fill_color,
            ellipse_mode: self.ellipse_draw_mode,
            rect_mode: self.rect_draw_mode,
        }
    }
}

impl Canvas {
    /// The buffer holds whole pixels.
    pub closed spec fn wf(&self) -> bool {
        self.buffer@.len() % 4 == 0
    }

    /// A canvas with an empty buffer, a grey stroke, a white fill, circles anchored
    /// at their centre and rectangles at their top-left corner.
    pub fn new() -> (c: Canvas)
        ensures
            c.wf(),
            c@.pixels == Seq::<u8>::empty(),
            c@.stroke == (Color { red: 100, green: 100, blue: 100, alpha: 255 }),
            c@.fill == (Color { red: 255, green: 255, blue: 255, alpha: 255 }),
            c@.ellipse_mode == DrawMode::CENTER,
            c@.rect_mode == DrawMode::TOPLEFT,
    {
        Canvas {
            buffer: Vec::new(),
            stroke_color: Color { red: 100, green: 100, blue: 100, alpha: 255 },
            fill_color: Color { red: 255, green: 255, blue: 255, alpha: 255 },
            ellipse_draw_mode: DrawMode::CENTER,
            rect_draw_mode: DrawMode::TOPLEFT,
        }
    }

    /// The pixel buffer.
    pub fn buffer(&self) -> (b: &Vec<u8>)
        ensures
            b@ == self@.pixels,
    {
        &self.buffer
    }

    /// Appends `4 * WIDTH * HEIGHT` zero bytes, one black transparent screen, to the buffer.
    pub fn init(&mut self)
        requires
            old(self).wf(),
            old(self)@.pixels.len() + 4 * 500 * 500 <= usize::MAX,
        ensures
            final(self).wf(),
            final(self)@.same_settings(old(self)@),
            final(self)@.pixels == old(self)@.pixels + Seq::new(
                4 * 500 * 500,
                |k: int| 0u8,
            ),
    {
        let ghost start = self.buffer@;
        let ghost settings = self@;
        let total: i32 = 4 * WIDTH * HEIGHT;
        let mut n: i32 = 0;
        while n < total
            invariant
                total == 4 * 500 * 500,
                0 <= n <= total,
                start.len() + 4 * 500 * 500 <= usize::MAX,
                start.len() % 4 == 0,
                self.buffer@ == start + Seq::new(n as nat, |k: int| 0u8),
                self@.same_settings(settings),
            decreases total - n,
        {
            self.buffer.push(0);
            n = n + 1;
            assert(self.buffer@ =~= start + Seq::new(n as nat, |k: int| 0u8));
        }
        assert(self.buffer@.len() == start.len() + 4 * 500 * 500);
    }

    /// Sets the four bytes of the pixel that starts at byte `base` to `c`.
    pub fn put(&mut self, base: usize, c: Color)
        requires
            old(self).wf(),
            base + 4 <= old(self)@.pixels.len(),
        ensures
            final(self).wf(),
            final(self)@.same_settings(old(self)@),
            final(self)@.pixels == paint(old(self)@.pixels, base as int, c),
    {
        let len = self.buffer.len();
        assert(base + 4 <= len);
        self.buffer.set(base, c.red);
        self.buffer.set(base + 1, c.green);
        self.buffer.set(base + 2, c.blue);
        self.buffer.set(base + 3, c.alpha);
    }

    /// Sets pixel `(x, y)` to the fill colour.
    pub fn pixel(&mut self, x: u32, y: u32)
        requires
            old(self).wf(),
            index_fits(x as int, y as int),
            pixel_base(x as int, y as int) + 4 <= old(self)@.pixels.len(),
        ensures
            final(self).wf(),
            final(self)@.same_settings(old(self)@),
            final(self)@.pixels == paint(
                old(self)@.pixels,
                pixel_base(x as int, y as int),
                old(self)@.fill,
            ),
    {
        let base: u32 = (x + y * 500) * 4;
        let c = self.fill_color;
        self.put(base as usize, c);
    }

    /// The stroke colour.
    pub fn stroke_color(&self) -> (c: Color)
        ensures
            c == self@.stroke,
    {
        self.stroke_color
    }

    /// The fill colour.
    pub fn fill_color(&self) -> (c: Color)
        ensures
            c == self@.fill,
    {
        self.fill_color
    }

    /// Where circles are anchored.
    pub fn ellipse_draw_mode(&self) -> (m: DrawMode)
        ensures
            m == self@.ellipse_mode,
    {
        self.ellipse_draw_mode
    }

    /// Where rectangles are anchored.
    pub fn rect_draw_mode(&self) -> (m: DrawMode)
        ensures
            m == self@.rect_mode,
    {
        self.rect_draw_mode
    }

    /// Anchors circles drawn from now on by `mode`.
    pub fn set_ellipse_draw_mode(&mut self, mode: DrawMode)
        ensures
            final(self)@ == (CanvasState { ellipse_mode: mode, ..old(self)@ }),
            final(self).wf() == old(self).wf(),
    {
        self.ellipse_draw_mode = mode;
    }

    /// Anchors rectangles drawn from now on by `mode`.
    pub fn set_rect_draw_mode(&mut self, mode: DrawMode)
        ensures
            final(self)@ == (CanvasState { rect_mode: mode, ..old(self)@ }),
            final(self).wf() == old(self).wf(),
    {
        self.rect_draw_mode = mode;
    }

    /// Makes `color` the fill colour.
    pub fn fill(&mut self, color: Color)
        ensures
            final(self)@.pixels == old(self)@.pixels,
            final(self).wf() == old(self).wf(),
            final(self)@.fill == color,
            final(self)@.stroke == old(self)@.stroke,
            final(self)@.ellipse_mode == old(self)@.ellipse_mode,
            final(self)@.rect_mode == old(self)@.rect_mode,
    {
        self.fill_color = color;
    }

    /// Makes `color` the stroke colour.
    pub fn stroke(&mut self, color: Color)
        ensures
            final(self)@.pixels == old(self)@.pixels,
            final(self).wf() == old(self).wf(),
            final(self)@.stroke == color,
            final(self)@.fill == old(self)@.fill,
            final(self)@.ellipse_mode == old(self)@.ellipse_mode,
            final(self)@.rect_mode == old(self)@.rect_mode,
    {
        self.stroke_color = color;
    }

    /// Scans columns `i_lo .. i_hi` and rows `j_lo .. j_hi`, painting each pixel
    /// the shape covers, as long as it lies wholly inside the buffer.
    fn draw_shape(
        &mut self,
        s: Shape,
        fill: Color,
        stroke: Color,
        i_lo: u32,
        i_hi: u32,
        j_lo: u32,
        j_hi: u32,
    )
        requires
            old(self).wf(),
            i_lo <= i_hi,
            j_lo <= j_hi,
            box_fits(s, i_lo as int, i_hi as int, j_lo as int, j_hi as int),
        ensures
            final(self).wf(),
            final(self)@.same_settings(old(self)@),
            final(self)@.pixels == draw_box(
                old(self)@.pixels,
                s,
                fill,
                stroke,
                i_lo as int,
                i_hi as int,
                j_lo as int,
                j_hi as int,
            ),
    {
        let ghost target = draw_box(
            self.buffer@,
            s,
            fill,
            stroke,
            i_lo as int,
            i_hi as int,
            j_lo as int,
            j_hi as int,
        );
        let ghost settings = self@;
        let mut i = i_lo;
        while i < i_hi
            invariant
                i_lo <= i <= i_hi,
                j_lo <= j_hi,
                self.wf(),
                self@.same_settings(settings),
                box_fits(s, i_lo as int, i_hi as int, j_lo as int, j_hi as int),
                draw_box(self.buffer@, s, fill, stroke, i as int, i_hi as int, j_lo as int, j_hi as int)
                    == target,
            decreases i_hi - i,
        {
            let ghost col_start = self.buffer@;
            let mut j = j_lo;
            while j < j_hi
                invariant
                    i_lo <= i < i_hi,
                    j_lo <= j <= j_hi,
                    self.wf(),
                    self@.same_settings(settings),
                    box_fits(s, i_lo as int, i_hi as int, j_lo as int, j_hi as int),
                    draw_column(self.buffer@, s, fill, stroke, i as int, j as int, j_hi as int)
                        == draw_column(col_start, s, fill, stroke, i as int, j_lo as int, j_hi as int),
                decreases j_hi - j,
            {
                if s.contains_pixel(i, j) {
                    let c = s.pixel_color(fill, stroke, i, j);
                    assert(index_fits(i as int, j as int));
                    let base: u32 = (i + j * 500) * 4;
                    let len = self.buffer.len();
                    proof {
                        vstd::arithmetic::div_mod::lemma_fundamental_div_mod_converse(
                            base as int,
                            4,
                            i + j * 500,
                            0,
                        );
                        vstd::arithmetic::div_mod::lemma_fundamental_div_mod(len as int, 4);
                    }
                    if (base as u64) + 3 <= len as u64 {
                        assert(base + 4 <= len);
                        self.put(base as usize, c);
                    }
                }
                j = j + 1;
            }
            i = i + 1;
        }
    }

    /// Whether a `w` by `h` rectangle at `(x, y)` can be drawn in the current
    /// rectangle mode without the `u32` arithmetic leaving its range.
    pub fn rect_fits(&self, x: u32, y: u32, w: u32, h: u32) -> (b: bool)
        ensures
            b == rect_drawable(self@.rect_mode, x, y, w, h),
    {
        let (sx, sy): (i64, i64) = match self.rect_draw_mode {
            DrawMode::CENTER => (x as i64 - (w / 2) as i64, y as i64 - (h / 2) as i64),
            DrawMode::TOPLEFT => (x as i64, y as i64),
            DrawMode::BOTTOMLEFT => (x as i64, y as i64 - h as i64),
            DrawMode::TOPRIGHT => (x as i64 - w as i64, y as i64),
            DrawMode::BOTTOMRIGHT => (x as i64 - w as i64, y as i64 - h as i64),
        };
        let max: i64 = 0xffff_ffff;
        1 <= sx && 1 <= sy && sx + w as i64 + 1 <= max && sy + h as i64 + 1 <= max && ((sx
            + w as i64) + (sy + h as i64) * 500) * 4 <= max
    }

    /// Draws a `w` by `h` rectangle at `(x, y)`, placed by the rectangle mode: the
    /// pixels strictly inside in the fill colour, the frame around them (two pixels
    /// wide on the top and left, one on the bottom and right) in the stroke colour.
    /// Pixels that do not lie wholly inside the buffer are skipped.
    pub fn rect(&mut self, x: u32, y: u32, w: u32, h: u32)
        requires
            old(self).wf(),
            rect_drawable(old(self)@.rect_mode, x, y, w, h),
        ensures
            final(self).wf(),
            final(self)@.same_settings(old(self)@),
            final(self)@.pixels == rect_effect(
                old(self)@.pixels,
                old(self)@.rect_mode,
                x,
                y,
                w,
                h,
                old(self)@.fill,
                old(self)@.stroke,
            ),
            ({
                let (sx, sy) = rect_corner(old(self)@.rect_mode, x as int, y as int, w as int, h as int);
                sx + w + 1 <= WIDTH ==> forall|k: int|
                    0 <= k < old(self)@.pixels.len() ==> #[trigger] final(self)@.pixels[k]
                        == byte_after(
                        old(self)@.pixels,
                        Shape::Frame { sx: sx as u32, sy: sy as u32, w, h },
                        old(self)@.fill,
                        old(self)@.stroke,
                        sx - 1,
                        sx + w + 1,
                        sy - 1,
                        sy + h + 1,
                        k,
                    )
            }),
            final(self)@.pixels.len() == old(self)@.pixels.len(),
            ({
                let (sx, sy) = rect_corner(old(self)@.rect_mode, x as int, y as int, w as int, h as int);
                forall|k: int|
                    0 <= k < old(self)@.pixels.len() && !box_touches(
                        Shape::Frame { sx: sx as u32, sy: sy as u32, w, h },
                        sx - 1,
                        sx + w + 1,
                        sy - 1,
                        sy + h + 1,
                        k,
                    ) ==> #[trigger] final(self)@.pixels[k] == old(self)@.pixels[k]
            }),
    {
        let (sx, sy): (u32, u32) = match self.rect_draw_mode {
            DrawMode::CENTER => (x - w / 2, y - h / 2),
            DrawMode::TOPLEFT => (x, y),
            DrawMode::BOTTOMLEFT => (x, y - h),
            DrawMode::TOPRIGHT => (x - w, y),
            DrawMode::BOTTOMRIGHT => (x - w, y - h),
        };
        let s = Shape::Frame { sx, sy, w, h };
        proof {
            assert forall|i: int, j: int|
                sx - 1 <= i < sx + w + 1 && sy - 1 <= j < sy + h + 1 && #[trigger] s.covers(
                    i,
                    j,
                ) implies index_fits(i, j) by {}
            lemma_draw_box_bytes_when(
                self.buffer@,
                s,
                self.fill_color,
                self.stroke_color,
                sx - 1,
                sx + w + 1,
                sy - 1,
                sy + h + 1,
            );
            assert forall|k: int|
                0 <= k < self.buffer@.len() && !box_touches(
                    s,
                    sx - 1,
                    sx + w + 1,
                    sy - 1,
                    sy + h + 1,
                    k,
                ) implies #[trigger] draw_box(
                self.buffer@,
                s,
                self.fill_color,
                self.stroke_color,
                sx - 1,
                sx + w + 1,
                sy - 1,
                sy + h + 1,
            )[k] == self.buffer@[k] by {
                lemma_draw_box_keeps(
                    self.buffer@,
                    s,
                    self.fill_color,
                    self.stroke_color,
                    sx - 1,
                    sx + w + 1,
                    sy - 1,
                    sy + h + 1,
                    k,
                );
            }
        }
        let fill = self.fill_color;
        let stroke = self.stroke_color;
        self.draw_shape(s, fill, stroke, sx - 1, sx + w + 1, sy - 1, sy + h + 1);
    }

    /// Draws a square of side `size` at `(x, y)`: exactly what `rect(x, y, size, size)` draws.
    pub fn square(&mut self, x: u32, y: u32, size: u32)
        requires
            old(self).wf(),
            rect_drawable(old(self)@.rect_mode, x, y, size, size),
        ensures
            final(self).wf(),
            final(self)@.same_settings(old(self)@),
            final(self)@.pixels == rect_effect(
                old(self)@.pixels,
                old(self)@.rect_mode,
                x,
                y,
                size,
                size,
                old(self)@.fill,
                old(self)@.stroke,
            ),
            ({
                let (sx, sy) = rect_corner(old(self)@.rect_mode, x as int, y as int, size as int, size as int);
                sx + size + 1 <= WIDTH ==> forall|k: int|
                    0 <= k < old(self)@.pixels.len() ==> #[trigger] final(self)@.pixels[k]
                        == byte_after(
                        old(self)@.pixels,
                        Shape::Frame { sx: sx as u32, sy: sy as u32, w: size, h: size },
                        old(self)@.fill,
                        old(self)@.stroke,
                        sx - 1,
                        sx + size + 1,
                        sy - 1,
                        sy + size + 1,
                        k,
                    )
            }),
            final(self)@.pixels.len() == old(self)@.pixels.len(),
            ({
                let (sx, sy) = rect_corner(old(self)@.rect_mode, x as int, y as int, size as int, size as int);
                forall|k: int|
                    0 <= k < old(self)@.pixels.len() && !box_touches(
                        Shape::Frame { sx: sx as u32, sy: sy as u32, w: size, h: size },
                        sx - 1,
                        sx + size + 1,
                        sy - 1,
                        sy + size + 1,
                        k,
                    ) ==> #[trigger] final(self)@.pixels[k] == old(self)@.pixels[k]
            }),
    {
        self.rect(x, y, size, size);
    }

    /// Draws a circle of diameter `radius` at `(x, y)`, placed by the ellipse mode.
    /// The box `min_x .. max_x` by `min_y .. max_y` is scanned; a pixel nearer the
    /// centre than `radius / 2` takes the fill colour, one nearer than
    /// `(radius + 1) / 2` the stroke colour, the others are left alone. Distances are
    /// compared exactly, through the squares of integer coordinates. A comparison of
    /// `f32` square roots agrees with this one for diameters below about 8192; for
    /// larger ones the rounding of `f32` can move a pixel at the edge of a ring from one
    /// side of the comparison to the other, and this exact test does not follow it.
    /// Pixels that do not lie wholly inside the buffer are skipped.
    pub fn circle(&mut self, x: u32, y: u32, radius: u32)
        requires
            old(self).wf(),
            circle_drawable(old(self)@.ellipse_mode, x, y, radius),
        ensures
            final(self).wf(),
            final(self)@.same_settings(old(self)@),
            final(self)@.pixels == circle_effect(
                old(self)@.pixels,
                old(self)@.ellipse_mode,
                x,
                y,
                radius,
                old(self)@.fill,
                old(self)@.stroke,
            ),
            ({
                let l = circle_layout(old(self)@.ellipse_mode, x as int, y as int, radius as int);
                l.1 <= WIDTH ==> forall|k: int|
                    0 <= k < old(self)@.pixels.len() ==> #[trigger] final(self)@.pixels[k]
                        == byte_after(
                        old(self)@.pixels,
                        circle_shape(old(self)@.ellipse_mode, x, y, radius),
                        old(self)@.fill,
                        old(self)@.stroke,
                        l.0,
                        l.1,
                        l.2,
                        l.3,
                        k,
                    )
            }),
            final(self)@.pixels.len() == old(self)@.pixels.len(),
            ({
                let l = circle_layout(old(self)@.ellipse_mode, x as int, y as int, radius as int);
                forall|k: int|
                    0 <= k < old(self)@.pixels.len() && !box_touches(
                        circle_shape(old(self)@.ellipse_mode, x, y, radius),
                        l.0,
                        l.1,
                        l.2,
                        l.3,
                        k,
                    ) ==> #[trigger] final(self)@.pixels[k] == old(self)@.pixels[k]
            }),
    {
        let (min_x, max_x, min_y, max_y, center_x, center_y): (u32, u32, u32, u32, u32, u32) =
            match self.ellipse_draw_mode {
            DrawMode::CENTER => (
                x - radius / 2,
                x + radius / 2,
                y - radius / 2,
                y + radius / 2,
                x,
                y,
            ),
            DrawMode::TOPLEFT => (x, x + radius, y, y + radius, x + radius / 2, y + radius / 2),
            DrawMode::BOTTOMLEFT => (x, x + radius, y - radius, y, x + radius / 2, y - radius / 2),
            DrawMode::TOPRIGHT => (x - radius, x, y, y + radius, x + radius / 2, y + radius / 2),
            DrawMode::BOTTOMRIGHT => (
                x - radius,
                x,
                y - radius,
                y,
                x + radius / 2,
                y - radius / 2,
            ),
        };
        let s = Shape::Disc { cx: center_x, cy: center_y, r: radius };
        proof {
            lemma_draw_box_bytes_when(
                self.buffer@,
                s,
                self.fill_color,
                self.stroke_color,
                min_x as int,
                max_x as int,
                min_y as int,
                max_y as int,
            );
            assert forall|k: int|
                0 <= k < self.buffer@.len() && !box_touches(
                    s,
                    min_x as int,
                    max_x as int,
                    min_y as int,
                    max_y as int,
                    k,
                ) implies #[trigger] draw_box(
                self.buffer@,
                s,
                self.fill_color,
                self.stroke_color,
                min_x as int,
                max_x as int,
                min_y as int,
                max_y as int,
            )[k] == self.buffer@[k] by {
                lemma_draw_box_keeps(
                    self.buffer@,
                    s,
                    self.fill_color,
                    self.stroke_color,
                    min_x as int,
                    max_x as int,
                    min_y as int,
                    max_y as int,
                    k,
                );
            }
        }
        let fill = self.fill_color;
        let stroke = self.stroke_color;
        self.draw_shape(s, fill, stroke, min_x, max_x, min_y, max_y);
    }
}

/// Byte `k` belongs to a pixel of the box that the shape paints.
pub open spec fn box_touches(
    s: Shape,
    i_lo: int,
    i_hi: int,
    j_lo: int,
    j_hi: int,
    k: int,
) -> bool {
    exists|i: int, j: int|
        i_lo <= i < i_hi && j_lo <= j < j_hi && #[trigger] s.covers(i, j) && pixel_base(i, j) <= k
            < pixel_base(i, j) + 4
}

proof fn lemma_column_keeps(
    buf: Seq<u8>,
    s: Shape,
    fill: Color,
    stroke: Color,
    i: int,
    j: int,
    j_end: int,
    k: int,
)
    requires
        0 <= k < buf.len(),
        !box_touches(s, i, i + 1, j, j_end, k),
    ensures
        draw_column(buf, s, fill, stroke, i, j, j_end)[k] == buf[k],
        draw_column(buf, s, fill, stroke, i, j, j_end).len() == buf.len(),
    decreases j_end - j,
{
    if j < j_end {
        let next = if s.covers(i, j) {
            paint(buf, pixel_base(i, j), s.color_at(fill, stroke, i, j))
        } else {
            buf
        };
        lemma_paint_bytes(buf, pixel_base(i, j), s.color_at(fill, stroke, i, j));
        if s.covers(i, j) && pixel_base(i, j) <= k < pixel_base(i, j) + 4 {
            assert(box_touches(s, i, i + 1, j, j_end, k));
        }
        assert(next[k] == buf[k]);
        assert(!box_touches(s, i, i + 1, j + 1, j_end, k)) by {
            if box_touches(s, i, i + 1, j + 1, j_end, k) {
                let (a, b) = choose|a: int, b: int|
                    i <= a < i + 1 && j + 1 <= b < j_end && #[trigger] s.covers(a, b)
                        && pixel_base(a, b) <= k < pixel_base(a, b) + 4;
                assert(s.covers(a, b));
            }
        }
        lemma_column_keeps(next, s, fill, stroke, i, j + 1, j_end, k);
    }
}

/// Drawing a box changes no byte outside the pixels of the box that the shape paints,
/// whatever the box.
pub proof fn lemma_draw_box_keeps(
    buf: Seq<u8>,
    s: Shape,
    fill: Color,
    stroke: Color,
    i: int,
    i_end: int,
    j_lo: int,
    j_end: int,
    k: int,
)
    requires
        0 <= k < buf.len(),
        !box_touches(s, i, i_end, j_lo, j_end, k),
    ensures
        draw_box(buf, s, fill, stroke, i, i_end, j_lo, j_end)[k] == buf[k],
    decreases i_end - i,
{
    if i < i_end {
        let col = draw_column(buf, s, fill, stroke, i, j_lo, j_end);
        assert(!box_touches(s, i, i + 1, j_lo, j_end, k)) by {
            if box_touches(s, i, i + 1, j_lo, j_end, k) {
                let (a, b) = choose|a: int, b: int|
                    i <= a < i + 1 && j_lo <= b < j_end && #[trigger] s.covers(a, b)
                        && pixel_base(a, b) <= k < pixel_base(a, b) + 4;
                assert(s.covers(a, b));
            }
        }
        lemma_column_keeps(buf, s, fill, stroke, i, j_lo, j_end, k);
        assert(!box_touches(s, i + 1, i_end, j_lo, j_end, k)) by {
            if box_touches(s, i + 1, i_end, j_lo, j_end, k) {
                let (a, b) = choose|a: int, b: int|
                    i + 1 <= a < i_end && j_lo <= b < j_end && #[trigger] s.covers(a, b)
                        && pixel_base(a, b) <= k < pixel_base(a, b) + 4;
                assert(s.covers(a, b));
            }
        }
        lemma_draw_box_keeps(col, s, fill, stroke, i + 1, i_end, j_lo, j_end, k);
    }
}

/// Scanning one column over two buffers of equal length: at each byte the results
/// either agree, or each keeps the byte its buffer had.
proof fn lemma_column_agree_or_keep(
    a: Seq<u8>,
    b: Seq<u8>,
    s: Shape,
    fill: Color,
    stroke: Color,
    i: int,
    j: int,
    j_end: int,
    k: int,
)
    requires
        a.len() == b.len(),
        0 <= k < a.len(),
    ensures
        draw_column(a, s, fill, stroke, i, j, j_end)[k] == draw_column(b, s, fill, stroke, i, j, j_end)[k]
            || (draw_column(a, s, fill, stroke, i, j, j_end)[k] == a[k] && draw_column(
            b,
            s,
            fill,
            stroke,
            i,
            j,
            j_end,
        )[k] == b[k]),
    decreases j_end - j,
{
    if j < j_end {
        let c = s.color_at(fill, stroke, i, j);
        let a2 = if s.covers(i, j) {
            paint(a, pixel_base(i, j), c)
        } else {
            a
        };
        let b2 = if s.covers(i, j) {
            paint(b, pixel_base(i, j), c)
        } else {
            b
        };
        lemma_paint_bytes(a, pixel_base(i, j), c);
        lemma_paint_bytes(b, pixel_base(i, j), c);
        assert(a2[k] == b2[k] || (a2[k] == a[k] && b2[k] == b[k]));
        lemma_column_agree_or_keep(a2, b2, s, fill, stroke, i, j + 1, j_end, k);
    }
}

/// Scanning one box over two buffers of equal length: at each byte the results
/// either agree, or each keeps the byte its buffer had.
proof fn lemma_box_agree_or_keep(
    a: Seq<u8>,
    b: Seq<u8>,
    s: Shape,
    fill: Color,
    stroke: Color,
    i: int,
    i_end: int,
    j_lo: int,
    j_end: int,
    k: int,
)
    requires
        a.len() == b.len(),
        0 <= k < a.len(),
    ensures
        draw_box(a, s, fill, stroke, i, i_end, j_lo, j_end)[k] == draw_box(b, s, fill, stroke, i, i_end, j_lo, j_end)[k]
            || (draw_box(a, s, fill, stroke, i, i_end, j_lo, j_end)[k] == a[k] && draw_box(
            b,
            s,
            fill,
            stroke,
            i,
            i_end,
            j_lo,
            j_end,
        )[k] == b[k]),
    decreases i_end - i,
{
    if i < i_end {
        let a2 = draw_column(a, s, fill, stroke, i, j_lo, j_end);
        let b2 = draw_column(b, s, fill, stroke, i, j_lo, j_end);
        lemma_draw_column_len(a, s, fill, stroke, i, j_lo, j_end);
        lemma_draw_column_len(b, s, fill, stroke, i, j_lo, j_end);
        lemma_column_agree_or_keep(a, b, s, fill, stroke, i, j_lo, j_end, k);
        lemma_box_agree_or_keep(a2, b2, s, fill, stroke, i + 1, i_end, j_lo, j_end, k);
    }
}

/// Drawing a box a second time leaves the buffer as drawing it once did, for every
/// box and buffer.
pub proof fn lemma_draw_box_idempotent(
    buf: Seq<u8>,
    s: Shape,
    fill: Color,
    stroke: Color,
    i: int,
    i_end: int,
    j_lo: int,
    j_end: int,
)
    ensures
        draw_box(draw_box(buf, s, fill, stroke, i, i_end, j_lo, j_end), s, fill, stroke, i, i_end, j_lo, j_end)
            == draw_box(buf, s, fill, stroke, i, i_end, j_lo, j_end),
{
    let once = draw_box(buf, s, fill, stroke, i, i_end, j_lo, j_end);
    let twice = draw_box(once, s, fill, stroke, i, i_end, j_lo, j_end);
    lemma_draw_box_len(buf, s, fill, stroke, i, i_end, j_lo, j_end);
    lemma_draw_box_len(once, s, fill, stroke, i, i_end, j_lo, j_end);
    assert forall|k: int| 0 <= k < once.len() implies twice[k] == once[k] by {
        lemma_box_agree_or_keep(buf, once, s, fill, stroke, i, i_end, j_lo, j_end, k);
    }
    assert(twice =~= once);
}

/// Drawing the same rectangle twice leaves the pixels as drawing it once.
pub proof fn lemma_rect_twice_is_once(
    buf: Seq<u8>,
    mode: DrawMode,
    x: u32,
    y: u32,
    w: u32,
    h: u32,
    fill: Color,
    stroke: Color,
)
    ensures
        rect_effect(rect_effect(buf, mode, x, y, w, h, fill, stroke), mode, x, y, w, h, fill, stroke)
            == rect_effect(buf, mode, x, y, w, h, fill, stroke),
{
    let (sx, sy) = rect_corner(mode, x as int, y as int, w as int, h as int);
    lemma_draw_box_idempotent(
        buf,
        Shape::Frame { sx: sx as u32, sy: sy as u32, w, h },
        fill,
        stroke,
        sx - 1,
        sx + w + 1,
        sy - 1,
        sy + h + 1,
    );
}

/// Drawing the same circle twice leaves the pixels as drawing it once.
pub proof fn lemma_circle_twice_is_once(
    buf: Seq<u8>,
    mode: DrawMode,
    x: u32,
    y: u32,
    r: u32,
    fill: Color,
    stroke: Color,
)
    ensures
        circle_effect(circle_effect(buf, mode, x, y, r, fill, stroke), mode, x, y, r, fill, stroke)
            == circle_effect(buf, mode, x, y, r, fill, stroke),
{
    let l = circle_layout(mode, x as int, y as int, r as int);
    lemma_draw_box_idempotent(buf, circle_shape(mode, x, y, r), fill, stroke, l.0, l.1, l.2, l.3);
}

/// The placement mode only moves a rectangle: drawing it at `(x, y)` in `mode` leaves
/// the pixels that drawing it at its corner in `TOPLEFT` mode leaves, and one call is
/// accepted exactly when the other is.
pub proof fn lemma_rect_mode_translates(
    buf: Seq<u8>,
    mode: DrawMode,
    x: u32,
    y: u32,
    w: u32,
    h: u32,
    fill: Color,
    stroke: Color,
)
    requires
        in_u32(rect_corner(mode, x as int, y as int, w as int, h as int).0),
        in_u32(rect_corner(mode, x as int, y as int, w as int, h as int).1),
    ensures
        ({
            let (sx, sy) = rect_corner(mode, x as int, y as int, w as int, h as int);
            &&& rect_effect(buf, mode, x, y, w, h, fill, stroke) == rect_effect(
                buf,
                DrawMode::TOPLEFT,
                sx as u32,
                sy as u32,
                w,
                h,
                fill,
                stroke,
            )
            &&& rect_drawable(mode, x, y, w, h) == rect_drawable(
                DrawMode::TOPLEFT,
                sx as u32,
                sy as u32,
                w,
                h,
            )
        }),
{
}

/// The placement mode only moves a square: `square(x, y, size)` in `mode` leaves the
/// pixels that `square(sx, sy, size)` in `TOPLEFT` mode leaves, `(sx, sy)` being its
/// corner, and one call is accepted exactly when the other is.
pub proof fn lemma_square_mode_translates(
    buf: Seq<u8>,
    mode: DrawMode,
    x: u32,
    y: u32,
    size: u32,
    fill: Color,
    stroke: Color,
)
    requires
        in_u32(rect_corner(mode, x as int, y as int, size as int, size as int).0),
        in_u32(rect_corner(mode, x as int, y as int, size as int, size as int).1),
    ensures
        ({
            let (sx, sy) = rect_corner(mode, x as int, y as int, size as int, size as int);
            &&& rect_effect(buf, mode, x, y, size, size, fill, stroke) == rect_effect(
                buf,
                DrawMode::TOPLEFT,
                sx as u32,
                sy as u32,
                size,
                size,
                fill,
                stroke,
            )
            &&& rect_drawable(mode, x, y, size, size) == rect_drawable(
                DrawMode::TOPLEFT,
                sx as u32,
                sy as u32,
                size,
                size,
            )
        }),
{
    lemma_rect_mode_translates(buf, mode, x, y, size, size, fill, stroke);
}

/// A well-formed canvas holds whole pixels: its buffer length is a multiple of four.
pub proof fn lemma_wf_whole_pixels(c: &Canvas)
    ensures
        c.wf() <==> c@.pixels.len() % 4 == 0,
{
}

/// `lemma_draw_box_bytes` for a box that may or may not wrap: the length is kept in
/// every case and the bytes are stated directly when the box lies in one row span.
proof fn lemma_draw_box_bytes_when(
    buf: Seq<u8>,
    s: Shape,
    fill: Color,
    stroke: Color,
    i: int,
    i_end: int,
    j_lo: int,
    j_end: int,
)
    requires
        0 <= i,
        0 <= j_lo,
        buf.len() % 4 == 0,
    ensures
        draw_box(buf, s, fill, stroke, i, i_end, j_lo, j_end).len() == buf.len(),
        i_end <= 500 ==> forall|k: int|
            0 <= k < buf.len() ==> #[trigger] draw_box(buf, s, fill, stroke, i, i_end, j_lo, j_end)[k]
                == byte_after(buf, s, fill, stroke, i, i_end, j_lo, j_end, k),
{
    if i_end <= 500 {
        lemma_draw_box_bytes(buf, s, fill, stroke, i, i_end, j_lo, j_end);
    } else {
        lemma_draw_box_len(buf, s, fill, stroke, i, i_end, j_lo, j_end);
    }
}

proof fn lemma_draw_column_len(
    buf: Seq<u8>,
    s: Shape,
    fill: Color,
    stroke: Color,
    i: int,
    j: int,
    j_end: int,
)
    ensures
        draw_column(buf, s, fill, stroke, i, j, j_end).len() == buf.len(),
    decreases j_end - j,
{
    if j < j_end {
        let next = if s.covers(i, j) {
            paint(buf, pixel_base(i, j), s.color_at(fill, stroke, i, j))
        } else {
            buf
        };
        lemma_draw_column_len(next, s, fill, stroke, i, j + 1, j_end);
    }
}

proof fn lemma_draw_box_len(
    buf: Seq<u8>,
    s: Shape,
    fill: Color,
    stroke: Color,
    i: int,
    i_end: int,
    j_lo: int,
    j_end: int,
)
    ensures
        draw_box(buf, s, fill, stroke, i, i_end, j_lo, j_end).len() == buf.len(),
    decreases i_end - i,
{
    if i < i_end {
        lemma_draw_column_len(buf, s, fill, stroke, i, j_lo, j_end);
        lemma_draw_box_len(
            draw_column(buf, s, fill, stroke, i, j_lo, j_end),
            s,
            fill,
            stroke,
            i + 1,
            i_end,
            j_lo,
            j_end,
        );
    }
}


/// Bytes `b .. b + 4` hold colour `c`.
proof fn lemma_pixel_bytes_from_box(
    buf: Seq<u8>,
    s: Shape,
    fill: Color,
    stroke: Color,
    i_lo: int,
    i_hi: int,
    j_lo: int,
    j_hi: int,
    i: int,
    j: int,
)
    requires
        buf.len() % 4 == 0,
        0 <= i_lo,
        i_hi <= 500,
        0 <= j_lo,
        0 <= i < 500,
        0 <= j,
        (i + j * 500) * 4 + 4 <= buf.len(),
    ensures
        ({
            let after = draw_box(buf, s, fill, stroke, i_lo, i_hi, j_lo, j_hi);
            let b = (i + j * 500) * 4;
            if i_lo <= i < i_hi && j_lo <= j < j_hi && s.covers(i, j) {
                let c = s.color_at(fill, stroke, i, j);
                &&& after[b] == c.red
                &&& after[b + 1] == c.green
                &&& after[b + 2] == c.blue
                &&& after[b + 3] == c.alpha
            } else {
                &&& after[b] == buf[b]
                &&& after[b + 1] == buf[b + 1]
                &&& after[b + 2] == buf[b + 2]
                &&& after[b + 3] == buf[b + 3]
            }
        }),
{
    let b = (i + j * 500) * 4;
    lemma_draw_box_bytes(buf, s, fill, stroke, i_lo, i_hi, j_lo, j_hi);
    lemma_byte_pixel(b, i, j);
    lemma_byte_pixel(b + 1, i, j);
    lemma_byte_pixel(b + 2, i, j);
    lemma_byte_pixel(b + 3, i, j);
    let after = draw_box(buf, s, fill, stroke, i_lo, i_hi, j_lo, j_hi);
    assert(after[b] == byte_after(buf, s, fill, stroke, i_lo, i_hi, j_lo, j_hi, b));
    assert(after[b + 1] == byte_after(buf, s, fill, stroke, i_lo, i_hi, j_lo, j_hi, b + 1));
    assert(after[b + 2] == byte_after(buf, s, fill, stroke, i_lo, i_hi, j_lo, j_hi, b + 2));
    assert(after[b + 3] == byte_after(buf, s, fill, stroke, i_lo, i_hi, j_lo, j_hi, b + 3));
}

/// What a rectangle leaves at pixel `(i, j)`, for a frame that does not run past the
/// row width. The anchor `(x, y)` is the centre, or the top-left, bottom-left,
/// top-right or bottom-right corner, as `mode` says, so the rectangle's left column
/// `left` and top row `top` are those below: its extent across depends only on `x`
/// and `w`, its extent down only on `y` and `h`. Pixels strictly inside
/// `left .. left + w` by `top .. top + h` take the fill colour, the other pixels of
/// the frame from `(left - 1, top - 1)` to `(left + w, top + h)` the stroke colour,
/// and every other pixel keeps its bytes.
pub proof fn lemma_rect_pixels(
    buf: Seq<u8>,
    mode: DrawMode,
    x: u32,
    y: u32,
    w: u32,
    h: u32,
    fill: Color,
    stroke: Color,
    i: int,
    j: int,
)
    requires
        buf.len() % 4 == 0,
        rect_drawable(mode, x, y, w, h),
        0 <= i < 500,
        0 <= j,
        (i + j * 500) * 4 + 4 <= buf.len(),
        ({
            let left: int = match mode {
                DrawMode::CENTER => x - w / 2,
                DrawMode::TOPLEFT => x as int,
                DrawMode::BOTTOMLEFT => x as int,
                DrawMode::TOPRIGHT => x - w,
                DrawMode::BOTTOMRIGHT => x - w,
            };
            left + w + 1 <= 500
        }),
    ensures
        ({
            let left: int = match mode {
                DrawMode::CENTER => x - w / 2,
                DrawMode::TOPLEFT => x as int,
                DrawMode::BOTTOMLEFT => x as int,
                DrawMode::TOPRIGHT => x - w,
                DrawMode::BOTTOMRIGHT => x - w,
            };
            let top: int = match mode {
                DrawMode::CENTER => y - h / 2,
                DrawMode::TOPLEFT => y as int,
                DrawMode::TOPRIGHT => y as int,
                DrawMode::BOTTOMLEFT => y - h,
                DrawMode::BOTTOMRIGHT => y - h,
            };
            let after = rect_effect(buf, mode, x, y, w, h, fill, stroke);
            let b = (i + j * 500) * 4;
            &&& (left < i < left + w && top < j < top + h) ==> {
                &&& after[b] == fill.red
                &&& after[b + 1] == fill.green
                &&& after[b + 2] == fill.blue
                &&& after[b + 3] == fill.alpha
            }
            &&& (left - 1 <= i <= left + w && top - 1 <= j <= top + h && !(left < i < left + w
                && top < j < top + h)) ==> {
                &&& after[b] == stroke.red
                &&& after[b + 1] == stroke.green
                &&& after[b + 2] == stroke.blue
                &&& after[b + 3] == stroke.alpha
            }
            &&& !(left - 1 <= i <= left + w && top - 1 <= j <= top + h) ==> {
                &&& after[b] == buf[b]
                &&& after[b + 1] == buf[b + 1]
                &&& after[b + 2] == buf[b + 2]
                &&& after[b + 3] == buf[b + 3]
            }
        }),
{
    let (sx, sy) = rect_corner(mode, x as int, y as int, w as int, h as int);
    lemma_pixel_bytes_from_box(
        buf,
        Shape::Frame { sx: sx as u32, sy: sy as u32, w, h },
        fill,
        stroke,
        sx - 1,
        sx + w + 1,
        sy - 1,
        sy + h + 1,
        i,
        j,
    );
}

/// What a circle of diameter `r` leaves at pixel `(i, j)`, for a box that does not
/// run past the row width. The anchor `(x, y)` is the centre of the circle, or the
/// top-left, bottom-left, top-right or bottom-right corner of its scanned box, as
/// `mode` says, giving the box `lo_x .. hi_x` by `lo_y .. hi_y` and the centre
/// `(cx, cy)` below. A pixel of the box whose squared distance `d` from the centre
/// has `4d < r²` takes the fill colour, one with `4d < (r + 1)²` the stroke colour,
/// and every other pixel keeps its bytes.
pub proof fn lemma_circle_pixels(
    buf: Seq<u8>,
    mode: DrawMode,
    x: u32,
    y: u32,
    r: u32,
    fill: Color,
    stroke: Color,
    i: int,
    j: int,
)
    requires
        buf.len() % 4 == 0,
        circle_drawable(mode, x, y, r),
        0 <= i < 500,
        0 <= j,
        (i + j * 500) * 4 + 4 <= buf.len(),
        ({
            let hi_x: int = match mode {
                DrawMode::CENTER => x + r / 2,
                DrawMode::TOPLEFT => x + r,
                DrawMode::BOTTOMLEFT => x + r,
                DrawMode::TOPRIGHT => x as int,
                DrawMode::BOTTOMRIGHT => x as int,
            };
            hi_x <= 500
        }),
    ensures
        ({
            let (lo_x, hi_x, lo_y, hi_y, cx, cy): (int, int, int, int, int, int) = match mode {
                DrawMode::CENTER => (x - r / 2, x + r / 2, y - r / 2, y + r / 2, x as int, y as int),
                DrawMode::TOPLEFT => (x as int, x + r, y as int, y + r, x + r / 2, y + r / 2),
                DrawMode::BOTTOMLEFT => (x as int, x + r, y - r, y as int, x + r / 2, y - r / 2),
                DrawMode::TOPRIGHT => (x - r, x as int, y as int, y + r, x + r / 2, y + r / 2),
                DrawMode::BOTTOMRIGHT => (x - r, x as int, y - r, y as int, x + r / 2, y - r / 2),
            };
            let d = (cx - i) * (cx - i) + (cy - j) * (cy - j);
            let in_box = lo_x <= i < hi_x && lo_y <= j < hi_y;
            let after = circle_effect(buf, mode, x, y, r, fill, stroke);
            let b = (i + j * 500) * 4;
            &&& (in_box && 4 * d < r * r) ==> {
                &&& after[b] == fill.red
                &&& after[b + 1] == fill.green
                &&& after[b + 2] == fill.blue
                &&& after[b + 3] == fill.alpha
            }
            &&& (in_box && r * r <= 4 * d < (r + 1) * (r + 1)) ==> {
                &&& after[b] == stroke.red
                &&& after[b + 1] == stroke.green
                &&& after[b + 2] == stroke.blue
                &&& after[b + 3] == stroke.alpha
            }
            &&& !(in_box && 4 * d < (r + 1) * (r + 1)) ==> {
                &&& after[b] == buf[b]
                &&& after[b + 1] == buf[b + 1]
                &&& after[b + 2] == buf[b + 2]
                &&& after[b + 3] == buf[b + 3]
            }
        }),
{
    let l = circle_layout(mode, x as int, y as int, r as int);
    let sh = circle_shape(mode, x, y, r);
    lemma_pixel_bytes_from_box(buf, sh, fill, stroke, l.0, l.1, l.2, l.3, i, j);
    let cx = l.4;
    let cy = l.5;
    let d = (cx - i) * (cx - i) + (cy - j) * (cy - j);
    assert(sh == Shape::Disc { cx: cx as u32, cy: cy as u32, r });
    assert((r as int) * (r as int) < (r + 1) * (r + 1)) by (nonlinear_arith);
    assert(sh.covers(i, j) == (4 * d < (r + 1) * (r + 1)));
    assert(sh.color_at(fill, stroke, i, j) == if 4 * d < r * r {
        fill
    } else {
        stroke
    });
}

/// Pixel `(i, j)` starts at byte `4 * (i + 500 j)`, and setting a pixel that lies in
/// the buffer writes its four channels, red first, and leaves every other byte alone;
/// a pixel that does not lie wholly in the buffer changes nothing.
pub proof fn lemma_pixel_write(buf: Seq<u8>, base: int, c: Color, k: int)
    requires
        0 <= k < buf.len(),
    ensures
        forall|i: int, j: int| #[trigger] pixel_base(i, j) == (i + j * 500) * 4,
        paint(buf, base, c).len() == buf.len(),
        (0 <= base && base + 4 <= buf.len()) ==> {
            &&& paint(buf, base, c)[base] == c.red
            &&& paint(buf, base, c)[base + 1] == c.green
            &&& paint(buf, base, c)[base + 2] == c.blue
            &&& paint(buf, base, c)[base + 3] == c.alpha
        },
        !(0 <= base && base + 4 <= buf.len() && base <= k < base + 4) ==> paint(buf, base, c)[k]
            == buf[k],
{
}
} // verus!
