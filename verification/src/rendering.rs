use vstd::prelude::*;
use crate::draw_helpers::{rect_drawable, rect_effect, Canvas, Color};

verus! {

/// Depth limit of a ray: the bit pattern of `1e8_f32`. Hits at this depth or
/// farther are not seen.
pub const NO_HIT_DEPTH: u32 = 0x4CBE_BC20;

/// The colour of a ray that hits nothing.
pub open spec fn background() -> Color {
    Color { red: 100, green: 100, blue: 100, alpha: 255 }
}

/// The colour drawn where a ray hits near the edge of a polygon.
pub open spec fn edge_color() -> Color {
    Color { red: 0, green: 0, blue: 0, alpha: 255 }
}

/// What one polygon gives one ray.
///
/// `depth` is the IEEE-754 bit pattern of the non-negative distance along the ray:
/// on non-negative floats the order of the bit patterns, read as integers, is the
/// order of the numbers.
#[derive(Clone, Copy, Debug, PartialEq, Eq, Structural)]
pub struct RayHit {
    pub did_hit: bool,
    pub depth: u32,
    /// The hit point lies near an edge of the polygon.
    pub on_border: bool,
    /// The colour of the polygon.
    pub color: Color,
}

/// The colour a ray takes from hit `h`.
pub open spec fn shade(h: RayHit) -> Color {
    if h.on_border {
        edge_color()
    } else {
        h.color
    }
}

/// Hit `m` is a hit nearer than the depth limit.
pub open spec fn visible(hits: Seq<RayHit>, m: int) -> bool {
    &&& 0 <= m < hits.len()
    &&& hits[m].did_hit
    &&& hits[m].depth < NO_HIT_DEPTH
}

/// Hit `m` is the nearest visible hit, the first one among equally near hits.
pub open spec fn is_nearest(hits: Seq<RayHit>, m: int) -> bool {
    &&& visible(hits, m)
    &&& forall|k: int| 0 <= k < m ==> !(hits[k].did_hit && hits[k].depth <= hits[m].depth)
    &&& forall|k: int| m < k < hits.len() ==> !(hits[k].did_hit && hits[k].depth < hits[m].depth)
}

/// The colour a ray takes from the polygons it is tested against, in order: that of
/// the nearest visible hit (black on a polygon's edge), or the background when no
/// polygon is hit nearer than the depth limit.
pub fn nearest_hit_color(hits: &Vec<RayHit>) -> (c: Color)
    ensures
        (forall|m: int| !visible(hits@, m)) ==> c == background(),
        forall|m: int| is_nearest(hits@, m) ==> c == shade(hits@[m]),
        (exists|m: int| visible(hits@, m)) ==> exists|m: int| is_nearest(hits@, m),
{
    let mut min_t: u32 = NO_HIT_DEPTH;
    let mut has_intersected = false;
    let mut return_color = Color { red: 100, green: 100, blue: 100, alpha: 255 };
    let ghost mut best: int = -1;
    let n = hits.len();
    let mut j: usize = 0;
    while j < n
        invariant
            n == hits@.len(),
            0 <= j <= n,
            has_intersected <==> best >= 0,
            !has_intersected ==> min_t == NO_HIT_DEPTH && forall|k: int|
                0 <= k < j ==> !visible(hits@, k),
            has_intersected ==> {
                &&& 0 <= best < j
                &&& visible(hits@, best)
                &&& min_t == hits@[best].depth
                &&& return_color == shade(hits@[best])
                &&& forall|k: int|
                    0 <= k < best ==> !(hits@[k].did_hit && hits@[k].depth <= hits@[best].depth)
                &&& forall|k: int|
                    best < k < j ==> !(hits@[k].did_hit && hits@[k].depth < hits@[best].depth)
            },
        decreases n - j,
    {
        let h = hits[j];
        if h.did_hit && h.depth < min_t {
            proof {
                assert forall|k: int| 0 <= k < j implies !(hits@[k].did_hit && hits@[k].depth
                    <= h.depth) by {
                    if has_intersected {
                        if k < best {
                        } else if k > best {
                        }
                    } else {
                        assert(!visible(hits@, k));
                    }
                }
            }
            min_t = h.depth;
            has_intersected = true;
            proof {
                best = j as int;
            }
            if h.on_border {
                return_color = Color { red: 0, green: 0, blue: 0, alpha: 255 };
            } else {
                return_color = h.color;
            }
        }
        j += 1;
    }
    if !has_intersected {
        return_color = Color { red: 100, green: 100, blue: 100, alpha: 255 };
    }
    proof {
        if has_intersected {
            assert(is_nearest(hits@, best));
            lemma_nearest_unique(hits@, best);
        }
    }
    return_color
}

/// At most one hit is the nearest visible one.
pub proof fn lemma_nearest_unique(hits: Seq<RayHit>, m: int)
    requires
        is_nearest(hits, m),
    ensures
        forall|k: int| #[trigger] is_nearest(hits, k) ==> k == m,
{
    assert forall|k: int| #[trigger] is_nearest(hits, k) implies k == m by {
        if k < m {
            assert(!(hits[k].did_hit && hits[k].depth <= hits[m].depth));
        } else if k > m {
            assert(!(hits[m].did_hit && hits[m].depth <= hits[k].depth));
        }
    }
}


/// A square of the screen that one ray colours: its anchor point and colour.
#[derive(Clone, Copy, Debug, PartialEq, Eq, Structural)]
pub struct ScreenCell {
    pub x: u32,
    pub y: u32,
    pub color: Color,
}

/// The buffer after each cell, in order, is drawn as a square of side `size`
/// filled with the cell's colour.
pub open spec fn cells_effect(
    buf: Seq<u8>,
    cells: Seq<ScreenCell>,
    mode: crate::draw_helpers::DrawMode,
    size: u32,
    stroke: Color,
) -> Seq<u8>
    decreases cells.len(),
{
    if cells.len() == 0 {
        buf
    } else {
        cells_effect(
            rect_effect(buf, mode, cells[0].x, cells[0].y, size, size, cells[0].color, stroke),
            cells.drop_first(),
            mode,
            size,
            stroke,
        )
    }
}

impl Canvas {
    /// Draws every cell, in order, as a square of side `size` in the cell's colour;
    /// the fill colour is left at the colour of the last cell.
    pub fn update_screen(&mut self, cells: &Vec<ScreenCell>, size: u32)
        requires
            old(self).wf(),
            forall|k: int|
                0 <= k < cells@.len() ==> rect_drawable(
                    old(self)@.rect_mode,
                    #[trigger] cells@[k].x,
                    cells@[k].y,
                    size,
                    size,
                ),
        ensures
            final(self).wf(),
            final(self)@.pixels == cells_effect(
                old(self)@.pixels,
                cells@,
                old(self)@.rect_mode,
                size,
                old(self)@.stroke,
            ),
            final(self)@.fill == if cells@.len() == 0 {
                old(self)@.fill
            } else {
                cells@.last().color
            },
            final(self)@.stroke == old(self)@.stroke,
            final(self)@.ellipse_mode == old(self)@.ellipse_mode,
            final(self)@.rect_mode == old(self)@.rect_mode,
    {
        let ghost start = self@;
        let ghost target = cells_effect(start.pixels, cells@, start.rect_mode, size, start.stroke);
        let n = cells.len();
        let mut i: usize = 0;
        proof {
            assert(cells@.skip(0) =~= cells@);
        }
        while i < n
            invariant
                n == cells@.len(),
                0 <= i <= n,
                self.wf(),
                self@.stroke == start.stroke,
                self@.ellipse_mode == start.ellipse_mode,
                self@.rect_mode == start.rect_mode,
                self@.fill == if i == 0 {
                    start.fill
                } else {
                    cells@[i - 1].color
                },
                forall|k: int|
                    0 <= k < cells@.len() ==> rect_drawable(
                        start.rect_mode,
                        #[trigger] cells@[k].x,
                        cells@[k].y,
                        size,
                        size,
                    ),
                cells_effect(self@.pixels, cells@.skip(i as int), start.rect_mode, size, start.stroke)
                    == target,
            decreases n - i,
        {
            let cell = cells[i];
            if self.fill_color() != cell.color {
                self.fill(cell.color);
            }
            proof {
                assert(cells@.skip(i as int).drop_first() =~= cells@.skip(i + 1));
                assert(rect_drawable(start.rect_mode, cells@[i as int].x, cells@[i as int].y, size, size));
            }
            self.square(cell.x, cell.y, size);
            i += 1;
        }
        proof {
            assert(cells@.skip(n as int) =~= Seq::<ScreenCell>::empty());
        }
    }
}


/// A screen of one cell is that cell's square, drawn with the cell's colour as fill
/// whatever that colour is.
pub proof fn lemma_one_cell_is_its_square(
    buf: Seq<u8>,
    c: ScreenCell,
    mode: crate::draw_helpers::DrawMode,
    size: u32,
    stroke: Color,
)
    ensures
        cells_effect(buf, seq![c], mode, size, stroke) == rect_effect(
            buf,
            mode,
            c.x,
            c.y,
            size,
            size,
            c.color,
            stroke,
        ),
{
    let r = rect_effect(buf, mode, c.x, c.y, size, size, c.color, stroke);
    assert(seq![c].drop_first() =~= Seq::<ScreenCell>::empty());
    assert(cells_effect(r, Seq::<ScreenCell>::empty(), mode, size, stroke) == r);
    assert(seq![c][0] == c);
}

/// Drawing the cells of `a` and then those of `b` is drawing the cells of `a + b`:
/// every cell is drawn, in order, and none is skipped.
pub proof fn lemma_cells_concat(
    buf: Seq<u8>,
    a: Seq<ScreenCell>,
    b: Seq<ScreenCell>,
    mode: crate::draw_helpers::DrawMode,
    size: u32,
    stroke: Color,
)
    ensures
        cells_effect(buf, a + b, mode, size, stroke) == cells_effect(
            cells_effect(buf, a, mode, size, stroke),
            b,
            mode,
            size,
            stroke,
        ),
    decreases a.len(),
{
    if a.len() == 0 {
        assert(a + b =~= b);
    } else {
        let first = rect_effect(buf, mode, a[0].x, a[0].y, size, size, a[0].color, stroke);
        assert((a + b).drop_first() =~= a.drop_first() + b);
        assert((a + b)[0] == a[0]);
        lemma_cells_concat(first, a.drop_first(), b, mode, size, stroke);
    }
}

/// Drawing one more cell after a screen draws that cell's square on top of it.
pub proof fn lemma_cells_push(
    buf: Seq<u8>,
    cells: Seq<ScreenCell>,
    c: ScreenCell,
    mode: crate::draw_helpers::DrawMode,
    size: u32,
    stroke: Color,
)
    ensures
        cells_effect(buf, cells.push(c), mode, size, stroke) == rect_effect(
            cells_effect(buf, cells, mode, size, stroke),
            mode,
            c.x,
            c.y,
            size,
            size,
            c.color,
            stroke,
        ),
{
    assert(cells.push(c) =~= cells + seq![c]);
    lemma_cells_concat(buf, cells, seq![c], mode, size, stroke);
    lemma_one_cell_is_its_square(cells_effect(buf, cells, mode, size, stroke), c, mode, size, stroke);
}

/// A hit counts exactly when it is a hit and its depth is below the bits of `1e8_f32`,
/// `0x4CBE_BC20`; the depth limit is that number.
pub proof fn lemma_visible_below_limit(hits: Seq<RayHit>, m: int)
    requires
        0 <= m < hits.len(),
    ensures
        NO_HIT_DEPTH == 0x4CBE_BC20u32,
        visible(hits, m) == (hits[m].did_hit && hits[m].depth < 0x4CBE_BC20u32),
{
}

/// The nearest hit is no farther than any visible hit, and strictly nearer than any
/// visible hit before it.
pub proof fn lemma_nearest_is_nearest(hits: Seq<RayHit>, m: int, k: int)
    requires
        is_nearest(hits, m),
        visible(hits, k),
    ensures
        hits[m].depth <= hits[k].depth,
        k < m ==> hits[m].depth < hits[k].depth,
{
}

/// A ray with a single visible hit takes that hit's colour, or black when the hit is
/// on a polygon's edge; a ray with no visible hit takes grey `(100, 100, 100, 255)`.
pub proof fn lemma_single_hit_color(h: RayHit)
    requires
        h.did_hit,
        h.depth < 0x4CBE_BC20u32,
    ensures
        is_nearest(seq![h], 0),
        shade(h) == if h.on_border {
            Color { red: 0, green: 0, blue: 0, alpha: 255 }
        } else {
            h.color
        },
        background() == (Color { red: 100, green: 100, blue: 100, alpha: 255 }),
{
}
} // verus!
