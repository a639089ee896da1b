//! The rendering device: an owned frame buffer and the rasterizer.
//!
//! The device owns a pixel grid sized to the terminal; every draw
//! operation goes through one guarded cell write whose policy for
//! out-of-range coordinates is to drop the write silently, so no
//! primitive can overrun the buffer.  Each rasterizer routine is
//! specified by the exact sequence of cell writes it performs.

use vstd::prelude::*;
use crate::fixed::{
    Fx, SCALE, HALF_SCALE, iabs, spec_add, spec_sub, spec_mul, spec_div, spec_of_int,
    spec_floor_int, spec_fract_raw, spec_round_int, fx_add, fx_sub, fx_mul, fx_div,
    fx_floor_int, fx_fract_raw, fx_round_int,
};
use crate::render_objects::{Colour, Camera, Mesh, Face, spec_alpha};
use crate::structures::{Vector, Matrix};

verus! {

/// Largest terminal width or height the device will address; wider
/// dimensions are clamped so that every cell index and every scaled
/// coordinate stays far inside the machine range.
pub const MAX_DIM: usize = 32768;

/// A single guarded cell write: out-of-range coordinates, or an index
/// beyond the buffer, change nothing.
pub open spec fn put(pix: Seq<Colour>, w: int, h: int, x: int, y: int, c: Colour) -> Seq<Colour> {
    if 0 <= x < w && 0 <= y < h && y * w + x < pix.len() {
        pix.update(y * w + x, c)
    } else {
        pix
    }
}

/// The colour of cell `(x, y)` in a row-major buffer of width `w`.
pub open spec fn cell_at(pix: Seq<Colour>, w: int, x: int, y: int) -> Colour {
    pix[y * w + x]
}

/// A sequence of guarded cell writes, first element first (so a later
/// write to the same cell wins).
pub open spec fn paint(pix: Seq<Colour>, w: int, h: int, cells: Seq<(int, int, Colour)>) -> Seq<Colour>
    decreases cells.len(),
{
    if cells.len() == 0 {
        pix
    } else {
        paint(put(pix, w, h, cells[0].0, cells[0].1, cells[0].2), w, h, cells.drop_first())
    }
}

/// The device: terminal dimensions, the scene to render, and the owned
/// pixel buffer, row-major with `y * width + x` indexing.
pub struct Device {
    pub dimensions: (usize, usize),
    pub camera: Camera,
    pub meshes: Vec<Mesh>,
    pub pixels: Vec<Colour>,
    pub background: Colour,
}

impl Device {
    /// The buffer has exactly one cell per coordinate pair and the
    /// dimensions are within the addressable clamp.
    pub open spec fn wf(&self) -> bool {
        &&& self.pixels@.len() == self.dimensions.0 * self.dimensions.1
        &&& self.dimensions.0 <= MAX_DIM
        &&& self.dimensions.1 <= MAX_DIM
    }

    /// Width and height of this device, as ints for specs.
    pub open spec fn w(&self) -> int {
        self.dimensions.0 as int
    }

    pub open spec fn h(&self) -> int {
        self.dimensions.1 as int
    }

    /// The scene, camera and shape of a device are untouched by a draw
    /// call; only pixel contents change.
    pub open spec fn same_frame(&self, o: &Device) -> bool {
        &&& self.dimensions == o.dimensions
        &&& self.camera == o.camera
        &&& self.meshes@ == o.meshes@
        &&& self.background == o.background
        &&& self.pixels@.len() == o.pixels@.len()
    }

    /// A device over a `width x height` buffer (clamped to the
    /// addressable range), every cell set to the given background
    /// colour.
    pub fn new(width: usize, height: usize, camera: Camera, meshes: Vec<Mesh>, background: Colour)
        -> (r: Device)
        ensures
            r.wf(),
            r.dimensions.0 == if width <= MAX_DIM { width } else { MAX_DIM },
            r.dimensions.1 == if height <= MAX_DIM { height } else { MAX_DIM },
            r.camera == camera,
            r.meshes@ == meshes@,
            r.background == background,
            forall|i: int| 0 <= i < r.pixels@.len() ==> r.pixels@[i] == background,
    {
        let colour = background;
        let w: usize = if width <= MAX_DIM { width } else { MAX_DIM };
        let h: usize = if height <= MAX_DIM { height } else { MAX_DIM };
        proof {
            assert((w as int) * (h as int) <= 0x40000000int) by (nonlinear_arith)
                requires w <= 32768, h <= 32768;
        }
        let pixels = filled(w * h, colour);
        Device { dimensions: (w, h), camera, meshes, pixels, background: colour }
    }

    /// Reset every cell to the background colour, as the start of a
    /// frame requires.
    pub fn clear(&mut self)
        requires
            old(self).wf(),
        ensures
            final(self).wf(),
            final(self).same_frame(old(self)),
            forall|i: int| 0 <= i < final(self).pixels@.len()
                ==> final(self).pixels@[i] == final(self).background,
    {
        let n: usize = self.pixels.len();
        self.pixels = filled(n, self.background);
    }

    /// Overwrite one cell; coordinates at or beyond the dimensions are
    /// dropped silently (the consistent out-of-bounds policy of this
    /// device).
    pub fn draw_point(&mut self, x: usize, y: usize, colour: Colour)
        requires
            old(self).wf(),
        ensures
            final(self).wf(),
            final(self).same_frame(old(self)),
            final(self).pixels@ == put(old(self).pixels@, old(self).w(), old(self).h(), x as int, y as int, colour),
    {
        let w: usize = self.dimensions.0;
        let h: usize = self.dimensions.1;
        if x < w && y < h {
            proof {
                assert((y as int) * (w as int) + (x as int) < (h as int) * (w as int)
                    && (y as int) * (w as int) + (x as int) <= 0x40000000int)
                    by (nonlinear_arith)
                    requires 0 <= x < w, 0 <= y < h, w <= 32768, h <= 32768;
                assert((w as int) * (h as int) == (h as int) * (w as int)) by (nonlinear_arith);
            }
            let idx: usize = y * w + x;
            self.pixels.set(idx, colour);
        }
    }
}

/// A vector of `n` copies of one colour.
fn filled(n: usize, colour: Colour) -> (r: Vec<Colour>)
    ensures
        r@.len() == n,
        forall|i: int| 0 <= i < n ==> r@[i] == colour,
{
    let mut v: Vec<Colour> = Vec::new();
    let mut i: usize = 0;
    while i < n
        invariant
            i <= n,
            v@.len() == i,
            forall|j: int| 0 <= j < i ==> v@[j] == colour,
        decreases n - i,
    {
        v.push(colour);
        i += 1;
    }
    v
}

/// The cells of the shallow (`|dy| <= dx`) Bresenham walk: one cell per
/// column from `x` to `x1`, stepping the row by `yi` whenever the error
/// accumulator is positive.
pub open spec fn bres_low_cells(x: int, x1: int, y: int, yi: int, d: int, dx: int, dy: int, c: Colour)
    -> Seq<(int, int, Colour)>
    decreases x1 + 1 - x,
{
    if x > x1 {
        Seq::empty()
    } else {
        let rest = if d > 0 {
            bres_low_cells(x + 1, x1, y + yi, yi, d + 2 * dy - 2 * dx, dx, dy, c)
        } else {
            bres_low_cells(x + 1, x1, y, yi, d + 2 * dy, dx, dy, c)
        };
        seq![(x, y, c)] + rest
    }
}

/// The cells of the steep (`dx < |dy|`) Bresenham walk: one cell per
/// row from `y` to `y1`, stepping the column by `xi` whenever the error
/// accumulator is positive.
pub open spec fn bres_high_cells(y: int, y1: int, x: int, xi: int, d: int, dx: int, dy: int, c: Colour)
    -> Seq<(int, int, Colour)>
    decreases y1 + 1 - y,
{
    if y > y1 {
        Seq::empty()
    } else {
        let rest = if d > 0 {
            bres_high_cells(y + 1, y1, x + xi, xi, d + 2 * dx - 2 * dy, dx, dy, c)
        } else {
            bres_high_cells(y + 1, y1, x, xi, d + 2 * dx, dx, dy, c)
        };
        seq![(x, y, c)] + rest
    }
}

/// The shallow walk from `p1` to `p2` (requires `p1.0 <= p2.0`).
pub open spec fn bres_low(p1: (int, int), p2: (int, int), c: Colour) -> Seq<(int, int, Colour)> {
    let dx = p2.0 - p1.0;
    let dy0 = p2.1 - p1.1;
    let yi = if dy0 < 0 { -1int } else { 1int };
    let dy = iabs(dy0);
    bres_low_cells(p1.0, p2.0, p1.1, yi, 2 * dy - dx, dx, dy, c)
}

/// The steep walk from `p1` to `p2` (requires `p1.1 <= p2.1`).
pub open spec fn bres_high(p1: (int, int), p2: (int, int), c: Colour) -> Seq<(int, int, Colour)> {
    let dy = p2.1 - p1.1;
    let dx0 = p2.0 - p1.0;
    let xi = if dx0 < 0 { -1int } else { 1int };
    let dx = iabs(dx0);
    bres_high_cells(p1.1, p2.1, p1.0, xi, 2 * dx - dy, dx, dy, c)
}

/// All cells of the Bresenham line between two points: the shallow or
/// steep walk, endpoints ordered along the major axis.
pub open spec fn bres_line_cells(p1: (int, int), p2: (int, int), c: Colour) -> Seq<(int, int, Colour)> {
    if iabs(p2.1 - p1.1) < iabs(p2.0 - p1.0) {
        if p1.0 > p2.0 {
            bres_low(p2, p1, c)
        } else {
            bres_low(p1, p2, c)
        }
    } else {
        if p1.1 > p2.1 {
            bres_high(p2, p1, c)
        } else {
            bres_high(p1, p2, c)
        }
    }
}

impl Device {
    /// Draw a straight line of whole cells between two integer points by
    /// Bresenham's algorithm: every touched cell gets the full colour,
    /// and both endpoints are set.
    pub fn draw_line_fast(&mut self, p1: (usize, usize), p2: (usize, usize), colour: Colour)
        requires
            old(self).wf(),
        ensures
            final(self).wf(),
            final(self).same_frame(old(self)),
            final(self).pixels@ == paint(
                old(self).pixels@, old(self).w(), old(self).h(),
                bres_line_cells((p1.0 as int, p1.1 as int), (p2.0 as int, p2.1 as int), colour)),
    {
        let ady: u128 = abs_diff(p2.1, p1.1);
        let adx: u128 = abs_diff(p2.0, p1.0);
        if ady < adx {
            if p1.0 > p2.0 {
                self.draw_line_low(p2, p1, colour);
            } else {
                self.draw_line_low(p1, p2, colour);
            }
        } else {
            if p1.1 > p2.1 {
                self.draw_line_high(p2, p1, colour);
            } else {
                self.draw_line_high(p1, p2, colour);
            }
        }
    }

    /// The shallow Bresenham walk, iterating over columns.
    fn draw_line_low(&mut self, p1: (usize, usize), p2: (usize, usize), colour: Colour)
        requires
            old(self).wf(),
            p1.0 <= p2.0,
            iabs(p2.1 as int - p1.1 as int) <= p2.0 as int - p1.0 as int,
        ensures
            final(self).wf(),
            final(self).same_frame(old(self)),
            final(self).pixels@ == paint(
                old(self).pixels@, old(self).w(), old(self).h(),
                bres_low((p1.0 as int, p1.1 as int), (p2.0 as int, p2.1 as int), colour)),
    {
        let ghost opix = self.pixels@;
        let ghost w = self.w();
        let ghost h = self.h();
        let x1: u128 = p2.0 as u128;
        let dx: i128 = p2.0 as i128 - p1.0 as i128;
        let dy0: i128 = p2.1 as i128 - p1.1 as i128;
        let yi: i128 = if dy0 < 0 { -1 } else { 1 };
        let dy: i128 = if dy0 < 0 { -dy0 } else { dy0 };
        let mut d: i128 = 2 * dy - dx;
        let mut y: i128 = p1.1 as i128;
        let mut x: u128 = p1.0 as u128;
        while x <= x1
            invariant
                self.wf(),
                self.same_frame(old(self)),
                self.dimensions == old(self).dimensions,
                w == self.w(),
                h == self.h(),
                opix.len() == self.pixels@.len(),
                x1 == p2.0 as int,
                dx == p2.0 as int - p1.0 as int,
                dy == iabs(p2.1 as int - p1.1 as int),
                yi == (if (p2.1 as int - p1.1 as int) < 0 { -1int } else { 1int }),
                0 <= dy <= dx,
                x <= x1 + 1,
                2 * dy - 2 * dx <= d <= 2 * dy,
                iabs(y - p1.1 as int) <= x - p1.0 as int,
                p1.0 as int <= x,
                paint(opix, w, h, bres_low((p1.0 as int, p1.1 as int), (p2.0 as int, p2.1 as int), colour))
                    == paint(self.pixels@, w, h,
                        bres_low_cells(x as int, x1 as int, y as int, yi as int, d as int, dx as int, dy as int, colour)),
            decreases x1 + 1 - x,
        {
            let ghost cells_here = bres_low_cells(x as int, x1 as int, y as int, yi as int, d as int, dx as int, dy as int, colour);
            if y >= 0 && y < self.dimensions.1 as i128 && x < self.dimensions.0 as u128 {
                self.draw_point(x as usize, y as usize, colour);
            }
            proof {
                assert(cells_here[0] == (x as int, y as int, colour));
                assert(cells_here.drop_first() == if d > 0 {
                    bres_low_cells(x as int + 1, x1 as int, y as int + yi as int, yi as int,
                        d as int + 2 * (dy as int) - 2 * (dx as int), dx as int, dy as int, colour)
                } else {
                    bres_low_cells(x as int + 1, x1 as int, y as int, yi as int,
                        d as int + 2 * (dy as int), dx as int, dy as int, colour)
                });
            }
            if d > 0 {
                y = y + yi;
                d = d + 2 * dy - 2 * dx;
            } else {
                d = d + 2 * dy;
            }
            x = x + 1;
        }
    }

    /// The steep Bresenham walk, iterating over rows.
    fn draw_line_high(&mut self, p1: (usize, usize), p2: (usize, usize), colour: Colour)
        requires
            old(self).wf(),
            p1.1 <= p2.1,
            iabs(p2.0 as int - p1.0 as int) <= p2.1 as int - p1.1 as int,
        ensures
            final(self).wf(),
            final(self).same_frame(old(self)),
            final(self).pixels@ == paint(
                old(self).pixels@, old(self).w(), old(self).h(),
                bres_high((p1.0 as int, p1.1 as int), (p2.0 as int, p2.1 as int), colour)),
    {
        let ghost opix = self.pixels@;
        let ghost w = self.w();
        let ghost h = self.h();
        let y1: u128 = p2.1 as u128;
        let dy: i128 = p2.1 as i128 - p1.1 as i128;
        let dx0: i128 = p2.0 as i128 - p1.0 as i128;
        let xi: i128 = if dx0 < 0 { -1 } else { 1 };
        let dx: i128 = if dx0 < 0 { -dx0 } else { dx0 };
        let mut d: i128 = 2 * dx - dy;
        let mut x: i128 = p1.0 as i128;
        let mut y: u128 = p1.1 as u128;
        while y <= y1
            invariant
                self.wf(),
                self.same_frame(old(self)),
                self.dimensions == old(self).dimensions,
                w == self.w(),
                h == self.h(),
                opix.len() == self.pixels@.len(),
                y1 == p2.1 as int,
                dy == p2.1 as int - p1.1 as int,
                dx == iabs(p2.0 as int - p1.0 as int),
                xi == (if (p2.0 as int - p1.0 as int) < 0 { -1int } else { 1int }),
                0 <= dx <= dy,
                y <= y1 + 1,
                2 * dx - 2 * dy <= d <= 2 * dx,
                iabs(x - p1.0 as int) <= y - p1.1 as int,
                p1.1 as int <= y,
                paint(opix, w, h, bres_high((p1.0 as int, p1.1 as int), (p2.0 as int, p2.1 as int), colour))
                    == paint(self.pixels@, w, h,
                        bres_high_cells(y as int, y1 as int, x as int, xi as int, d as int, dx as int, dy as int, colour)),
            decreases y1 + 1 - y,
        {
            let ghost cells_here = bres_high_cells(y as int, y1 as int, x as int, xi as int, d as int, dx as int, dy as int, colour);
            if x >= 0 && x < self.dimensions.0 as i128 && y < self.dimensions.1 as u128 {
                self.draw_point(x as usize, y as usize, colour);
            }
            proof {
                assert(cells_here[0] == (x as int, y as int, colour));
                assert(cells_here.drop_first() == if d > 0 {
                    bres_high_cells(y as int + 1, y1 as int, x as int + xi as int, xi as int,
                        d as int + 2 * (dx as int) - 2 * (dy as int), dx as int, dy as int, colour)
                } else {
                    bres_high_cells(y as int + 1, y1 as int, x as int, xi as int,
                        d as int + 2 * (dx as int), dx as int, dy as int, colour)
                });
            }
            if d > 0 {
                x = x + xi;
                d = d + 2 * dx - 2 * dy;
            } else {
                d = d + 2 * dx;
            }
            y = y + 1;
        }
    }
}

/// Absolute difference of two lengths, computed wide.
fn abs_diff(a: usize, b: usize) -> (r: u128)
    ensures
        r == iabs(a as int - b as int),
{
    if a >= b {
        (a - b) as u128
    } else {
        (b - a) as u128
    }
}

/// The intensity an antialiased line emits for a computed coverage: a
/// grey base colour emits the coverage itself, while an RGBA base colour
/// emits the coverage combined with (scaled by) its own alpha channel.
pub open spec fn wu_shade(cov: int, colour: Colour) -> Colour {
    match colour {
        Colour::Grey(_i) => Colour::Grey(Fx { raw: cov as i64 }),
        Colour::Rgba(_r, _g, _b, a) => Colour::Grey(spec_mul(Fx { raw: cov as i64 }, a)),
    }
}

/// The two cells an antialiased line covers at one column (or row, when
/// steep): the fractional part `f` of the ideal minor coordinate goes to
/// the far cell and its complement to the near cell, each weighted by
/// the endpoint gap `g` and shaded by the base colour.
pub open spec fn wu_end_cells(px: int, py: int, f: int, g: int, steep: bool, colour: Colour)
    -> Seq<(int, int, Colour)> {
    let near = wu_shade(spec_mul(Fx { raw: (SCALE - f) as i64 }, Fx { raw: g as i64 }).raw as int, colour);
    let far = wu_shade(spec_mul(Fx { raw: f as i64 }, Fx { raw: g as i64 }).raw as int, colour);
    if steep {
        seq![(py, px, near), (py + 1, px, far)]
    } else {
        seq![(px, py, near), (px, py + 1, far)]
    }
}

/// The interior cells of an antialiased line: two per step along the
/// shallow axis, the ideal minor coordinate advancing by the gradient,
/// its fractional part splitting the coverage between the straddled
/// cells, shaded by the base colour.
pub open spec fn wu_interior_cells(x: int, xend: int, intery: Fx, grad: Fx, steep: bool, colour: Colour)
    -> Seq<(int, int, Colour)>
    decreases xend - x,
{
    if x >= xend {
        Seq::empty()
    } else {
        let py = spec_floor_int(intery);
        let f = spec_fract_raw(intery);
        let near = wu_shade(SCALE - f, colour);
        let far = wu_shade(f, colour);
        let pair = if steep {
            seq![(py, x, near), (py + 1, x, far)]
        } else {
            seq![(x, py, near), (x, py + 1, far)]
        };
        pair + wu_interior_cells(x + 1, xend, spec_add(intery, grad), grad, steep, colour)
    }
}

/// Every cell write of the antialiased (Wu) line between two fixed-point
/// endpoints: the two endpoint splits, then the interior pairs.
pub open spec fn wu_line_cells(p1: (Fx, Fx), p2: (Fx, Fx), colour: Colour) -> Seq<(int, int, Colour)> {
    let steep = iabs(p2.1.raw - p1.1.raw) > iabs(p2.0.raw - p1.0.raw);
    let q1 = if steep { (p1.1, p1.0) } else { p1 };
    let q2 = if steep { (p2.1, p2.0) } else { p2 };
    let a = if q1.0.raw > q2.0.raw { q2 } else { q1 };
    let b = if q1.0.raw > q2.0.raw { q1 } else { q2 };
    let dx = spec_sub(b.0, a.0);
    let dy = spec_sub(b.1, a.1);
    let grad = if dx.raw == 0 { Fx { raw: SCALE } } else { spec_div(dy, dx) };
    let xend1 = spec_round_int(a.0);
    let yend1 = spec_add(a.1, spec_mul(grad, spec_sub(spec_of_int(xend1 as int), a.0)));
    let xgap1 = SCALE - spec_fract_raw(spec_add(a.0, Fx { raw: HALF_SCALE }));
    let end1 = wu_end_cells(xend1 as int, spec_floor_int(yend1), spec_fract_raw(yend1), xgap1, steep, colour);
    let xend2 = spec_round_int(b.0);
    let yend2 = spec_add(b.1, spec_mul(grad, spec_sub(spec_of_int(xend2 as int), b.0)));
    let xgap2 = SCALE - spec_fract_raw(spec_add(b.0, Fx { raw: HALF_SCALE }));
    let end2 = wu_end_cells(xend2 as int, spec_floor_int(yend2), spec_fract_raw(yend2), xgap2, steep, colour);
    let intery0 = spec_add(yend1, grad);
    end1 + end2 + wu_interior_cells(xend1 + 1, xend2 as int, intery0, grad, steep, colour)
}

/// Unfolding a paint by its first two writes.
pub proof fn lemma_paint_step2(pix: Seq<Colour>, w: int, h: int, cells: Seq<(int, int, Colour)>)
    requires
        cells.len() >= 2,
    ensures
        paint(pix, w, h, cells) == paint(
            put(put(pix, w, h, cells[0].0, cells[0].1, cells[0].2), w, h, cells[1].0, cells[1].1, cells[1].2),
            w, h, cells.drop_first().drop_first()),
{
    let pix1 = put(pix, w, h, cells[0].0, cells[0].1, cells[0].2);
    assert(cells.drop_first()[0] == cells[1]);
    assert(paint(pix, w, h, cells) == paint(pix1, w, h, cells.drop_first()));
    assert(paint(pix1, w, h, cells.drop_first()) == paint(
        put(pix1, w, h, cells[1].0, cells[1].1, cells[1].2), w, h, cells.drop_first().drop_first()));
}

/// Antialiased coverage pairs are complementary: each interior step of
/// a Wu line splits exactly one cell's worth of coverage between the two
/// straddled cells, so for a grey base colour (whose emitted intensity
/// is the coverage itself) the two intensities of every emitted pair
/// sum to exactly one.
pub proof fn lemma_wu_pair_coverage(x: int, xend: int, intery: Fx, grad: Fx, steep: bool,
    colour: Colour, k: int)
    requires
        colour is Grey,
        0 <= k,
        k + 1 < wu_interior_cells(x, xend, intery, grad, steep, colour).len(),
        k % 2 == 0,
    ensures
        ({
            let cells = wu_interior_cells(x, xend, intery, grad, steep, colour);
            spec_alpha(cells[k].2).raw + spec_alpha(cells[k + 1].2).raw == SCALE
        }),
    decreases k,
{
    let cells = wu_interior_cells(x, xend, intery, grad, steep, colour);
    if x < xend {
        let rest = wu_interior_cells(x + 1, xend, spec_add(intery, grad), grad, steep, colour);
        if k == 0 {
            assert(cells[0].2 == Colour::Grey(Fx { raw: (SCALE - spec_fract_raw(intery)) as i64 }));
            assert(cells[1].2 == Colour::Grey(Fx { raw: spec_fract_raw(intery) as i64 }));
        } else {
            assert(cells[k] == rest[k - 2] && cells[k + 1] == rest[k - 1]);
            assert((k - 2) % 2 == 0) by {
                vstd::arithmetic::div_mod::lemma_mod_sub_multiples_vanish(k, 2);
            }
            lemma_wu_pair_coverage(x + 1, xend, spec_add(intery, grad), grad, steep, colour, k - 2);
        }
    }
}

/// At an endpoint whose gap covers the whole cell, the two intensities a
/// grey base colour emits also sum to exactly one: weighting a
/// complementary split by a full gap is exact.
pub proof fn lemma_wu_end_pair_coverage(px: int, py: int, f: int, steep: bool, colour: Colour)
    requires
        colour is Grey,
        0 <= f <= SCALE,
    ensures
        ({
            let cells = wu_end_cells(px, py, f, SCALE as int, steep, colour);
            spec_alpha(cells[0].2).raw + spec_alpha(cells[1].2).raw == SCALE
        }),
{
    crate::fixed::lemma_mul_one(Fx { raw: (SCALE - f) as i64 });
    crate::fixed::lemma_mul_one(Fx { raw: f as i64 });
}

/// Painting a concatenation paints the first part, then the second.
pub proof fn lemma_paint_concat(pix: Seq<Colour>, w: int, h: int, s1: Seq<(int, int, Colour)>, s2: Seq<(int, int, Colour)>)
    ensures
        paint(pix, w, h, s1 + s2) == paint(paint(pix, w, h, s1), w, h, s2),
    decreases s1.len(),
{
    if s1.len() == 0 {
        assert(s1 + s2 =~= s2);
    } else {
        let pix1 = put(pix, w, h, s1[0].0, s1[0].1, s1[0].2);
        assert((s1 + s2).drop_first() =~= s1.drop_first() + s2);
        lemma_paint_concat(pix1, w, h, s1.drop_first(), s2);
    }
}

impl Device {
    /// One guarded cell write with wide signed coordinates.
    fn put_cell(&mut self, x: i128, y: i128, colour: Colour)
        requires
            old(self).wf(),
        ensures
            final(self).wf(),
            final(self).same_frame(old(self)),
            final(self).pixels@ == put(old(self).pixels@, old(self).w(), old(self).h(), x as int, y as int, colour),
    {
        if x >= 0 && y >= 0 && x < self.dimensions.0 as i128 && y < self.dimensions.1 as i128 {
            self.draw_point(x as usize, y as usize, colour);
        }
    }

    /// Draw an antialiased line (Wu's algorithm) between two fixed-point
    /// endpoints.  Each step sets the two cells straddling the ideal
    /// line; a grey base colour emits the coverage fraction itself,
    /// while an RGBA base colour emits the coverage combined with its
    /// alpha channel.
    pub fn draw_line_antialiased(&mut self, p1: (Fx, Fx), p2: (Fx, Fx), colour: Colour)
        requires
            old(self).wf(),
        ensures
            final(self).wf(),
            final(self).same_frame(old(self)),
            final(self).pixels@ == paint(old(self).pixels@, old(self).w(), old(self).h(),
                wu_line_cells(p1, p2, colour)),
    {
        let ghost opix = self.pixels@;
        let ghost w = self.w();
        let ghost h = self.h();
        let steep: bool = raw_gt(abs_sub(p2.1.raw, p1.1.raw), abs_sub(p2.0.raw, p1.0.raw));
        let q1: (Fx, Fx) = if steep { (p1.1, p1.0) } else { p1 };
        let q2: (Fx, Fx) = if steep { (p2.1, p2.0) } else { p2 };
        let swap: bool = q1.0.raw > q2.0.raw;
        let a: (Fx, Fx) = if swap { q2 } else { q1 };
        let b: (Fx, Fx) = if swap { q1 } else { q2 };
        let dx: Fx = fx_sub(b.0, a.0);
        let dy: Fx = fx_sub(b.1, a.1);
        let grad: Fx = if dx.raw == 0 { Fx { raw: SCALE } } else { fx_div(dy, dx) };
        let xend1: i64 = fx_round_int(a.0);
        let yend1: Fx = fx_add(a.1, fx_mul(grad, fx_sub(Fx::of_int(xend1), a.0)));
        let xgap1: i64 = SCALE - fx_fract_raw(fx_add(a.0, Fx { raw: HALF_SCALE }));
        let ypxl1: i64 = fx_floor_int(yend1);
        let f1: i64 = fx_fract_raw(yend1);
        let near1: Colour = wu_shade_exec(fx_mul(Fx { raw: SCALE - f1 }, Fx { raw: xgap1 }).raw, colour);
        let far1: Colour = wu_shade_exec(fx_mul(Fx { raw: f1 }, Fx { raw: xgap1 }).raw, colour);
        let xend2: i64 = fx_round_int(b.0);
        let yend2: Fx = fx_add(b.1, fx_mul(grad, fx_sub(Fx::of_int(xend2), b.0)));
        let xgap2: i64 = SCALE - fx_fract_raw(fx_add(b.0, Fx { raw: HALF_SCALE }));
        let ypxl2: i64 = fx_floor_int(yend2);
        let f2: i64 = fx_fract_raw(yend2);
        let near2: Colour = wu_shade_exec(fx_mul(Fx { raw: SCALE - f2 }, Fx { raw: xgap2 }).raw, colour);
        let far2: Colour = wu_shade_exec(fx_mul(Fx { raw: f2 }, Fx { raw: xgap2 }).raw, colour);
        let ghost end1 = wu_end_cells(xend1 as int, ypxl1 as int, f1 as int, xgap1 as int, steep, colour);
        let ghost end2 = wu_end_cells(xend2 as int, ypxl2 as int, f2 as int, xgap2 as int, steep, colour);
        let ghost interior = wu_interior_cells(xend1 as int + 1, xend2 as int,
            spec_add(yend1, grad), grad, steep, colour);
        proof {
            assert(wu_line_cells(p1, p2, colour) == end1 + end2 + interior);
            lemma_paint_concat(opix, w, h, end1 + end2, interior);
            lemma_paint_concat(opix, w, h, end1, end2);
        }
        if steep {
            self.put_cell(ypxl1 as i128, xend1 as i128, near1);
            self.put_cell(ypxl1 as i128 + 1, xend1 as i128, far1);
            self.put_cell(ypxl2 as i128, xend2 as i128, near2);
            self.put_cell(ypxl2 as i128 + 1, xend2 as i128, far2);
        } else {
            self.put_cell(xend1 as i128, ypxl1 as i128, near1);
            self.put_cell(xend1 as i128, ypxl1 as i128 + 1, far1);
            self.put_cell(xend2 as i128, ypxl2 as i128, near2);
            self.put_cell(xend2 as i128, ypxl2 as i128 + 1, far2);
        }
        proof {
            lemma_paint_step2(opix, w, h, end1);
            assert(end1.drop_first().drop_first() =~= Seq::<(int, int, Colour)>::empty());
            let pix1 = paint(opix, w, h, end1);
            lemma_paint_step2(pix1, w, h, end2);
            assert(end2.drop_first().drop_first() =~= Seq::<(int, int, Colour)>::empty());
            assert(self.pixels@ == paint(paint(opix, w, h, end1), w, h, end2));
        }
        let mut intery: Fx = fx_add(yend1, grad);
        let mut x: i64 = xend1 + 1;
        // Walk the interior columns from just past the first endpoint to
        // just before the second.
        while x < xend2
            invariant
                self.wf(),
                self.same_frame(old(self)),
                w == self.w(),
                h == self.h(),
                opix.len() == self.pixels@.len(),
                -0x1000000000000i64 <= xend2 <= 0x1000000000000i64,
                -0x1000000000000i64 <= x <= 0x1000000000001i64,
                paint(opix, w, h, wu_line_cells(p1, p2, colour)) == paint(self.pixels@, w, h,
                    wu_interior_cells(x as int, xend2 as int, intery, grad, steep, colour)),
            decreases xend2 - x,
        {
            let py: i64 = fx_floor_int(intery);
            let f: i64 = fx_fract_raw(intery);
            let near: Colour = wu_shade_exec(SCALE - f, colour);
            let far: Colour = wu_shade_exec(f, colour);
            let ghost pix_in = self.pixels@;
            let ghost cells_here = wu_interior_cells(x as int, xend2 as int, intery, grad, steep, colour);
            proof {
                assert(cells_here.len() >= 2);
                lemma_paint_step2(pix_in, w, h, cells_here);
                assert(cells_here.drop_first().drop_first() =~= wu_interior_cells(
                    x as int + 1, xend2 as int, spec_add(intery, grad), grad, steep, colour));
            }
            if steep {
                self.put_cell(py as i128, x as i128, near);
                self.put_cell(py as i128 + 1, x as i128, far);
            } else {
                self.put_cell(x as i128, py as i128, near);
                self.put_cell(x as i128, py as i128 + 1, far);
            }
            intery = fx_add(intery, grad);
            x = x + 1;
        }
    }
}

/// The shade an antialiased write emits for a computed coverage.
fn wu_shade_exec(cov: i64, colour: Colour) -> (r: Colour)
    ensures
        r == wu_shade(cov as int, colour),
{
    match colour {
        Colour::Grey(_i) => Colour::Grey(Fx { raw: cov }),
        Colour::Rgba(_r, _g, _b, a) => Colour::Grey(fx_mul(Fx { raw: cov }, a)),
    }
}

/// Magnitude of the difference of two raw values, computed wide.
fn abs_sub(a: i64, b: i64) -> (r: u128)
    ensures
        r == iabs(a as int - b as int),
{
    let d: i128 = a as i128 - b as i128;
    if d >= 0 {
        d as u128
    } else {
        (-d) as u128
    }
}

/// Magnitude of a raw value, computed wide.
fn abs_raw(a: i64) -> (r: u128)
    ensures
        r == iabs(a as int),
{
    if a >= 0 {
        a as u128
    } else {
        (-(a as i128)) as u128
    }
}

/// Strictly-greater comparison of two wide magnitudes.
fn raw_gt(a: u128, b: u128) -> (r: bool)
    ensures
        r == (a > b),
{
    a > b
}

/// Largest raw coordinate magnitude the triangle rasterizer addresses;
/// far beyond any terminal, it only keeps the exact cross products
/// inside the machine word.
pub const TRI_LIMIT: i64 = 0x800000000000;

/// Two-dimensional cross product of `(ax, ay)` and `(bx, by)`.
pub open spec fn cross2(ax: int, ay: int, bx: int, by: int) -> int {
    ax * by - ay * bx
}

/// The doubled signed area of the triangle: the cross product of its two
/// edge vectors out of the first vertex.
pub open spec fn tri_denom(p1: (Fx, Fx), p2: (Fx, Fx), p3: (Fx, Fx)) -> int {
    cross2(
        p2.0.raw - p1.0.raw, p2.1.raw - p1.1.raw,
        p3.0.raw - p1.0.raw, p3.1.raw - p1.1.raw)
}

/// Whether the cell `(x, y)` lies inside the triangle (boundary
/// included): the barycentric coordinates `s` and `t` of the cell against
/// the two edge vectors satisfy `s >= 0`, `t >= 0`, `s + t <= 1`, tested
/// exactly on the cross products without any division.
pub open spec fn tri_inside(p1: (Fx, Fx), p2: (Fx, Fx), p3: (Fx, Fx), x: int, y: int) -> bool {
    let d = tri_denom(p1, p2, p3);
    let v1x = p2.0.raw - p1.0.raw;
    let v1y = p2.1.raw - p1.1.raw;
    let v2x = p3.0.raw - p1.0.raw;
    let v2y = p3.1.raw - p1.1.raw;
    let qx = x * SCALE - p1.0.raw;
    let qy = y * SCALE - p1.1.raw;
    let s = cross2(qx, qy, v2x, v2y);
    let t = cross2(v1x, v1y, qx, qy);
    if d > 0 {
        s >= 0 && t >= 0 && s + t <= d
    } else {
        d < 0 && s <= 0 && t <= 0 && s + t >= d
    }
}

/// Ceiling of a raw value divided by the scale.
pub open spec fn ceil_div_scale(v: int) -> int {
    -((-v) / (SCALE as int))
}

/// The triangle's bounding box of whole cells, clipped to the buffer:
/// `(xlo, xhi, ylo, yhi)`, inclusive on all sides.
pub open spec fn tri_bbox(p1: (Fx, Fx), p2: (Fx, Fx), p3: (Fx, Fx), w: int, h: int)
    -> (int, int, int, int) {
    let xminr = min3(p1.0.raw as int, p2.0.raw as int, p3.0.raw as int);
    let xmaxr = max3(p1.0.raw as int, p2.0.raw as int, p3.0.raw as int);
    let yminr = min3(p1.1.raw as int, p2.1.raw as int, p3.1.raw as int);
    let ymaxr = max3(p1.1.raw as int, p2.1.raw as int, p3.1.raw as int);
    let xlo = if xminr / (SCALE as int) > 0 { xminr / (SCALE as int) } else { 0int };
    let xhi = if ceil_div_scale(xmaxr) < w - 1 { ceil_div_scale(xmaxr) } else { w - 1 };
    let ylo = if yminr / (SCALE as int) > 0 { yminr / (SCALE as int) } else { 0int };
    let yhi = if ceil_div_scale(ymaxr) < h - 1 { ceil_div_scale(ymaxr) } else { h - 1 };
    (xlo, xhi, ylo, yhi)
}

pub open spec fn min3(a: int, b: int, c: int) -> int {
    if a <= b && a <= c { a } else if b <= c { b } else { c }
}

pub open spec fn max3(a: int, b: int, c: int) -> int {
    if a >= b && a >= c { a } else if b >= c { b } else { c }
}

/// Whether the fill of the triangle colours the cell `(x, y)`: the
/// triangle is not degenerate, the cell is in the clipped bounding box,
/// and the inside test holds.
pub open spec fn tri_covers(p1: (Fx, Fx), p2: (Fx, Fx), p3: (Fx, Fx), w: int, h: int, x: int, y: int)
    -> bool {
    let bb = tri_bbox(p1, p2, p3, w, h);
    tri_denom(p1, p2, p3) != 0
        && bb.0 <= x <= bb.1
        && bb.2 <= y <= bb.3
        && tri_inside(p1, p2, p3, x, y)
}

/// The buffer after a triangle fill: every covered cell takes the fill
/// colour, every other cell keeps its value.
pub open spec fn fill_apply(pix: Seq<Colour>, w: int, h: int, p1: (Fx, Fx), p2: (Fx, Fx), p3: (Fx, Fx), c: Colour)
    -> Seq<Colour> {
    Seq::new(pix.len(), |i: int| if tri_covers(p1, p2, p3, w, h, i % w, i / w) { c } else { pix[i] })
}

/// Distinct in-range cells have distinct buffer indices.
proof fn lemma_cell_index_injective(w: int, h: int, x1: int, y1: int, x2: int, y2: int)
    requires
        0 <= x1 < w,
        0 <= y1 < h,
        0 <= x2 < w,
        0 <= y2 < h,
        y1 * w + x1 == y2 * w + x2,
    ensures
        x1 == x2 && y1 == y2,
{
    assert(x1 == x2 && y1 == y2) by (nonlinear_arith)
        requires
            0 <= x1 < w, 0 <= y1 < h, 0 <= x2 < w, 0 <= y2 < h,
            y1 * w + x1 == y2 * w + x2;
}

/// Exact wide two-dimensional cross product.
fn cross2_wide(ax: i128, ay: i128, bx: i128, by: i128) -> (r: i128)
    requires
        -0x1000000000000000 <= ax <= 0x1000000000000000,
        -0x1000000000000000 <= ay <= 0x1000000000000000,
        -0x1000000000000000 <= bx <= 0x1000000000000000,
        -0x1000000000000000 <= by <= 0x1000000000000000,
    ensures
        r == cross2(ax as int, ay as int, bx as int, by as int),
        -0x2000000000000000000000000000000 <= r <= 0x2000000000000000000000000000000,
{
    proof {
        assert(-0x1000000000000000000000000000000int <= (ax as int) * (by as int)
            <= 0x1000000000000000000000000000000int
            && -0x1000000000000000000000000000000int <= (ay as int) * (bx as int)
            <= 0x1000000000000000000000000000000int) by (nonlinear_arith)
            requires
                -0x1000000000000000 <= ax <= 0x1000000000000000,
                -0x1000000000000000 <= ay <= 0x1000000000000000,
                -0x1000000000000000 <= bx <= 0x1000000000000000,
                -0x1000000000000000 <= by <= 0x1000000000000000;
    }
    ax * by - ay * bx
}

impl Device {
    /// Fill the triangle with the colour: every cell of the clipped
    /// bounding box whose barycentric coordinates satisfy the inclusive
    /// inside test is overwritten; a degenerate (zero-area) triangle
    /// fills nothing.  The coordinate bound is a machine limit far
    /// beyond the addressable buffer.
    #[verifier::rlimit(100)]
    pub fn fill_triangle(&mut self, p1: (Fx, Fx), p2: (Fx, Fx), p3: (Fx, Fx), colour: Colour)
        requires
            old(self).wf(),
            iabs(p1.0.raw as int) <= TRI_LIMIT,
            iabs(p1.1.raw as int) <= TRI_LIMIT,
            iabs(p2.0.raw as int) <= TRI_LIMIT,
            iabs(p2.1.raw as int) <= TRI_LIMIT,
            iabs(p3.0.raw as int) <= TRI_LIMIT,
            iabs(p3.1.raw as int) <= TRI_LIMIT,
        ensures
            final(self).wf(),
            final(self).same_frame(old(self)),
            final(self).pixels@ == fill_apply(old(self).pixels@, old(self).w(), old(self).h(), p1, p2, p3, colour),
    {
        let ghost opix = self.pixels@;
        let ghost w = self.w();
        let ghost h = self.h();
        let v1x: i128 = p2.0.raw as i128 - p1.0.raw as i128;
        let v1y: i128 = p2.1.raw as i128 - p1.1.raw as i128;
        let v2x: i128 = p3.0.raw as i128 - p1.0.raw as i128;
        let v2y: i128 = p3.1.raw as i128 - p1.1.raw as i128;
        let d: i128 = cross2_wide(v1x, v1y, v2x, v2y);
        if d == 0 {
            proof {
                assert(self.pixels@ =~= fill_apply(opix, w, h, p1, p2, p3, colour));
            }
            return;
        }
        let wdim: usize = self.dimensions.0;
        let hdim: usize = self.dimensions.1;
        let xminr: i64 = min3_raw(p1.0.raw, p2.0.raw, p3.0.raw);
        let xmaxr: i64 = max3_raw(p1.0.raw, p2.0.raw, p3.0.raw);
        let yminr: i64 = min3_raw(p1.1.raw, p2.1.raw, p3.1.raw);
        let ymaxr: i64 = max3_raw(p1.1.raw, p2.1.raw, p3.1.raw);
        let xlo0: i64 = fx_floor_int(Fx { raw: xminr });
        let xhi0: i64 = -fx_floor_int(Fx { raw: -xmaxr });
        let ylo0: i64 = fx_floor_int(Fx { raw: yminr });
        let yhi0: i64 = -fx_floor_int(Fx { raw: -ymaxr });
        let xlo: i64 = if xlo0 > 0 { xlo0 } else { 0 };
        let xhi: i64 = if xhi0 < wdim as i64 - 1 { xhi0 } else { wdim as i64 - 1 };
        let ylo: i64 = if ylo0 > 0 { ylo0 } else { 0 };
        let yhi: i64 = if yhi0 < hdim as i64 - 1 { yhi0 } else { hdim as i64 - 1 };
        let ghost bb = tri_bbox(p1, p2, p3, w, h);
        proof {
            assert(bb == (xlo as int, xhi as int, ylo as int, yhi as int));
        }
        if ylo > yhi || xlo > xhi {
            proof {
                assert forall|i: int| 0 <= i < opix.len()
                    implies #[trigger] fill_apply(opix, w, h, p1, p2, p3, colour)[i] == opix[i] by {
                    assert(!tri_covers(p1, p2, p3, w, h, i % w, i / w));
                }
                assert(self.pixels@ =~= fill_apply(opix, w, h, p1, p2, p3, colour));
            }
            return;
        }
        let mut y: i64 = ylo;
        while y <= yhi
            invariant
                self.wf(),
                self.same_frame(old(self)),
                w == self.w(),
                h == self.h(),
                opix.len() == self.pixels@.len(),
                bb == tri_bbox(p1, p2, p3, w, h),
                bb == (xlo as int, xhi as int, ylo as int, yhi as int),
                tri_denom(p1, p2, p3) == d,
                d != 0,
                0 <= xlo, xhi < w, 0 <= ylo, yhi < h,
                xlo <= xhi && ylo <= yhi,
                ylo <= y <= yhi + 1,
                v1x == p2.0.raw - p1.0.raw && v1y == p2.1.raw - p1.1.raw,
                v2x == p3.0.raw - p1.0.raw && v2y == p3.1.raw - p1.1.raw,
                iabs(p1.0.raw as int) <= TRI_LIMIT && iabs(p1.1.raw as int) <= TRI_LIMIT,
                iabs(p2.0.raw as int) <= TRI_LIMIT && iabs(p2.1.raw as int) <= TRI_LIMIT,
                iabs(p3.0.raw as int) <= TRI_LIMIT && iabs(p3.1.raw as int) <= TRI_LIMIT,
                forall|xx: int, yy: int| 0 <= xx < w && 0 <= yy < h ==>
                    #[trigger] cell_at(self.pixels@, w, xx, yy)
                        == (if tri_covers(p1, p2, p3, w, h, xx, yy) && yy < y {
                        colour
                    } else {
                        cell_at(opix, w, xx, yy)
                    }),
            decreases yhi + 1 - y,
        {
            let mut x: i64 = xlo;
            while x <= xhi
                invariant
                    self.wf(),
                    self.same_frame(old(self)),
                    w == self.w(),
                    h == self.h(),
                    opix.len() == self.pixels@.len(),
                    bb == tri_bbox(p1, p2, p3, w, h),
                    bb == (xlo as int, xhi as int, ylo as int, yhi as int),
                    tri_denom(p1, p2, p3) == d,
                    d != 0,
                    0 <= xlo, xhi < w, 0 <= ylo, yhi < h,
                    xlo <= xhi && ylo <= yhi,
                    ylo <= y <= yhi,
                    xlo <= x <= xhi + 1,
                    v1x == p2.0.raw - p1.0.raw && v1y == p2.1.raw - p1.1.raw,
                    v2x == p3.0.raw - p1.0.raw && v2y == p3.1.raw - p1.1.raw,
                    iabs(p1.0.raw as int) <= TRI_LIMIT && iabs(p1.1.raw as int) <= TRI_LIMIT,
                    iabs(p2.0.raw as int) <= TRI_LIMIT && iabs(p2.1.raw as int) <= TRI_LIMIT,
                    iabs(p3.0.raw as int) <= TRI_LIMIT && iabs(p3.1.raw as int) <= TRI_LIMIT,
                    forall|xx: int, yy: int| 0 <= xx < w && 0 <= yy < h ==>
                        #[trigger] cell_at(self.pixels@, w, xx, yy)
                            == (if tri_covers(p1, p2, p3, w, h, xx, yy)
                            && (yy < y || (yy == y && xx < x)) {
                            colour
                        } else {
                            cell_at(opix, w, xx, yy)
                        }),
                decreases xhi + 1 - x,
            {
                proof {
                    assert(-0x100000000000000int <= (x as int) * (SCALE as int) <= 0x100000000000000int
                        && -0x100000000000000int <= (y as int) * (SCALE as int) <= 0x100000000000000int)
                        by (nonlinear_arith)
                        requires 0 <= x <= 32768, 0 <= y <= 32768, SCALE == 65536i64;
                }
                let qx: i128 = (x as i128) * (SCALE as i128) - p1.0.raw as i128;
                let qy: i128 = (y as i128) * (SCALE as i128) - p1.1.raw as i128;
                let s: i128 = cross2_wide(qx, qy, v2x, v2y);
                let t: i128 = cross2_wide(v1x, v1y, qx, qy);
                let inside: bool = if d > 0 {
                    s >= 0 && t >= 0 && s + t <= d
                } else {
                    s <= 0 && t <= 0 && s + t >= d
                };
                let ghost pix_prev = self.pixels@;
                if inside {
                    self.draw_point(x as usize, y as usize, colour);
                }
                proof {
                    assert(inside == tri_inside(p1, p2, p3, x as int, y as int));
                    assert(tri_covers(p1, p2, p3, w, h, x as int, y as int) == inside);
                    assert((y as int) * w + (x as int) < opix.len() && w * h == opix.len()) by (nonlinear_arith)
                        requires
                            0 <= x < w, 0 <= y < h, opix.len() == w * h;
                    assert forall|xx: int, yy: int| 0 <= xx < w && 0 <= yy < h
                        && !(xx == x as int && yy == y as int)
                        implies #[trigger] cell_at(self.pixels@, w, xx, yy) == cell_at(pix_prev, w, xx, yy) by {
                        assert(0 <= yy * w + xx < opix.len()) by (nonlinear_arith)
                            requires
                                0 <= xx < w, 0 <= yy < h, opix.len() == w * h;
                        if yy * w + xx == (y as int) * w + (x as int) {
                            lemma_cell_index_injective(w, h, xx, yy, x as int, y as int);
                        }
                    }
                    if inside {
                        assert(cell_at(self.pixels@, w, x as int, y as int) == colour);
                    }
                }
                x += 1;
            }
            y += 1;
        }
        proof {
            assert forall|i: int| 0 <= i < self.pixels@.len()
                implies self.pixels@[i] == #[trigger] fill_apply(opix, w, h, p1, p2, p3, colour)[i] by {
                assert(w > 0 && h > 0) by (nonlinear_arith)
                    requires
                        0 <= i < opix.len(), opix.len() == w * h, w >= 0, h >= 0;
                vstd::arithmetic::div_mod::lemma_fundamental_div_mod(i, w);
                vstd::arithmetic::div_mod::lemma_mod_division_less_than_divisor(i, w);
                let xx = i % w;
                let yy = i / w;
                assert(0 <= yy && yy < h && i == yy * w + xx) by (nonlinear_arith)
                    requires
                        0 <= i, i < w * h, w > 0, h > 0,
                        i == w * yy + xx, 0 <= xx < w;
                assert(cell_at(self.pixels@, w, xx, yy)
                    == (if tri_covers(p1, p2, p3, w, h, xx, yy) && yy < y {
                    colour
                } else {
                    cell_at(opix, w, xx, yy)
                }));
            }
            assert(self.pixels@ =~= fill_apply(opix, w, h, p1, p2, p3, colour));
        }
    }
}

/// The buffer after drawing a full triangle: the three edges stroked
/// first (by the chosen line algorithm), then the interior filled over
/// them — the fill runs after the stroke and overwrites it where the
/// two overlap, which is this renderer's documented composition policy.
pub open spec fn tri_draw_apply(pix: Seq<Colour>, w: int, h: int, p1: (Fx, Fx), p2: (Fx, Fx), p3: (Fx, Fx),
    c: Colour, antialiased: bool) -> Seq<Colour> {
    let stroked = if antialiased {
        paint(paint(paint(pix, w, h, wu_line_cells(p1, p2, c)), w, h, wu_line_cells(p2, p3, c)), w, h,
            wu_line_cells(p3, p1, c))
    } else {
        let c1 = (cell_of(p1.0), cell_of(p1.1));
        let c2 = (cell_of(p2.0), cell_of(p2.1));
        let c3 = (cell_of(p3.0), cell_of(p3.1));
        paint(paint(paint(pix, w, h, bres_line_cells(c1, c2, c)), w, h, bres_line_cells(c2, c3, c)), w, h,
            bres_line_cells(c3, c1, c))
    };
    fill_apply(stroked, w, h, p1, p2, p3, c)
}

/// The whole cell of a fixed-point screen coordinate for the plain line
/// algorithm: the floor, clamped into the addressable cell range.
pub open spec fn cell_of(a: Fx) -> int {
    if spec_floor_int(a) <= 0 {
        0
    } else if spec_floor_int(a) >= MAX_DIM {
        MAX_DIM as int
    } else {
        spec_floor_int(a)
    }
}

impl Device {
    /// Draw a triangle: stroke its three edges (antialiased or plain),
    /// then fill its interior.  The fill runs last and overwrites the
    /// stroke wherever both touch a cell.
    pub fn draw_triangle(&mut self, p1: (Fx, Fx), p2: (Fx, Fx), p3: (Fx, Fx), colour: Colour,
        antialiased: bool)
        requires
            old(self).wf(),
            iabs(p1.0.raw as int) <= TRI_LIMIT,
            iabs(p1.1.raw as int) <= TRI_LIMIT,
            iabs(p2.0.raw as int) <= TRI_LIMIT,
            iabs(p2.1.raw as int) <= TRI_LIMIT,
            iabs(p3.0.raw as int) <= TRI_LIMIT,
            iabs(p3.1.raw as int) <= TRI_LIMIT,
        ensures
            final(self).wf(),
            final(self).same_frame(old(self)),
            final(self).pixels@ == tri_draw_apply(old(self).pixels@, old(self).w(), old(self).h(),
                p1, p2, p3, colour, antialiased),
    {
        if antialiased {
            self.draw_line_antialiased(p1, p2, colour);
            self.draw_line_antialiased(p2, p3, colour);
            self.draw_line_antialiased(p3, p1, colour);
        } else {
            let c1 = (floor_cell(p1.0), floor_cell(p1.1));
            let c2 = (floor_cell(p2.0), floor_cell(p2.1));
            let c3 = (floor_cell(p3.0), floor_cell(p3.1));
            self.draw_line_fast(c1, c2, colour);
            self.draw_line_fast(c2, c3, colour);
            self.draw_line_fast(c3, c1, colour);
        }
        self.fill_triangle(p1, p2, p3, colour);
    }
}

/// The whole cell of a screen coordinate, clamped into the addressable
/// cell range.
fn floor_cell(a: Fx) -> (r: usize)
    ensures
        r == cell_of(a),
{
    let f: i64 = fx_floor_int(a);
    if f <= 0 {
        0
    } else if f >= MAX_DIM as i64 {
        MAX_DIM
    } else {
        f as usize
    }
}

/// The model matrix of a mesh: its translation composed with the
/// rotation whose axis is the pose vector and whose angle is that
/// vector's magnitude.
pub open spec fn spec_model(mesh: Mesh) -> Matrix {
    crate::structures::spec_mat_mul(
        crate::structures::spec_translation(mesh.pos),
        crate::structures::spec_rotation(crate::structures::spec_magnitude(mesh.rot), mesh.rot))
}

/// A vertex taken through the composed transform to the screen: after
/// the perspective divide (culling anything with a non-positive `w`,
/// which lies behind the camera), the normalized coordinates are mapped
/// onto the viewport; a result beyond the rasterizer's coordinate limit
/// is culled too.
pub open spec fn spec_project(mvp: Matrix, v: Vector, w: int, h: int) -> Option<(Fx, Fx)> {
    let t = crate::structures::spec_transform(mvp, v);
    if t.w.raw <= 0 {
        None
    } else {
        let half_w = Fx { raw: (w * SCALE / 2) as i64 };
        let half_h = Fx { raw: (h * SCALE / 2) as i64 };
        let sx = spec_mul(spec_add(spec_div(t.x, t.w), Fx { raw: SCALE }), half_w);
        let sy = spec_mul(spec_add(spec_div(t.y, t.w), Fx { raw: SCALE }), half_h);
        if iabs(sx.raw as int) <= TRI_LIMIT && iabs(sy.raw as int) <= TRI_LIMIT {
            Some((sx, sy))
        } else {
            None
        }
    }
}

/// The buffer after rendering one face of a mesh: its three vertices
/// projected, and, when the face is valid and wholly in front of the
/// camera, the triangle drawn antialiased in the face's colour.
pub open spec fn spec_draw_face(pix: Seq<Colour>, w: int, h: int, mvp: Matrix, mesh: Mesh, i: int)
    -> Seq<Colour> {
    let f = mesh.faces@[i];
    if !crate::render_objects::face_valid(f, mesh.vertices@.len() as int) {
        pix
    } else {
        let a = spec_project(mvp, mesh.vertices@[f.v0 as int], w, h);
        let b = spec_project(mvp, mesh.vertices@[f.v1 as int], w, h);
        let c = spec_project(mvp, mesh.vertices@[f.v2 as int], w, h);
        if a is Some && b is Some && c is Some {
            tri_draw_apply(pix, w, h, a->Some_0, b->Some_0, c->Some_0, f.colour, true)
        } else {
            pix
        }
    }
}

/// The buffer after rendering the faces of a mesh from index `i` on.
pub open spec fn spec_render_faces(pix: Seq<Colour>, w: int, h: int, mvp: Matrix, mesh: Mesh, i: int)
    -> Seq<Colour>
    decreases mesh.faces@.len() - i,
{
    if i < 0 || i >= mesh.faces@.len() {
        pix
    } else {
        spec_render_faces(spec_draw_face(pix, w, h, mvp, mesh, i), w, h, mvp, mesh, i + 1)
    }
}

/// The composed transform of one mesh: projection, then view, then the
/// mesh's model matrix — the rightmost applies to a vertex first.
pub open spec fn spec_mvp(proj: Matrix, view: Matrix, mesh: Mesh) -> Matrix {
    crate::structures::spec_mat_mul(crate::structures::spec_mat_mul(proj, view), spec_model(mesh))
}

/// The buffer after rendering the meshes from index `k` on.
pub open spec fn spec_render_meshes(pix: Seq<Colour>, w: int, h: int, proj: Matrix, view: Matrix,
    meshes: Seq<Mesh>, k: int) -> Seq<Colour>
    decreases meshes.len() - k,
{
    if k < 0 || k >= meshes.len() {
        pix
    } else {
        spec_render_meshes(
            spec_render_faces(pix, w, h, spec_mvp(proj, view, meshes[k]), meshes[k], 0),
            w, h, proj, view, meshes, k + 1)
    }
}

/// The field of view of the fixed projection, in fixed-point radians.
pub const FOV_RAW: i64 = 65536;

/// The near plane distance of the fixed projection, in whole units.
pub const NEAR_WHOLE: i64 = 1;

/// The far plane distance of the fixed projection, in whole units.
pub const FAR_WHOLE: i64 = 100;

/// The projection matrix a device of the given dimensions renders with.
pub open spec fn spec_device_projection(w: int, h: int) -> Matrix {
    crate::structures::spec_perspective(
        Fx { raw: FOV_RAW },
        spec_div(spec_of_int(w), spec_of_int(h)),
        spec_of_int(NEAR_WHOLE as int),
        spec_of_int(FAR_WHOLE as int))
}

/// The buffer after rendering the whole scene; a device with no cells
/// renders nothing.
pub open spec fn spec_render(pix: Seq<Colour>, w: int, h: int, cam: Camera, meshes: Seq<Mesh>)
    -> Seq<Colour> {
    if w <= 0 || h <= 0 {
        pix
    } else {
        spec_render_meshes(pix, w, h, spec_device_projection(w, h),
            crate::render_objects::spec_view(cam), meshes, 0)
    }
}

impl Device {
    /// Project one vertex through a composed transform onto this
    /// device's viewport.
    fn project(&self, mvp: &Matrix, v: Vector) -> (r: Option<(Fx, Fx)>)
        requires
            self.wf(),
        ensures
            r == spec_project(*mvp, v, self.w(), self.h()),
    {
        let t: Vector = mvp.transform(v);
        if t.w.raw <= 0 {
            None
        } else {
            let half_w = Fx { raw: (((self.dimensions.0 as u64) * (SCALE as u64)) / 2) as i64 };
            let half_h = Fx { raw: (((self.dimensions.1 as u64) * (SCALE as u64)) / 2) as i64 };
            let sx: Fx = fx_mul(fx_add(fx_div(t.x, t.w), Fx { raw: SCALE }), half_w);
            let sy: Fx = fx_mul(fx_add(fx_div(t.y, t.w), Fx { raw: SCALE }), half_h);
            let okx: bool = -TRI_LIMIT <= sx.raw && sx.raw <= TRI_LIMIT;
            let oky: bool = -TRI_LIMIT <= sy.raw && sy.raw <= TRI_LIMIT;
            if okx && oky {
                Some((sx, sy))
            } else {
                None
            }
        }
    }

    /// Render the whole scene into the buffer: for every mesh, compose
    /// its model matrix with the camera's view matrix and the device's
    /// projection, project every face's vertices, cull faces behind the
    /// camera or beyond the coordinate limit, and draw the remaining
    /// triangles antialiased.
    #[verifier::rlimit(100)]
    pub fn render(&mut self)
        requires
            old(self).wf(),
        ensures
            final(self).wf(),
            final(self).same_frame(old(self)),
            final(self).pixels@ == spec_render(old(self).pixels@, old(self).w(), old(self).h(),
                old(self).camera, old(self).meshes@),
    {
        let ghost opix = self.pixels@;
        let ghost w = self.w();
        let ghost h = self.h();
        if self.dimensions.0 == 0 || self.dimensions.1 == 0 {
            return;
        }
        let view: Matrix = self.camera.view_matrix();
        let ratio: Fx = fx_div(Fx::of_int(self.dimensions.0 as i64), Fx::of_int(self.dimensions.1 as i64));
        let proj: Matrix = Matrix::perspective(Fx { raw: FOV_RAW }, ratio, Fx::of_int(NEAR_WHOLE),
            Fx::of_int(FAR_WHOLE));
        let ghost cam = self.camera;
        let ghost meshes = self.meshes@;
        let mut k: usize = 0;
        while k < self.meshes.len()
            invariant
                self.wf(),
                self.same_frame(old(self)),
                w == self.w() && h == self.h() && w > 0 && h > 0,
                opix.len() == self.pixels@.len(),
                cam == self.camera,
                meshes == self.meshes@,
                view == crate::render_objects::spec_view(cam),
                proj == spec_device_projection(w, h),
                k <= meshes.len(),
                spec_render_meshes(opix, w, h, proj, view, meshes, 0)
                    == spec_render_meshes(self.pixels@, w, h, proj, view, meshes, k as int),
            decreases meshes.len() - k,
        {
            let mvp: Matrix = proj.mat_mul(&view).mat_mul(&Matrix::translation(self.meshes[k].pos)
                .mat_mul(&Matrix::rotation(self.meshes[k].rot.magnitude(), self.meshes[k].rot)));
            proof {
                assert(mvp == spec_mvp(proj, view, meshes[k as int]));
            }
            let nverts: usize = self.meshes[k].vertices.len();
            let nfaces: usize = self.meshes[k].faces.len();
            let ghost mesh = meshes[k as int];
            let mut i: usize = 0;
            while i < nfaces
                invariant
                    self.wf(),
                    self.same_frame(old(self)),
                    w == self.w() && h == self.h() && w > 0 && h > 0,
                    opix.len() == self.pixels@.len(),
                    cam == self.camera,
                    meshes == self.meshes@,
                    view == crate::render_objects::spec_view(cam),
                    proj == spec_device_projection(w, h),
                    k < meshes.len(),
                    mesh == meshes[k as int],
                    mvp == spec_mvp(proj, view, mesh),
                    nverts == mesh.vertices@.len(),
                    nfaces == mesh.faces@.len(),
                    i <= nfaces,
                    spec_render_meshes(opix, w, h, proj, view, meshes, 0)
                        == spec_render_meshes(
                            spec_render_faces(self.pixels@, w, h, mvp, mesh, i as int),
                            w, h, proj, view, meshes, k as int + 1),
                decreases nfaces - i,
            {
                let ghost pix_in = self.pixels@;
                let f: Face = self.meshes[k].faces[i];
                if f.v0 < nverts && f.v1 < nverts && f.v2 < nverts {
                    let va: Vector = self.meshes[k].vertices[f.v0];
                    let vb: Vector = self.meshes[k].vertices[f.v1];
                    let vc: Vector = self.meshes[k].vertices[f.v2];
                    let pa: Option<(Fx, Fx)> = self.project(&mvp, va);
                    let pb: Option<(Fx, Fx)> = self.project(&mvp, vb);
                    let pc: Option<(Fx, Fx)> = self.project(&mvp, vc);
                    match (pa, pb, pc) {
                        (Some(a), Some(b), Some(c)) => {
                            self.draw_triangle(a, b, c, f.colour, true);
                        },
                        _ => {},
                    }
                }
                proof {
                    assert(spec_draw_face(pix_in, w, h, mvp, mesh, i as int) == self.pixels@);
                }
                i += 1;
            }
            k += 1;
        }
    }
}

/// First glyph band edge: one fifth of the unit intensity, rounded down.
pub const BAND_1: i64 = 13107;

/// Second glyph band edge: two fifths of the unit intensity.
pub const BAND_2: i64 = 26214;

/// Third glyph band edge: three fifths of the unit intensity.
pub const BAND_3: i64 = 39321;

/// Fourth glyph band edge: four fifths of the unit intensity.
pub const BAND_4: i64 = 52428;

/// The glyph of a colour: its alpha (or grey intensity) quantized into
/// five density bands, sparsest to densest.
pub open spec fn spec_glyph(c: Colour) -> char {
    let a = spec_alpha(c).raw;
    if a <= BAND_1 {
        '-'
    } else if a <= BAND_2 {
        '+'
    } else if a <= BAND_3 {
        '&'
    } else if a <= BAND_4 {
        '#'
    } else {
        '\u{2588}'
    }
}

/// The decimal digits of a number as characters, most significant first
/// (a negative argument never reaches more than one digit).
pub open spec fn dec_chars(n: int) -> Seq<char>
    decreases n,
{
    if n < 10 {
        seq![digit_char(n)]
    } else {
        dec_chars(n / 10).push(digit_char(n % 10))
    }
}

/// The character of one decimal digit.
pub open spec fn digit_char(d: int) -> char {
    if d == 0 { '0' }
    else if d == 1 { '1' }
    else if d == 2 { '2' }
    else if d == 3 { '3' }
    else if d == 4 { '4' }
    else if d == 5 { '5' }
    else if d == 6 { '6' }
    else if d == 7 { '7' }
    else if d == 8 { '8' }
    else { '9' }
}

/// The characters emitted for one cell: the cursor-positioning escape
/// sequence (1-based row and column) followed by the cell's glyph.
pub open spec fn present_cell(pix: Seq<Colour>, w: int, x: int, y: int) -> Seq<char> {
    seq!['\u{1b}', '['] + dec_chars(y + 1) + seq![';'] + dec_chars(x + 1)
        + seq!['H', spec_glyph(pix[y * w + x])]
}

/// The characters of one row of cells from column `x` on.
pub open spec fn present_row(pix: Seq<Colour>, w: int, y: int, x: int) -> Seq<char>
    decreases w - x,
{
    if x < 0 || x >= w {
        Seq::empty()
    } else {
        present_cell(pix, w, x, y) + present_row(pix, w, y, x + 1)
    }
}

/// The characters of all rows from row `y` on.
pub open spec fn present_rows(pix: Seq<Colour>, w: int, h: int, y: int) -> Seq<char>
    decreases h - y,
{
    if y < 0 || y >= h {
        Seq::empty()
    } else {
        present_row(pix, w, y, 0) + present_rows(pix, w, h, y + 1)
    }
}

/// Append the decimal digits of `n` to a character vector.
fn push_dec(out: &mut Vec<char>, n: u64)
    ensures
        final(out)@ == old(out)@ + dec_chars(n as int),
    decreases n,
{
    if n < 10 {
        out.push(digit_exec(n));
    } else {
        let ghost mid = old(out)@ + dec_chars(n as int / 10);
        push_dec(out, n / 10);
        out.push(digit_exec(n % 10));
        proof {
            assert(final(out)@ =~= old(out)@ + dec_chars(n as int));
        }
    }
}

/// The character of one decimal digit.
fn digit_exec(d: u64) -> (r: char)
    ensures
        r == digit_char(d as int),
{
    if d == 0 { '0' }
    else if d == 1 { '1' }
    else if d == 2 { '2' }
    else if d == 3 { '3' }
    else if d == 4 { '4' }
    else if d == 5 { '5' }
    else if d == 6 { '6' }
    else if d == 7 { '7' }
    else if d == 8 { '8' }
    else { '9' }
}

impl Device {
    /// The glyph a colour's intensity maps to on this terminal surface.
    pub fn colour_to_char(colour: Colour) -> (r: char)
        ensures
            r == spec_glyph(colour),
    {
        let alpha: Fx = colour.alpha();
        if alpha.raw <= BAND_1 {
            '-'
        } else if alpha.raw <= BAND_2 {
            '+'
        } else if alpha.raw <= BAND_3 {
            '&'
        } else if alpha.raw <= BAND_4 {
            '#'
        } else {
            '\u{2588}'
        }
    }

    /// The escape sequence that clears the whole terminal screen.
    pub fn clear_screen(&self) -> (r: Vec<char>)
        ensures
            r@ =~= seq!['\u{1b}', '[', '2', 'J'],
    {
        let mut v: Vec<char> = Vec::new();
        v.push('\u{1b}');
        v.push('[');
        v.push('2');
        v.push('J');
        v
    }

    /// Materialize the buffer for a terminal: for every cell, in row
    /// order, a cursor-positioning escape sequence and the cell's glyph.
    pub fn present(&self) -> (out: Vec<char>)
        requires
            self.wf(),
        ensures
            out@ == present_rows(self.pixels@, self.w(), self.h(), 0),
    {
        let ghost pix = self.pixels@;
        let ghost w = self.w();
        let ghost h = self.h();
        let wdim: usize = self.dimensions.0;
        let hdim: usize = self.dimensions.1;
        let mut out: Vec<char> = Vec::new();
        let mut y: usize = 0;
        while y < hdim
            invariant
                self.wf(),
                pix == self.pixels@,
                w == self.w() && h == self.h(),
                wdim == self.dimensions.0 && hdim == self.dimensions.1,
                y <= hdim,
                out@ + present_rows(pix, w, h, y as int) == present_rows(pix, w, h, 0),
            decreases hdim - y,
        {
            let mut x: usize = 0;
            while x < wdim
                invariant
                    self.wf(),
                    pix == self.pixels@,
                    w == self.w() && h == self.h(),
                    wdim == self.dimensions.0 && hdim == self.dimensions.1,
                    y < hdim,
                    x <= wdim,
                    out@ + present_row(pix, w, y as int, x as int) + present_rows(pix, w, h, y as int + 1)
                        == present_rows(pix, w, h, 0),
                decreases wdim - x,
            {
                let ghost out_in = out@;
                out.push('\u{1b}');
                out.push('[');
                push_dec(&mut out, y as u64 + 1);
                out.push(';');
                push_dec(&mut out, x as u64 + 1);
                out.push('H');
                proof {
                    assert((y as int) * w + (x as int) < pix.len()
                        && (y as int) * w + (x as int) <= 0x40000000int)
                        by (nonlinear_arith)
                        requires
                            0 <= x < w, 0 <= y < h, pix.len() == w * h,
                            w <= 32768, h <= 32768;
                }
                let idx: usize = y * wdim + x;
                out.push(Device::colour_to_char(self.pixels[idx]));
                proof {
                    assert(out@ =~= out_in + present_cell(pix, w, x as int, y as int));
                    assert(out_in + present_row(pix, w, y as int, x as int)
                        =~= (out_in + present_cell(pix, w, x as int, y as int))
                            + present_row(pix, w, y as int, x as int + 1));
                    assert(out@ + present_row(pix, w, y as int, x as int + 1) + present_rows(pix, w, h, y as int + 1)
                        =~= out_in + present_row(pix, w, y as int, x as int) + present_rows(pix, w, h, y as int + 1));
                }
                x += 1;
            }
            proof {
                assert(present_row(pix, w, y as int, wdim as int) =~= Seq::<char>::empty());
                assert(out@ + present_rows(pix, w, h, y as int + 1)
                    =~= out@ + present_row(pix, w, y as int, wdim as int) + present_rows(pix, w, h, y as int + 1));
            }
            y += 1;
        }
        proof {
            assert(present_rows(pix, w, h, hdim as int) =~= Seq::<char>::empty());
            assert(out@ =~= out@ + present_rows(pix, w, h, hdim as int));
        }
        out
    }
}

/// Smallest of three raw values.
fn min3_raw(a: i64, b: i64, c: i64) -> (r: i64)
    ensures
        r == min3(a as int, b as int, c as int),
{
    if a <= b && a <= c { a } else if b <= c { b } else { c }
}

/// Largest of three raw values.
fn max3_raw(a: i64, b: i64, c: i64) -> (r: i64)
    ensures
        r == max3(a as int, b as int, c as int),
{
    if a >= b && a >= c { a } else if b >= c { b } else { c }
}

} // verus!
