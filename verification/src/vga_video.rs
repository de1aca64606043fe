//! The off-screen pixel buffer of the graphics mode: a width-by-height
//! byte grid drawn into with clipped pixel writes, straight lines, and a
//! clipped rectangle blit. Pushing the finished buffer through the graphics
//! controller's planes is the embedding program's side.

use vstd::prelude::*;

verus! {

/// An off-screen pixel buffer, row-major.
pub struct VGABuffer {
    pub w: usize,
    pub h: usize,
    pub buffer: Vec<u8>,
}

impl VGABuffer {
    /// A buffer of the given size, every pixel in the given colour.
    pub fn new(x: usize, y: usize, color: u8) -> (r: VGABuffer)
        requires
            x * y <= usize::MAX,
        ensures
            r.w == x,
            r.h == y,
            r.buffer@ =~= Seq::new((x * y) as nat, |i: int| color),
    {
        let mut vga = VGABuffer { w: x, h: y, buffer: vec![0u8; x * y] };
        let mut i: usize = 0;
        let n = x * y;
        while i < n
            invariant
                i <= n,
                vga.w == x,
                vga.h == y,
                vga.buffer@.len() == n,
                n == x * y,
                forall|j: int| 0 <= j < i ==> vga.buffer@[j] == color,
            decreases n - i,
        {
            vga.buffer[i] = color;
            i = i + 1;
        }
        vga
    }

    /// Paints one pixel; a position beyond the buffer is ignored.
    pub fn draw_pixel(&mut self, x: usize, y: usize, color: u8)
        requires
            x + y * old(self).w <= usize::MAX,
        ensures
            final(self).w == old(self).w,
            final(self).h == old(self).h,
            final(self).buffer@ == if x + y * old(self).w < old(self).buffer@.len() {
                old(self).buffer@.update(x + y * old(self).w, color)
            } else {
                old(self).buffer@
            },
    {
        let pos = x + y * self.w;
        if pos >= self.buffer.len() {
            return ;
        }
        self.buffer[pos] = color;
    }

    /// Reads one pixel.
    pub fn get_pixel(&self, x: usize, y: usize) -> (r: u8)
        requires
            x + y * self.w < self.buffer@.len(),
        ensures
            r == self.buffer@[x + y * self.w],
    {
        let n = self.buffer.len();
        self.buffer[x + y * self.w]
    }

    /// Draws the straight line from `(x1, y1)` to `(x2, y2)`: exactly the
    /// positions the error-term recurrence of `spec_draw_line` visits are
    /// painted, each clipped against the buffer, the start first and the
    /// far end last. The coordinate bound keeps the doubled error term
    /// within a 32-bit pointer-width integer, the narrowest machine this
    /// arithmetic must fit.
    pub fn draw_line(&mut self, x1: usize, y1: usize, x2: usize, y2: usize, color: u8)
        requires
            x1 <= 32767,
            y1 <= 32767,
            x2 <= 32767,
            y2 <= 32767,
            old(self).w <= 65536,
        ensures
            final(self).w == old(self).w,
            final(self).h == old(self).h,
            final(self).buffer@.len() == old(self).buffer@.len(),
            final(self).buffer@ == spec_draw_line(
                old(self).buffer@,
                old(self).w as int,
                x1 as int,
                y1 as int,
                x2 as int,
                y2 as int,
                color,
            ),
            forall|i: int|
                0 <= i < final(self).buffer@.len() ==> final(self).buffer@[i] == old(
                    self,
                ).buffer@[i] || final(self).buffer@[i] == color,
            x1 + y1 * old(self).w < old(self).buffer@.len() ==> final(self).buffer@[x1 + y1 * old(
                self,
            ).w] == color,
            x2 + y2 * old(self).w < old(self).buffer@.len() ==> final(self).buffer@[x2 + y2 * old(
                self,
            ).w] == color,
    {
        let mut px = x1 as isize;
        let mut py = y1 as isize;
        let tx = x2 as isize;
        let ty = y2 as isize;

        let dx = if tx >= px {
            tx - px
        } else {
            px - tx
        };
        let dy = -(if ty >= py {
            ty - py
        } else {
            py - ty
        });

        let sx: isize = if px < tx {
            1
        } else {
            -1
        };
        let sy: isize = if py < ty {
            1
        } else {
            -1
        };

        let mut err = dx + dy;
        let ghost x10 = x1 as int;
        let ghost y10 = y1 as int;
        let ghost a = dx as int;
        let ghost b = -(dy as int);
        let ghost mut fuel: int = a + b + 1;
        let ghost mut started = false;

        loop
            invariant_except_break
                self.w == old(self).w,
                self.h == old(self).h,
                self.buffer@.len() == old(self).buffer@.len(),
                self.w <= 65536,
                forall|i: int|
                    0 <= i < self.buffer@.len() ==> self.buffer@[i] == old(self).buffer@[i]
                        || self.buffer@[i] == color,
                tx == x2 && ty == y2,
                x2 <= 32767 && y2 <= 32767 && 0 <= x10 <= 32767 && 0 <= y10 <= 32767,
                a == (if tx >= x10 { tx - x10 } else { x10 - tx }),
                b == (if ty >= y10 { ty - y10 } else { y10 - ty }),
                dx == a && dy == -b,
                sx == (if x10 < tx { 1int } else { -1int }),
                sy == (if y10 < ty { 1int } else { -1int }),
                0 <= sx * (px - x10) <= a,
                0 <= sy * (py - y10) <= b,
                err == a + dy + (sx * (px - x10)) * dy + (sy * (py - y10)) * a,
                2 * dy <= err <= 2 * dx,
                fuel >= (a - sx * (px - x10)) + (b - sy * (py - y10)) + 1,
                spec_draw_line(
                    old(self).buffer@,
                    old(self).w as int,
                    x10,
                    y10,
                    tx as int,
                    ty as int,
                    color,
                ) == spec_draw_line_from(
                    self.buffer@,
                    px as int,
                    py as int,
                    err as int,
                    a,
                    -b,
                    sx as int,
                    sy as int,
                    tx as int,
                    ty as int,
                    old(self).w as int,
                    color,
                    fuel,
                ),
                !started ==> px == x10 && py == y10,
                started ==> (x10 + y10 * (old(self).w as int) < self.buffer@.len()
                    ==> self.buffer@[x10 + y10 * (old(self).w as int)] == color),
            ensures
                self.w == old(self).w,
                self.h == old(self).h,
                self.buffer@.len() == old(self).buffer@.len(),
                forall|i: int|
                    0 <= i < self.buffer@.len() ==> self.buffer@[i] == old(self).buffer@[i]
                        || self.buffer@[i] == color,
                self.buffer@ == spec_draw_line(
                    old(self).buffer@,
                    old(self).w as int,
                    x10,
                    y10,
                    tx as int,
                    ty as int,
                    color,
                ),
                x10 + y10 * (old(self).w as int) < self.buffer@.len() ==> self.buffer@[x10 + y10
                    * (old(self).w as int)] == color,
                x2 + y2 * old(self).w < self.buffer@.len() ==> self.buffer@[x2 + y2 * old(self).w]
                    == color,
            decreases (a - sx * (px - x10)) + (b - sy * (py - y10)),
        {
            let ghost u = sx * (px - x10);
            let ghost v = sy * (py - y10);
            let ghost e0 = err as int;
            let ghost pxs = px as int;
            let ghost pys = py as int;
            let ghost g0 = self.buffer@;
            proof {
                lemma_line_pos(x10, tx as int, sx as int, px as int, a);
                lemma_line_pos(y10, ty as int, sy as int, py as int, b);
                assert((py as int) * (self.w as int) <= 32767 * 65536) by (nonlinear_arith)
                    requires
                        0 <= py <= 32767,
                        0 <= self.w <= 65536,
                ;
                assert((py as int) * (self.w as int) >= 0) by (nonlinear_arith)
                    requires
                        0 <= py,
                        0 <= self.w,
                ;
            }
            self.draw_pixel(px as usize, py as usize, color);
            proof {
                started = true;
                assert(self.buffer@ == spec_clipped_write(g0, pxs, pys, old(self).w as int, color));
            }

            if px == tx && py == ty {
                break ;
            }
            let e2 = 2 * err;

            if e2 >= dy {
                proof {
                    if u == a {
                        lemma_line_pos(y10, ty as int, sy as int, pys, b);
                        assert(v < b);
                        lemma_no_overshoot_x(a, b, u, v, e0, dy as int);
                        assert(false);
                    }
                }
                err = err + dy;
                px = px + sx;
            }
            proof {
                assert(0 <= sx * (px - x10) <= a && err == a + dy + (sx * (px - x10)) * dy + v * a
                    && sx * (px - x10) == u + (if 2 * e0 >= dy as int { 1int } else { 0int })) by {
                    if 2 * e0 >= dy as int {
                        assert(sx * ((pxs + sx) - x10) == u + 1) by (nonlinear_arith)
                            requires
                                sx * sx == 1,
                                u == sx * (pxs - x10),
                        ;
                        assert(e0 + dy == a + dy + (u + 1) * dy + v * a) by (nonlinear_arith)
                            requires
                                e0 == a + dy + u * dy + v * a,
                        ;
                    }
                };
            }
            if e2 <= dx {
                proof {
                    if v == b {
                        assert(u < a);
                        lemma_no_overshoot_y(a, b, u, v, e0, dy as int);
                        assert(false);
                    }
                }
                err = err + dx;
                py = py + sy;
            }
            proof {
                let u1 = sx * ((px as int) - x10);
                assert(0 <= sy * (py - y10) <= b && err == a + dy + u1 * dy + (sy * (py - y10)) * a
                    && sy * (py - y10) == v + (if 2 * e0 <= dx as int { 1int } else { 0int })) by {
                    if 2 * e0 <= dx as int {
                        assert(sy * ((pys + sy) - y10) == v + 1) by (nonlinear_arith)
                            requires
                                sy * sy == 1,
                                v == sy * (pys - y10),
                        ;
                        assert((a + dy + u1 * dy + v * a) + a == a + dy + u1 * dy + (v + 1) * a)
                            by (nonlinear_arith);
                    }
                };
                if !(2 * e0 >= dy as int) && !(2 * e0 <= dx as int) {
                    assert(false);
                }
                assert((px as int, py as int, err as int) == spec_line_step(
                    pxs,
                    pys,
                    e0,
                    a,
                    -b,
                    sx as int,
                    sy as int,
                ));
                fuel = fuel - 1;
            }
        }
    }

    /// Copies `other` into this buffer at `(x, y)`, clipped to this
    /// buffer's extent: source pixel `(c, r)` lands at `(x + c, y + r)`
    /// for every source pixel that fits; every other pixel, and the
    /// source, are unchanged.
    pub fn blit_buffer(&mut self, x: usize, y: usize, other: &mut VGABuffer)
        requires
            x <= old(self).w,
            y <= old(self).h,
            old(self).buffer@.len() == old(self).w * old(self).h,
            old(other).buffer@.len() == old(other).w * old(other).h,
        ensures
            final(self).w == old(self).w,
            final(self).h == old(self).h,
            final(self).buffer@.len() == old(self).buffer@.len(),
            final(other).w == old(other).w,
            final(other).h == old(other).h,
            final(other).buffer@ == old(other).buffer@,
            forall|c: int, r: int|
                0 <= c < spec_min(old(other).w as int, old(self).w - x) && 0 <= r < spec_min(
                    old(other).h as int,
                    old(self).h - y,
                ) ==> #[trigger] final(self).buffer@[(x + c) + (y + r) * old(self).w] == old(
                    other,
                ).buffer@[c + r * old(other).w],
            forall|i: int|
                0 <= i < old(self).buffer@.len() && !(x <= i % (old(self).w as int) < x + spec_min(
                    old(other).w as int,
                    old(self).w - x,
                ) && y <= i / (old(self).w as int) < y + spec_min(
                    old(other).h as int,
                    old(self).h - y,
                )) ==> final(self).buffer@[i] == old(self).buffer@[i],
    {
        let blen = self.buffer.len();
        let olen = other.buffer.len();
        let cols = min_usize(other.w, self.w - x);
        let rows = min_usize(other.h, self.h - y);
        let mut r: usize = 0;
        while r < rows
            invariant
                self.w == old(self).w,
                self.h == old(self).h,
                other.w == old(other).w,
                other.h == old(other).h,
                other.buffer@ == old(other).buffer@,
                self.buffer@.len() == old(self).buffer@.len(),
                old(self).buffer@.len() == old(self).w * old(self).h,
                old(other).buffer@.len() == old(other).w * old(other).h,
                old(self).buffer@.len() <= usize::MAX,
                old(other).buffer@.len() <= usize::MAX,
                x <= old(self).w,
                y <= old(self).h,
                cols == spec_min(old(other).w as int, old(self).w - x),
                rows == spec_min(old(other).h as int, old(self).h - y),
                r <= rows,
                forall|cc: int, rr: int|
                    0 <= cc < cols && 0 <= rr < r ==> #[trigger] self.buffer@[(x + cc) + (y + rr)
                        * old(self).w] == old(other).buffer@[cc + rr * old(other).w],
                forall|i: int|
                    0 <= i < self.buffer@.len() && !(x <= i % (old(self).w as int) < x + cols && y
                        <= i / (old(self).w as int) < y + r) ==> #[trigger] self.buffer@[i] == old(
                        self,
                    ).buffer@[i],
            decreases rows - r,
        {
            let mut c: usize = 0;
            while c < cols
                invariant
                    self.w == old(self).w,
                    self.h == old(self).h,
                    other.w == old(other).w,
                    other.h == old(other).h,
                    other.buffer@ == old(other).buffer@,
                    self.buffer@.len() == old(self).buffer@.len(),
                    old(self).buffer@.len() == old(self).w * old(self).h,
                    old(other).buffer@.len() == old(other).w * old(other).h,
                    old(self).buffer@.len() <= usize::MAX,
                    old(other).buffer@.len() <= usize::MAX,
                    x <= old(self).w,
                    y <= old(self).h,
                    cols == spec_min(old(other).w as int, old(self).w - x),
                    rows == spec_min(old(other).h as int, old(self).h - y),
                    r < rows,
                    c <= cols,
                    forall|cc: int, rr: int|
                        0 <= cc < cols && 0 <= rr < r ==> #[trigger] self.buffer@[(x + cc) + (y
                            + rr) * old(self).w] == old(other).buffer@[cc + rr * old(other).w],
                    forall|cc: int|
                        0 <= cc < c ==> #[trigger] self.buffer@[(x + cc) + (y + r) * old(self).w]
                            == old(other).buffer@[cc + r * old(other).w],
                    forall|i: int|
                        0 <= i < self.buffer@.len() && !(x <= i % (old(self).w as int) < x + cols
                            && y <= i / (old(self).w as int) < y + r + 1) ==> #[trigger] self.buffer@[i]
                            == old(self).buffer@[i],
                decreases cols - c,
            {
                proof {
                    lemma_cell_index(old(other).w as int, old(other).h as int, c as int, r as int);
                    lemma_cell_index(
                        old(self).w as int,
                        old(self).h as int,
                        x + c,
                        y + r,
                    );
                    lemma_row_major(old(self).w as int, x + c, y + r);
                }
                let b = other.buffer[c + r * other.w];
                self.buffer[(x + c) + (y + r) * self.w] = b;
                proof {
                    assert forall|cc: int, rr: int|
                        0 <= cc < cols && 0 <= rr < r implies #[trigger] self.buffer@[(x + cc) + (y
                            + rr) * old(self).w] == old(other).buffer@[cc + rr * old(other).w] by {
                        lemma_cell_index(old(self).w as int, old(self).h as int, x + cc, y + rr);
                        lemma_cell_index(old(other).w as int, old(other).h as int, cc, rr);
                        lemma_row_major(old(self).w as int, x + cc, y + rr);
                    }
                    assert forall|cc: int|
                        0 <= cc < c + 1 implies #[trigger] self.buffer@[(x + cc) + (y + r) * old(
                            self,
                        ).w] == old(other).buffer@[cc + r * old(other).w] by {
                        lemma_cell_index(old(self).w as int, old(self).h as int, x + cc, y + r);
                        lemma_cell_index(old(other).w as int, old(other).h as int, cc, r as int);
                        lemma_row_major(old(self).w as int, x + cc, y + r);
                    }
                }
                c = c + 1;
            }
            proof {
                assert forall|i: int|
                    0 <= i < self.buffer@.len() && !(x <= i % (old(self).w as int) < x + cols && y
                        <= i / (old(self).w as int) < y + (r + 1)) implies #[trigger] self.buffer@[i]
                    == old(self).buffer@[i] by {}
            }
            r = r + 1;
        }
        proof {
            assert forall|c: int, r2: int|
                0 <= c < cols && 0 <= r2 < rows implies #[trigger] self.buffer@[(x + c) + (y + r2)
                * old(self).w] == old(other).buffer@[c + r2 * old(other).w] by {
                lemma_cell_index(old(self).w as int, old(self).h as int, x + c, y + r2);
                lemma_cell_index(old(other).w as int, old(other).h as int, c, r2);
            }
        }
    }
}

/// The smaller of two values.
pub open spec fn spec_min(a: int, b: int) -> int {
    if a <= b {
        a
    } else {
        b
    }
}

/// The smaller of two lengths.
fn min_usize(a: usize, b: usize) -> (r: usize)
    ensures
        r == spec_min(a as int, b as int),
{
    if a <= b {
        a
    } else {
        b
    }
}

/// One pixel write, clipped against the buffer.
pub open spec fn spec_clipped_write(g: Seq<u8>, px: int, py: int, w: int, color: u8) -> Seq<u8> {
    if 0 <= px + py * w < g.len() {
        g.update(px + py * w, color)
    } else {
        g
    }
}

/// One step of the line recurrence: the doubled error term decides
/// whether the walk advances horizontally, vertically, or both.
pub open spec fn spec_line_step(
    px: int,
    py: int,
    err: int,
    dx: int,
    dy: int,
    sx: int,
    sy: int,
) -> (int, int, int) {
    let e2 = 2 * err;
    let sx_step = if e2 >= dy {
        (err + dy, px + sx)
    } else {
        (err, px)
    };
    if e2 <= dx {
        (sx_step.1, py + sy, sx_step.0 + dx)
    } else {
        (sx_step.1, py, sx_step.0)
    }
}

/// The buffer after the line walk from `(px, py)`: each visited position
/// is painted (clipped), until the far end is reached; the fuel bounds
/// the walk and is never exhausted for the walks the drawing starts.
pub open spec fn spec_draw_line_from(
    g: Seq<u8>,
    px: int,
    py: int,
    err: int,
    dx: int,
    dy: int,
    sx: int,
    sy: int,
    tx: int,
    ty: int,
    w: int,
    color: u8,
    fuel: int,
) -> Seq<u8>
    decreases fuel,
{
    let g1 = spec_clipped_write(g, px, py, w, color);
    if (px == tx && py == ty) || fuel <= 0 {
        g1
    } else {
        let st = spec_line_step(px, py, err, dx, dy, sx, sy);
        spec_draw_line_from(g1, st.0, st.1, st.2, dx, dy, sx, sy, tx, ty, w, color, fuel - 1)
    }
}

/// The buffer after drawing the whole line from `(x1, y1)` to `(x2, y2)`.
pub open spec fn spec_draw_line(
    g: Seq<u8>,
    w: int,
    x1: int,
    y1: int,
    x2: int,
    y2: int,
    color: u8,
) -> Seq<u8> {
    let a = if x2 >= x1 {
        x2 - x1
    } else {
        x1 - x2
    };
    let b = if y2 >= y1 {
        y2 - y1
    } else {
        y1 - y2
    };
    let sx: int = if x1 < x2 {
        1
    } else {
        -1
    };
    let sy: int = if y1 < y2 {
        1
    } else {
        -1
    };
    spec_draw_line_from(g, x1, y1, a - b, a, -b, sx, sy, x2, y2, w, color, a + b + 1)
}

/// A cell inside the grid has an in-range row-major index.
proof fn lemma_cell_index(w: int, h: int, col: int, row: int)
    by (nonlinear_arith)
    requires
        0 <= col < w,
        0 <= row < h,
    ensures
        0 <= col + row * w < w * h,
{
}

/// Row-major indexing is invertible: the index of a cell decomposes back
/// into its column and row.
proof fn lemma_row_major(w: int, col: int, row: int)
    by (nonlinear_arith)
    requires
        0 <= col < w,
        0 <= row,
    ensures
        (col + row * w) % w == col,
        (col + row * w) / w == row,
{
}

/// A coordinate that has taken `u` of its `a` unit steps toward the
/// target stays within the coordinate range, and reaches the target
/// exactly at the last step.
proof fn lemma_line_pos(p0: int, t: int, s: int, p: int, a: int)
    by (nonlinear_arith)
    requires
        0 <= p0 <= 32767,
        0 <= t <= 32767,
        s == (if p0 < t {
            1int
        } else {
            -1int
        }),
        a == (if t >= p0 {
            t - p0
        } else {
            p0 - t
        }),
        0 <= s * (p - p0) <= a,
    ensures
        0 <= p <= 32767,
        s * s == 1,
        s * (p - p0) == a ==> p == t,
        p == t ==> s * (p - p0) == a,
{
}

/// With the horizontal span exhausted but rows remaining, the error term
/// forbids a horizontal step.
proof fn lemma_no_overshoot_x(a: int, b: int, u: int, v: int, err: int, dy: int)
    by (nonlinear_arith)
    requires
        dy == -b,
        u == a,
        0 <= a,
        0 <= v < b,
        err == a + dy + u * dy + v * a,
    ensures
        2 * err < dy,
{
}

/// With the vertical span exhausted but columns remaining, the error term
/// forbids a vertical step.
proof fn lemma_no_overshoot_y(a: int, b: int, u: int, v: int, err: int, dy: int)
    by (nonlinear_arith)
    requires
        dy == -b,
        v == b,
        0 <= b,
        0 <= u < a,
        err == a + dy + u * dy + v * a,
    ensures
        2 * err > a,
{
}

} // verus!
