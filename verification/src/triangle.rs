//! The triangle: its edges, row by row, and its rasterizer.

use vstd::prelude::*;
use crate::scanline::Scanline;
use crate::numeric::{trunc_div, lemma_trunc_div_between};
use crate::raster::{
    rows, clip_rows, clip_lo, clip_hi, filled, filled_at, lemma_rows_clip, lemma_rows_ext,
    lemma_rows_split, lemma_emit,
};

verus! {

/// The column at which the edge from `(xa, ya)` to `(xb, yb)` crosses row
/// `y`, rounded towards zero; `xa` where the edge is level.
pub open spec fn edge_x(xa: int, ya: int, xb: int, yb: int, y: int) -> int {
    if ya == yb {
        xa
    } else {
        trunc_div(xa * (yb - ya) + (xb - xa) * (y - ya), yb - ya)
    }
}

/// A point at the fraction `k / d` of the way from `xa` to `xb` lies
/// between the two, also after rounding towards zero.
pub proof fn lemma_lerp_between(xa: int, xb: int, k: int, d: int)
    requires
        0 <= k <= d,
        0 < d,
    ensures
        xa <= xb ==> xa <= trunc_div(xa * d + (xb - xa) * k, d) <= xb,
        xb <= xa ==> xb <= trunc_div(xa * d + (xb - xa) * k, d) <= xa,
{
    let n = xa * d + (xb - xa) * k;
    let lo = if xa <= xb { xa } else { xb };
    let hi = if xa <= xb { xb } else { xa };
    assert(lo * d <= n <= hi * d) by (nonlinear_arith)
        requires
            n == xa * d + (xb - xa) * k,
            0 <= k <= d,
            lo == (if xa <= xb { xa } else { xb }),
            hi == (if xa <= xb { xb } else { xa }),
    ;
    lemma_trunc_div_between(n, d, lo, hi);
}

/// On the rows between its ends an edge stays between the columns of its
/// ends.
pub proof fn lemma_edge_between(xa: int, ya: int, xb: int, yb: int, y: int)
    requires
        ya <= y <= yb,
    ensures
        xa <= xb ==> xa <= edge_x(xa, ya, xb, yb, y) <= xb,
        xb <= xa ==> xb <= edge_x(xa, ya, xb, yb, y) <= xa,
{
    if ya != yb {
        lemma_lerp_between(xa, xb, y - ya, yb - ya);
    }
}

/// The column at which the edge from `(xa, ya)` to `(xb, yb)` crosses row
/// `y`, which lies between its ends.
pub fn edge_at(xa: i32, ya: i32, xb: i32, yb: i32, y: i64) -> (x: i64)
    requires
        ya <= y <= yb,
    ensures
        x == edge_x(xa as int, ya as int, xb as int, yb as int, y as int),
        i32::MIN <= x <= i32::MAX,
{
    proof {
        lemma_edge_between(xa as int, ya as int, xb as int, yb as int, y as int);
    }
    if ya == yb {
        return xa as i64;
    }
    let d: i128 = yb as i128 - ya as i128;
    let k: i128 = y as i128 - ya as i128;
    let run: i128 = xb as i128 - xa as i128;
    assert(-0x1_0000_0000_0000_0000 <= xa * d <= 0x1_0000_0000_0000_0000) by (nonlinear_arith)
        requires
            -0x8000_0000 <= xa <= 0x8000_0000,
            0 <= d <= 0x1_0000_0000,
    ;
    assert(-0x1_0000_0000_0000_0000 <= run * k <= 0x1_0000_0000_0000_0000) by (nonlinear_arith)
        requires
            -0x1_0000_0000 <= run <= 0x1_0000_0000,
            0 <= k <= 0x1_0000_0000,
    ;
    let n: i128 = xa as i128 * d + run * k;
    let q: i128 = n / d;
    q as i64
}

/// The three corners of a triangle.
#[derive(Debug, Clone, Copy, PartialEq, Eq, Structural)]
pub struct Corners {
    pub x1: i32,
    pub y1: i32,
    pub x2: i32,
    pub y2: i32,
    pub x3: i32,
    pub y3: i32,
}

impl Corners {
    /// The corners from the top row down: the first with the third where
    /// the first lies lower, then the first with the second, then the
    /// second with the third.
    pub open spec fn spec_by_row(self) -> Corners {
        let a = if self.y1 > self.y3 {
            Corners { x1: self.x3, y1: self.y3, x3: self.x1, y3: self.y1, ..self }
        } else {
            self
        };
        let b = if a.y1 > a.y2 {
            Corners { x1: a.x2, y1: a.y2, x2: a.x1, y2: a.y1, ..a }
        } else {
            a
        };
        if b.y2 > b.y3 {
            Corners { x2: b.x3, y2: b.y3, x3: b.x2, y3: b.y2, ..b }
        } else {
            b
        }
    }

    /// The corners from the top row down.
    pub fn by_row(self) -> (c: Corners)
        ensures
            c == self.spec_by_row(),
            c.y1 <= c.y2 <= c.y3,
    {
        let a: Corners = if self.y1 > self.y3 {
            Corners { x1: self.x3, y1: self.y3, x3: self.x1, y3: self.y1, ..self }
        } else {
            self
        };
        let b: Corners = if a.y1 > a.y2 {
            Corners { x1: a.x2, y1: a.y2, x2: a.x1, y2: a.y1, ..a }
        } else {
            a
        };
        if b.y2 > b.y3 {
            Corners { x2: b.x3, y2: b.y3, x3: b.x2, y3: b.y2, ..b }
        } else {
            b
        }
    }

    /// The interval of row `y` between the long edge, from the first corner
    /// to the third, and the short edge of that row: the one from the first
    /// corner to the second above the second corner's row, the one from the
    /// second to the third from that row on. The corners are in row order.
    pub open spec fn row(self) -> spec_fn(int) -> (int, int) {
        |y: int|
            {
                let long = edge_x(self.x1 as int, self.y1 as int, self.x3 as int, self.y3 as int, y);
                let short = if y < self.y2 {
                    edge_x(self.x1 as int, self.y1 as int, self.x2 as int, self.y2 as int, y)
                } else {
                    edge_x(self.x2 as int, self.y2 as int, self.x3 as int, self.y3 as int, y)
                };
                if long <= short {
                    (long, short)
                } else {
                    (short, long)
                }
            }
    }

    /// The spans of the triangle on a canvas of `w` by `h`: one for each
    /// row from its top corner to its bottom corner, cropped, from the top
    /// down.
    pub open spec fn spans(self, w: usize, h: usize) -> Seq<Scanline> {
        let c = self.spec_by_row();
        rows(w, h, c.row(), c.y1 as int, c.y3 + 1)
    }
}

/// The angle between the vectors `(ux, uy)` and `(vx, vy)` exceeds 15
/// degrees. With `dot` their inner product and `cross` twice the area of
/// the triangle that they span, the tangent of the angle is `cross / dot`,
/// and that of 15 degrees is `2 - sqrt(3)`: so the angle is the wider one
/// where `2 * dot - cross` is less than `sqrt(3) * dot`. Vectors on one
/// line enclose no such angle.
pub open spec fn wide_angle(ux: int, uy: int, vx: int, vy: int) -> bool {
    let dot = ux * vx + uy * vy;
    let area = ux * vy - uy * vx;
    let cross = if area < 0 { -area } else { area };
    let p = 2 * dot - cross;
    cross > 0 && (p <= 0 || p * p < 3 * (dot * dot))
}

/// Two to the power 68: the weight of the upper part of a wide number.
pub const UPPER: u128 = 0x10_0000_0000_0000_0000;

/// `k` times the square of `x`, as a wide number: an upper part, of the
/// weight `UPPER`, and a lower part below `UPPER`.
#[verifier::rlimit(40)]
pub fn wide_square(x: u128, k: u128) -> (r: (u128, u128))
    requires
        x <= 0x4_0000_0000_0000_0000,
        k <= 3,
    ensures
        r.0 * UPPER + r.1 == k * (x * x),
        r.1 < UPPER,
{
    let a1: u128 = x / 0x4_0000_0000;
    let a0: u128 = x % 0x4_0000_0000;
    assert(a1 * a1 <= 0x1_0000_0000 * 0x1_0000_0000 && a1 * a0 <= 0x1_0000_0000 * 0x4_0000_0000
        && a0 * a0 <= 0x4_0000_0000 * 0x4_0000_0000) by (nonlinear_arith)
        requires
            0 <= a1 <= 0x1_0000_0000,
            0 <= a0 < 0x4_0000_0000,
    ;
    let sq1: u128 = a1 * a1;
    let cross: u128 = 2 * (a1 * a0) * 0x4_0000_0000 + a0 * a0;
    assert(k * sq1 <= 3 * sq1 && k * cross <= 3 * cross) by (nonlinear_arith)
        requires
            0 <= k <= 3,
            0 <= sq1,
            0 <= cross,
    ;
    let top: u128 = k * sq1;
    let mid: u128 = k * cross;
    let hi: u128 = top + mid / UPPER;
    let lo: u128 = mid % UPPER;
    proof {
        let (xi, ki, b) = (x as int, k as int, 0x4_0000_0000int);
        let (h, l) = (a1 as int, a0 as int);
        let (hh, hl, ll, bb) = (h * h, h * l, l * l, b * b);
        assert(xi * xi == hh * bb + (2 * hl * b + ll)) by (nonlinear_arith)
            requires
                xi == h * b + l,
                hh == h * h,
                hl == h * l,
                ll == l * l,
                bb == b * b,
        ;
        let (square, upper, lower) = (xi * xi, hh * bb, 2 * hl * b + ll);
        assert(ki * square == (ki * hh) * bb + ki * lower) by (nonlinear_arith)
            requires
                square == upper + lower,
                upper == hh * bb,
        ;
        assert(bb == UPPER);
    }
    (hi, lo)
}

/// Whether the wide number `a` is less than the wide number `b`.
pub fn wide_less(a: (u128, u128), b: (u128, u128)) -> (less: bool)
    requires
        a.1 < UPPER,
        b.1 < UPPER,
    ensures
        less == (a.0 * UPPER + a.1 < b.0 * UPPER + b.1),
{
    proof {
        let (ah, al, bh, bl, m) = (a.0 as int, a.1 as int, b.0 as int, b.1 as int, UPPER as int);
        assert((ah < bh ==> ah * m + al < bh * m + bl) && (ah > bh ==> ah * m + al > bh * m + bl))
            by (nonlinear_arith)
            requires
                0 <= al < m,
                0 <= bl < m,
        ;
    }
    a.0 < b.0 || (a.0 == b.0 && a.1 < b.1)
}

/// Whether the angle between the vectors `(ux, uy)` and `(vx, vy)`
/// exceeds 15 degrees. The vectors are differences of whole numbers of 32
/// bits.
pub fn is_wide_angle(ux: i64, uy: i64, vx: i64, vy: i64) -> (wide: bool)
    requires
        -0xffff_ffff <= ux <= 0xffff_ffff,
        -0xffff_ffff <= uy <= 0xffff_ffff,
        -0xffff_ffff <= vx <= 0xffff_ffff,
        -0xffff_ffff <= vy <= 0xffff_ffff,
    ensures
        wide == wide_angle(ux as int, uy as int, vx as int, vy as int),
{
    assert(-0x1_0000_0000_0000_0000 <= ux * vx <= 0x1_0000_0000_0000_0000
        && -0x1_0000_0000_0000_0000 <= uy * vy <= 0x1_0000_0000_0000_0000
        && -0x1_0000_0000_0000_0000 <= ux * vy <= 0x1_0000_0000_0000_0000
        && -0x1_0000_0000_0000_0000 <= uy * vx <= 0x1_0000_0000_0000_0000) by (nonlinear_arith)
        requires
            -0x1_0000_0000 <= ux <= 0x1_0000_0000,
            -0x1_0000_0000 <= uy <= 0x1_0000_0000,
            -0x1_0000_0000 <= vx <= 0x1_0000_0000,
            -0x1_0000_0000 <= vy <= 0x1_0000_0000,
    ;
    let dot: i128 = (ux as i128) * (vx as i128) + (uy as i128) * (vy as i128);
    let area: i128 = (ux as i128) * (vy as i128) - (uy as i128) * (vx as i128);
    let cross: i128 = if area < 0 { -area } else { area };
    if cross == 0 {
        return false;
    }
    let p: i128 = 2 * dot - cross;
    if p <= 0 {
        return true;
    }
    let left: (u128, u128) = wide_square(p as u128, 1);
    let right: (u128, u128) = wide_square(dot as u128, 3);
    assert(1 * (p * p) == p * p) by (nonlinear_arith);
    wide_less(left, right)
}

impl Corners {
    /// Each of the three interior angles exceeds 15 degrees.
    pub open spec fn wide_angles(self) -> bool {
        &&& wide_angle(
            self.x2 - self.x1,
            self.y2 - self.y1,
            self.x3 - self.x1,
            self.y3 - self.y1,
        )
        &&& wide_angle(
            self.x1 - self.x2,
            self.y1 - self.y2,
            self.x3 - self.x2,
            self.y3 - self.y2,
        )
        &&& wide_angle(
            self.x1 - self.x3,
            self.y1 - self.y3,
            self.x2 - self.x3,
            self.y2 - self.y3,
        )
    }

    /// The triangle is one that the search keeps: each interior angle
    /// exceeds 15 degrees.
    pub open spec fn valid(self) -> bool {
        self.wide_angles()
    }
}

/// Whether the triangle with the given corners is valid: whether each
/// interior angle exceeds 15 degrees.
pub fn is_valid_triangle(tx1: i32, ty1: i32, tx2: i32, ty2: i32, tx3: i32, ty3: i32) -> (valid:
    bool)
    ensures
        valid == (Corners { x1: tx1, y1: ty1, x2: tx2, y2: ty2, x3: tx3, y3: ty3 }).valid(),
{
    let x1: i64 = tx1 as i64;
    let y1: i64 = ty1 as i64;
    let x2: i64 = tx2 as i64;
    let y2: i64 = ty2 as i64;
    let x3: i64 = tx3 as i64;
    let y3: i64 = ty3 as i64;
    is_wide_angle(x2 - x1, y2 - y1, x3 - x1, y3 - y1) && is_wide_angle(
        x1 - x2,
        y1 - y2,
        x3 - x2,
        y3 - y2,
    ) && is_wide_angle(x1 - x3, y1 - y3, x2 - x3, y2 - y3)
}

/// An edge from `(xa, ya)` down to `(xb, yb)`.
#[derive(Debug, Clone, Copy, PartialEq, Eq, Structural)]
pub struct Edge {
    pub xa: i32,
    pub ya: i32,
    pub xb: i32,
    pub yb: i32,
}

impl Edge {
    /// The column at which the edge crosses row `y`.
    pub open spec fn x(self, y: int) -> int {
        edge_x(self.xa as int, self.ya as int, self.xb as int, self.yb as int, y)
    }
}

/// The interval of each row between two edges.
pub open spec fn between(a: Edge, b: Edge) -> spec_fn(int) -> (int, int) {
    |y: int|
        if a.x(y) <= b.x(y) {
            (a.x(y), b.x(y))
        } else {
            (b.x(y), a.x(y))
        }
}

/// Writes the cropped spans of the rows `from..to` between the edges `a`
/// and `b` behind the first `offset` entries of `buf`, from the top down,
/// and returns their number.
pub fn sweep(
    w: usize,
    h: usize,
    a: Edge,
    b: Edge,
    from: i64,
    to: i64,
    buf: &mut Vec<Scanline>,
    offset: usize,
) -> (n: usize)
    requires
        from < to ==> a.ya <= from && to - 1 <= a.yb && b.ya <= from && to - 1 <= b.yb,
        offset + (clip_hi(h as int, from as int, to as int) - clip_lo(h as int, from as int))
            <= old(buf).len(),
    ensures
        n == rows(w, h, between(a, b), from as int, to as int).len(),
        n <= clip_hi(h as int, from as int, to as int) - clip_lo(h as int, from as int),
        filled_at(
            old(buf)@,
            offset as int,
            rows(w, h, between(a, b), from as int, to as int),
            final(buf)@,
        ),
{
    let ghost row = between(a, b);
    let ghost before = buf@;
    let (lo, hi) = clip_rows(h, from, to);
    proof {
        lemma_rows_clip(w, h, row, from as int, to as int);
        assert(buf@.subrange(0, offset as int) =~= before.subrange(0, offset as int)
            + Seq::<Scanline>::empty());
    }
    let mut count: usize = 0;
    let mut y: i64 = lo;
    while y < hi
        invariant
            0 <= lo <= y <= hi <= h,
            lo < hi ==> from <= lo && hi <= to,
            from < to ==> a.ya <= from && to - 1 <= a.yb && b.ya <= from && to - 1 <= b.yb,
            count <= y - lo,
            buf.len() == before.len(),
            offset + (hi - lo) <= before.len(),
            row == between(a, b),
            buf@.subrange(0, offset + count) == before.subrange(0, offset as int) + rows(
                w,
                h,
                row,
                lo as int,
                y as int,
            ),
            buf@.skip(offset + count) == before.skip(offset + count),
        decreases hi - y,
    {
        let ghost prev = buf@;
        let xa: i64 = edge_at(a.xa, a.ya, a.xb, a.yb, y);
        let xb: i64 = edge_at(b.xa, b.ya, b.xb, b.yb, y);
        let (left, right) = if xa <= xb { (xa, xb) } else { (xb, xa) };
        let mut line: Scanline = buf[offset + count];
        let set: bool = line.validating_set(w, h, y, left, right);
        assert(row(y as int) == (left as int, right as int));
        if set {
            buf[offset + count] = line;
            proof {
                lemma_emit(before, prev, offset + count, line);
                assert((before.subrange(0, offset as int) + rows(w, h, row, lo as int, y as int)).push(
                    line,
                ) =~= before.subrange(0, offset as int) + rows(w, h, row, lo as int, y as int).push(
                    line,
                ));
            }
            count += 1;
        }
        y += 1;
    }
    proof {
        let spans = rows(w, h, row, lo as int, hi as int);
        let whole = before.subrange(0, offset as int) + spans;
        assert(buf@.subrange(0, offset + count) == whole);
        assert(whole.len() == offset + spans.len());
        assert(buf@.subrange(0, offset as int) =~= whole.subrange(0, offset as int));
        assert(whole.subrange(0, offset as int) =~= before.subrange(0, offset as int));
        assert(buf@.subrange(offset as int, offset + count) =~= whole.subrange(
            offset as int,
            offset + count,
        ));
        assert(whole.subrange(offset as int, offset + count) =~= spans);
    }
    count
}

/// Writes the spans of the part of a triangle that ends in a level base:
/// the rows from the first corner down to, but without, the row of the
/// second, each between the edges that leave the first corner. The spans go
/// behind the first `offset` entries of `buf`; their number is returned.
pub fn rasterize_triangle_bottom(
    w: usize,
    h: usize,
    c: Corners,
    buf: &mut Vec<Scanline>,
    offset: usize,
) -> (n: usize)
    requires
        c.y1 <= c.y2 <= c.y3,
        offset + (clip_hi(h as int, c.y1 as int, c.y2 as int) - clip_lo(h as int, c.y1 as int))
            <= old(buf).len(),
    ensures
        n == rows(w, h, c.row(), c.y1 as int, c.y2 as int).len(),
        n <= clip_hi(h as int, c.y1 as int, c.y2 as int) - clip_lo(h as int, c.y1 as int),
        filled_at(
            old(buf)@,
            offset as int,
            rows(w, h, c.row(), c.y1 as int, c.y2 as int),
            final(buf)@,
        ),
{
    let long = Edge { xa: c.x1, ya: c.y1, xb: c.x3, yb: c.y3 };
    let short = Edge { xa: c.x1, ya: c.y1, xb: c.x2, yb: c.y2 };
    proof {
        assert forall|y: int| c.y1 <= y < c.y2 implies #[trigger] c.row()(y) == between(
            long,
            short,
        )(y) by {}
        lemma_rows_ext(w, h, c.row(), between(long, short), c.y1 as int, c.y2 as int);
    }
    sweep(w, h, long, short, c.y1 as i64, c.y2 as i64, buf, offset)
}

/// Writes the spans of the part of a triangle that starts at a level top:
/// the rows from the second corner down to the third, each between the
/// edges that reach the third corner. The spans go behind the first
/// `offset` entries of `buf`; their number is returned.
pub fn rasterize_triangle_top(
    w: usize,
    h: usize,
    c: Corners,
    buf: &mut Vec<Scanline>,
    offset: usize,
) -> (n: usize)
    requires
        c.y1 <= c.y2 <= c.y3,
        offset + (clip_hi(h as int, c.y2 as int, c.y3 + 1) - clip_lo(h as int, c.y2 as int))
            <= old(buf).len(),
    ensures
        n == rows(w, h, c.row(), c.y2 as int, c.y3 + 1).len(),
        n <= clip_hi(h as int, c.y2 as int, c.y3 + 1) - clip_lo(h as int, c.y2 as int),
        filled_at(
            old(buf)@,
            offset as int,
            rows(w, h, c.row(), c.y2 as int, c.y3 + 1),
            final(buf)@,
        ),
{
    let long = Edge { xa: c.x1, ya: c.y1, xb: c.x3, yb: c.y3 };
    let short = Edge { xa: c.x2, ya: c.y2, xb: c.x3, yb: c.y3 };
    proof {
        assert forall|y: int| c.y2 <= y < c.y3 + 1 implies #[trigger] c.row()(y) == between(
            long,
            short,
        )(y) by {}
        lemma_rows_ext(w, h, c.row(), between(long, short), c.y2 as int, c.y3 + 1);
    }
    sweep(w, h, long, short, c.y2 as i64, c.y3 as i64 + 1, buf, offset)
}

/// Writes the spans of the triangle with the given corners, cropped to a
/// canvas of `w` by `h`, to the front of `buf`, from the top down, and
/// returns their number.
pub fn rasterize_triangle(
    w: usize,
    h: usize,
    x1: i32,
    y1: i32,
    x2: i32,
    y2: i32,
    x3: i32,
    y3: i32,
    buf: &mut Vec<Scanline>,
) -> (n: usize)
    requires
        old(buf).len() > h,
    ensures
        n == (Corners { x1, y1, x2, y2, x3, y3 }).spans(w, h).len(),
        n <= h,
        filled(old(buf)@, (Corners { x1, y1, x2, y2, x3, y3 }).spans(w, h), final(buf)@),
{
    let ghost before = buf@;
    let c: Corners = (Corners { x1, y1, x2, y2, x3, y3 }).by_row();
    let first: usize = rasterize_triangle_bottom(w, h, c, buf, 0);
    let ghost mid = buf@;
    let last: usize = rasterize_triangle_top(w, h, c, buf, first);
    proof {
        lemma_rows_split(w, h, c.row(), c.y1 as int, c.y2 as int, c.y3 + 1);
        let upper = rows(w, h, c.row(), c.y1 as int, c.y2 as int);
        let lower = rows(w, h, c.row(), c.y2 as int, c.y3 + 1);
        assert(buf@.subrange(0, first + last) =~= buf@.subrange(0, first as int) + buf@.subrange(
            first as int,
            first + last,
        ));
        assert(mid.subrange(0, first as int) =~= upper);
        assert(mid.skip(first as int) =~= before.skip(first as int));
        assert(buf@.skip(first + last) =~= before.skip(first + last)) by {
            assert forall|k: int| 0 <= k < before.len() - first - last implies #[trigger] buf@.skip(
                first + last,
            )[k] == before.skip(first + last)[k] by {
                assert(mid.skip(first + last)[k] == mid.skip(first as int)[k + last]);
            }
        }
    }
    first + last
}

} // verus!
