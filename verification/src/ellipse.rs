//! The axis-aligned ellipse and its rasterizer.

use vstd::prelude::*;
use crate::numeric::{isqrt, spec_isqrt};
use crate::scanline::{Scanline, crop};
use crate::raster::{filled, lemma_emit};

verus! {

/// Half the width of the ellipse with radii `rx` and `ry` at the distance
/// `dy` from its centre row: the integer part of
/// `sqrt(ry * ry - dy * dy) * rx / ry`.
pub open spec fn half_width(rx: int, ry: int, dy: int) -> int {
    spec_isqrt((((ry * ry - dy * dy) * (rx * rx)) / (ry * ry)) as nat) as int
}

/// The span that `s` is, or none.
pub open spec fn one(s: Option<Scanline>) -> Seq<Scanline> {
    match s {
        Some(line) => seq![line],
        None => Seq::empty(),
    }
}

/// The spans of the rows at the distance `dy` from the centre row `y`: the
/// row above, then, where `dy` is not zero, the row below.
pub open spec fn ellipse_pair(
    w: usize,
    h: usize,
    x: int,
    y: int,
    rx: int,
    ry: int,
    dy: int,
) -> Seq<Scanline> {
    let s = half_width(rx, ry, dy);
    let above = one(crop(w, h, y - dy, x - s, x + s));
    if dy > 0 {
        above + one(crop(w, h, y + dy, x - s, x + s))
    } else {
        above
    }
}

/// The spans of the rows at the distances `0..n` from the centre row, by
/// distance.
pub open spec fn ellipse_upto(
    w: usize,
    h: usize,
    x: int,
    y: int,
    rx: int,
    ry: int,
    n: int,
) -> Seq<Scanline>
    decreases n,
{
    if n <= 0 {
        Seq::empty()
    } else {
        ellipse_upto(w, h, x, y, rx, ry, n - 1) + ellipse_pair(w, h, x, y, rx, ry, n - 1)
    }
}

/// The spans of the ellipse with centre `(x, y)` and radii `rx` and `ry`
/// on a canvas of `w` by `h`: for each distance `dy` of `0..ry` the row
/// `y - dy` and, where `dy` is not zero, the row `y + dy`, each cropped.
/// A negative `rx` gives none.
pub open spec fn ellipse_spans(w: usize, h: usize, x: int, y: int, rx: int, ry: int) -> Seq<
    Scanline,
> {
    if rx < 0 {
        Seq::empty()
    } else {
        ellipse_upto(w, h, x, y, rx, ry, ry)
    }
}

/// The number of rows of a canvas of height `h` that lie closer than `n`
/// rows to row `y`.
pub open spec fn band(h: int, y: int, n: int) -> int {
    let lo = if y - n + 1 < 0 { 0 } else { y - n + 1 };
    let hi = if y + n > h { h } else { y + n };
    if n <= 0 || hi <= lo {
        0
    } else {
        hi - lo
    }
}

/// The rows that the spans up to the distance `n` lie on are closer than
/// `n` to the centre row, each on the canvas and no two the same, so there
/// are at most as many spans as the canvas has such rows.
pub proof fn lemma_ellipse_upto_shape(
    w: usize,
    h: usize,
    x: int,
    y: int,
    rx: int,
    ry: int,
    n: int,
)
    ensures
        crate::scanline::all_within(ellipse_upto(w, h, x, y, rx, ry, n), w, h),
        crate::scanline::distinct_rows(ellipse_upto(w, h, x, y, rx, ry, n)),
        ellipse_upto(w, h, x, y, rx, ry, n).len() <= band(h as int, y, n),
        forall|i: int|
            0 <= i < ellipse_upto(w, h, x, y, rx, ry, n).len() ==> y - n < (#[trigger] ellipse_upto(
                w,
                h,
                x,
                y,
                rx,
                ry,
                n,
            )[i]).y < y + n,
    decreases n,
{
    if n > 0 {
        lemma_ellipse_upto_shape(w, h, x, y, rx, ry, n - 1);
        let rest = ellipse_upto(w, h, x, y, rx, ry, n - 1);
        let pair = ellipse_pair(w, h, x, y, rx, ry, n - 1);
        let all = ellipse_upto(w, h, x, y, rx, ry, n);
        let dy = n - 1;
        let s = half_width(rx, ry, dy);
        assert(all == rest + pair);
        assert forall|i: int| 0 <= i < pair.len() implies (#[trigger] pair[i]).within(w, h) && (
        pair[i].y == y - dy || pair[i].y == y + dy) by {}
        assert forall|i: int, j: int| 0 <= i < j < pair.len() implies (#[trigger] pair[i]).y != (
        #[trigger] pair[j]).y by {
            assert(pair.len() == 2);
            assert(dy > 0);
            assert(pair[0].y == y - dy);
            assert(pair[1].y == y + dy);
        }
        assert forall|i: int| 0 <= i < all.len() implies (#[trigger] all[i]).within(w, h) && y - n
            < all[i].y < y + n by {
            if i < rest.len() {
                assert(all[i] == rest[i]);
            } else {
                assert(all[i] == pair[i - rest.len()]);
            }
        }
        assert forall|i: int, j: int| 0 <= i < j < all.len() implies (#[trigger] all[i]).y != (
        #[trigger] all[j]).y by {
            if j < rest.len() {
                assert(all[i] == rest[i]);
                assert(all[j] == rest[j]);
            } else if i < rest.len() {
                assert(all[i] == rest[i]);
                assert(all[j] == pair[j - rest.len()]);
            } else {
                assert(all[i] == pair[i - rest.len()]);
                assert(all[j] == pair[j - rest.len()]);
            }
        }
    }
}

/// Half the width of the ellipse at the distance `dy` from its centre row.
pub fn half_width_at(rx: i32, ry: i32, dy: i32) -> (s: i64)
    requires
        0 <= rx,
        0 <= dy < ry,
    ensures
        s == half_width(rx as int, ry as int, dy as int),
        0 <= s <= rx,
{
    let a: u128 = rx as u128;
    let b: u128 = ry as u128;
    let d: u128 = dy as u128;
    assert(b * b <= 0x4000_0000_0000_0000 && d * d < b * b && a * a <= 0x4000_0000_0000_0000
        && b * b >= 1) by (nonlinear_arith)
        requires
            0 <= a < 0x8000_0000,
            0 <= d < b < 0x8000_0000,
    ;
    let rise: u128 = b * b - d * d;
    assert(rise * (a * a) <= (b * b) * (a * a) && (b * b) * (a * a)
        <= 0x4000_0000_0000_0000 * 0x4000_0000_0000_0000) by (nonlinear_arith)
        requires
            0 <= rise <= b * b,
            b * b <= 0x4000_0000_0000_0000,
            0 <= a * a <= 0x4000_0000_0000_0000,
    ;
    let q: u128 = (rise * (a * a)) / (b * b);
    let r: u64 = isqrt(q);
    proof {
        assert(q <= a * a) by (nonlinear_arith)
            requires
                q == (rise * (a * a)) / (b * b),
                rise * (a * a) <= (b * b) * (a * a),
                b * b >= 1,
        ;
        assert(r <= a) by (nonlinear_arith)
            requires
                r * r <= q,
                q <= a * a,
                0 <= r,
                0 <= a,
        ;
    }
    r as i64
}

/// Writes the spans of the ellipse with centre `(x, y)` and radii `rx` and
/// `ry`, cropped to a canvas of `w` by `h`, to the front of `buf`, by their
/// distance from the centre row, and returns their number.
pub fn rasterize_ellipse(
    w: usize,
    h: usize,
    x: i32,
    y: i32,
    rx: i32,
    ry: i32,
    buf: &mut Vec<Scanline>,
) -> (n: usize)
    requires
        old(buf).len() > h,
    ensures
        n == ellipse_spans(w, h, x as int, y as int, rx as int, ry as int).len(),
        n <= h,
        filled(
            old(buf)@,
            ellipse_spans(w, h, x as int, y as int, rx as int, ry as int),
            final(buf)@,
        ),
{
    let ghost before = buf@;
    proof {
        assert(buf@.subrange(0, 0) =~= Seq::<Scanline>::empty());
    }
    if rx < 0 || ry <= 0 {
        return 0;
    }
    let mut count: usize = 0;
    let mut dy: i32 = 0;
    while dy < ry
        invariant
            0 <= rx,
            0 <= dy <= ry,
            count <= band(h as int, y as int, dy as int),
            buf.len() == before.len(),
            before.len() > h,
            buf@.subrange(0, count as int) == ellipse_upto(
                w,
                h,
                x as int,
                y as int,
                rx as int,
                ry as int,
                dy as int,
            ),
            buf@.skip(count as int) == before.skip(count as int),
        decreases ry - dy,
    {
        let ghost rest = ellipse_upto(w, h, x as int, y as int, rx as int, ry as int, dy as int);
        let ghost pair = ellipse_pair(w, h, x as int, y as int, rx as int, ry as int, dy as int);
        proof {
            lemma_ellipse_upto_shape(w, h, x as int, y as int, rx as int, ry as int, dy + 1);
            assert(ellipse_upto(w, h, x as int, y as int, rx as int, ry as int, dy + 1) == rest
                + pair);
            assert(rest + Seq::<Scanline>::empty() =~= rest);
        }
        let above: i64 = y as i64 - dy as i64;
        let below: i64 = y as i64 + dy as i64;
        let off_above: bool = above < 0 || above as u64 >= h as u64;
        let off_below: bool = dy == 0 || below < 0 || below as u64 >= h as u64;
        if off_above && off_below {
            // neither row lies on the canvas
            assert(pair =~= Seq::<Scanline>::empty());
        } else {
            let s: i64 = half_width_at(rx, ry, dy);
            let left: i64 = x as i64 - s;
            let right: i64 = x as i64 + s;
            let mut line: Scanline = Scanline::empty();
            if line.validating_set(w, h, above, left, right) {
                let ghost prev = buf@;
                buf[count] = line;
                proof {
                    lemma_emit(before, prev, count as int, line);
                    assert(rest.push(line) =~= rest + seq![line]);
                }
                count += 1;
            }
            if dy > 0 {
                let ghost sofar = buf@.subrange(0, count as int);
                if line.validating_set(w, h, below, left, right) {
                    let ghost prev = buf@;
                    buf[count] = line;
                    proof {
                        lemma_emit(before, prev, count as int, line);
                        assert(sofar.push(line) =~= rest + pair);
                    }
                    count += 1;
                } else {
                    assert(sofar =~= rest + pair);
                }
            }
        }
        dy += 1;
    }
    count
}

} // verus!
