//! The rotated rectangle: fixed-point rotation of its corners, the walk
//! along its outline, and its rasterizer.

use vstd::prelude::*;
use crate::numeric::{isqrt, spec_isqrt, trunc_div, lemma_trunc_div_between};
use crate::raster::{rows, clip_rows, filled, lemma_rows_clip, lemma_emit};
use crate::scanline::Scanline;
use crate::triangle::lemma_lerp_between;

verus! {

/// The sines of the whole degrees from 0 to 90, in units of 1/65536,
/// rounded to the nearest unit.
pub const SINE: [u32; 91] = [
    0, 1144, 2287, 3430, 4572, 5712, 6850, 7987, 9121, 10252,
    11380, 12505, 13626, 14742, 15855, 16962, 18064, 19161, 20252, 21336,
    22415, 23486, 24550, 25607, 26656, 27697, 28729, 29753, 30767, 31772,
    32768, 33754, 34729, 35693, 36647, 37590, 38521, 39441, 40348, 41243,
    42126, 42995, 43852, 44695, 45525, 46341, 47143, 47930, 48703, 49461,
    50203, 50931, 51643, 52339, 53020, 53684, 54332, 54963, 55578, 56175,
    56756, 57319, 57865, 58393, 58903, 59396, 59870, 60326, 60764, 61183,
    61584, 61966, 62328, 62672, 62997, 63303, 63589, 63856, 64104, 64332,
    64540, 64729, 64898, 65048, 65177, 65287, 65376, 65446, 65496, 65526,
    65536,
];

/// The sine of `angle` degrees in units of 1/65536, from the table by the
/// symmetries of the sine.
pub open spec fn spec_sin(angle: int) -> int {
    let a = angle % 360;
    if a <= 90 {
        SINE@[a] as int
    } else if a <= 180 {
        SINE@[180 - a] as int
    } else if a <= 270 {
        -(SINE@[a - 180] as int)
    } else {
        -(SINE@[360 - a] as int)
    }
}

/// The cosine of `angle` degrees in units of 1/65536: the sine of the
/// angle a quarter turn further.
pub open spec fn spec_cos(angle: int) -> int {
    spec_sin(angle + 90)
}

/// No entry of the table exceeds one.
pub proof fn lemma_sine_bound(i: int)
    requires
        0 <= i <= 90,
    ensures
        0 <= SINE@[i] <= 65536,
{
}

/// The sine of `angle` degrees in units of 1/65536.
#[verifier::rlimit(40)]
pub fn sin_deg(angle: i64) -> (s: i64)
    ensures
        s == spec_sin(angle as int),
        -65536 <= s <= 65536,
{
    let t: i64 = angle % 360;
    let a: i64 = if t < 0 { t + 360 } else { t };
    proof {
        if a <= 90 {
            lemma_sine_bound(a as int);
        } else if a <= 180 {
            lemma_sine_bound(180 - a);
        } else if a <= 270 {
            lemma_sine_bound(a - 180);
        } else {
            lemma_sine_bound(360 - a);
        }
    }
    if a <= 90 {
        SINE[a as usize] as i64
    } else if a <= 180 {
        SINE[(180 - a) as usize] as i64
    } else if a <= 270 {
        -(SINE[(a - 180) as usize] as i64)
    } else {
        -(SINE[(360 - a) as usize] as i64)
    }
}

/// The cosine of `angle` degrees in units of 1/65536.
pub fn cos_deg(angle: i32) -> (c: i64)
    ensures
        c == spec_cos(angle as int),
        -65536 <= c <= 65536,
{
    sin_deg(angle as i64 + 90)
}

/// A point of the pixel grid.
#[derive(Debug, Clone, Copy, PartialEq, Eq, Structural)]
pub struct Point {
    pub x: i64,
    pub y: i64,
}

/// The largest distance from an axis at which the outline is walked.
pub const REACH: i64 = 0x2_0000_0000;

impl Point {
    /// Both coordinates lie within `REACH` of zero.
    pub open spec fn near(self) -> bool {
        -REACH <= self.x <= REACH && -REACH <= self.y <= REACH
    }
}

/// The offset `(px, py)` turned by `angle` degrees, each coordinate rounded
/// towards zero.
pub open spec fn turn(px: int, py: int, angle: int) -> (int, int) {
    (
        trunc_div(px * spec_cos(angle) - py * spec_sin(angle), 65536),
        trunc_div(px * spec_sin(angle) + py * spec_cos(angle), 65536),
    )
}

/// The corner of the rectangle of `sx` by `sy` pixels about `(x, y)` that
/// lies at the offset `(px, py)` before the rectangle is turned.
pub open spec fn spec_corner(px: int, py: int, x: int, y: int, angle: int) -> Point {
    Point {
        x: (x + turn(px, py, angle).0) as i64,
        y: (y + turn(px, py, angle).1) as i64,
    }
}

/// The first column or row of a side of `s` pixels, as an offset from the
/// centre: half the side, rounded towards zero, to the left or above.
pub open spec fn spec_near_side(s: int) -> int {
    -trunc_div(s, 2)
}

/// The last column or row of a side of `s` pixels, as an offset from the
/// centre.
pub open spec fn spec_far_side(s: int) -> int {
    spec_near_side(s) + s - 1
}

/// The four corners of the rotated rectangle, in the order in which its
/// outline is walked: at angle 0 the top left, top right, bottom right and
/// bottom left of a block of `sx` by `sy` pixels.
pub open spec fn outline(x: int, y: int, sx: int, sy: int, angle: int) -> Seq<Point> {
    seq![
        spec_corner(spec_near_side(sx), spec_near_side(sy), x, y, angle),
        spec_corner(spec_far_side(sx), spec_near_side(sy), x, y, angle),
        spec_corner(spec_far_side(sx), spec_far_side(sy), x, y, angle),
        spec_corner(spec_near_side(sx), spec_far_side(sy), x, y, angle),
    ]
}

/// The corner at the offset `(px, py)` from the centre `(x, y)`, turned by
/// `angle` degrees.
pub fn corner(px: i64, py: i64, x: i32, y: i32, angle: i32) -> (p: Point)
    requires
        -0x8000_0000 <= px <= 0x8000_0000,
        -0x8000_0000 <= py <= 0x8000_0000,
    ensures
        p == spec_corner(px as int, py as int, x as int, y as int, angle as int),
        p.near(),
{
    let c: i64 = cos_deg(angle);
    let s: i64 = sin_deg(angle as i64);
    assert(-0x8000_0000_0000 <= px * c <= 0x8000_0000_0000 && -0x8000_0000_0000 <= py * s
        <= 0x8000_0000_0000 && -0x8000_0000_0000 <= px * s <= 0x8000_0000_0000
        && -0x8000_0000_0000 <= py * c <= 0x8000_0000_0000) by (nonlinear_arith)
        requires
            -0x8000_0000 <= px <= 0x8000_0000,
            -0x8000_0000 <= py <= 0x8000_0000,
            -65536 <= c <= 65536,
            -65536 <= s <= 65536,
    ;
    let along: i64 = px * c - py * s;
    let across: i64 = px * s + py * c;
    proof {
        lemma_trunc_div_between(along as int, 65536, -0x1_0000_0000, 0x1_0000_0000);
        lemma_trunc_div_between(across as int, 65536, -0x1_0000_0000, 0x1_0000_0000);
    }
    Point { x: x as i64 + along / 65536, y: y as i64 + across / 65536 }
}

/// The least whole number whose square is at least `n`.
pub open spec fn spec_ceil_sqrt(n: nat) -> nat {
    if spec_isqrt(n) * spec_isqrt(n) == n {
        spec_isqrt(n)
    } else {
        spec_isqrt(n) + 1
    }
}

/// The number of samples taken along the edge from `a` to `b`: twice its
/// length, rounded up to a whole number.
pub open spec fn sample_count(a: Point, b: Point) -> int {
    2 * (spec_ceil_sqrt(((b.x - a.x) * (b.x - a.x) + (b.y - a.y) * (b.y - a.y)) as nat) as int)
}

/// The `j`-th of the samples along the edge from `a` to `b`: the point at
/// the fraction `j / (sample_count - 1)` of the way, each coordinate
/// rounded towards zero.
pub open spec fn sample(a: Point, b: Point, j: int) -> (int, int) {
    let m = sample_count(a, b) - 1;
    (trunc_div(a.x * m + (b.x - a.x) * j, m), trunc_div(a.y * m + (b.y - a.y) * j, m))
}

/// The interval `e`, widened to hold `x`.
pub open spec fn widen(e: Option<(int, int)>, x: int) -> Option<(int, int)> {
    match e {
        None => Some((x, x)),
        Some((lo, hi)) => Some((if x < lo { x } else { lo }, if x > hi { x } else { hi })),
    }
}

/// The interval `e`, widened to hold the columns of those of the first `n`
/// samples along the edge from `a` to `b` that lie on row `y`.
pub open spec fn edge_extent(e: Option<(int, int)>, a: Point, b: Point, n: int, y: int) -> Option<
    (int, int),
>
    decreases n,
{
    if n <= 0 {
        e
    } else {
        let before = edge_extent(e, a, b, n - 1, y);
        if sample(a, b, n - 1).1 == y {
            widen(before, sample(a, b, n - 1).0)
        } else {
            before
        }
    }
}

/// All samples along the edge from `a` to `b`, added to the interval `e`
/// of row `y`.
pub open spec fn whole_edge(e: Option<(int, int)>, a: Point, b: Point, y: int) -> Option<
    (int, int),
> {
    edge_extent(e, a, b, sample_count(a, b), y)
}

/// The least and the greatest column of the samples on row `y` along the
/// closed outline through the four points `c`, or `None` where no sample
/// lies on that row.
pub open spec fn outline_extent(c: Seq<Point>, y: int) -> Option<(int, int)> {
    whole_edge(
        whole_edge(whole_edge(whole_edge(None, c[0], c[1], y), c[1], c[2], y), c[2], c[3], y),
        c[3],
        c[0],
        y,
    )
}

/// The interval of each row between the least and the greatest sample of
/// the outline on it; an empty interval where the row has no sample.
pub open spec fn outline_row(c: Seq<Point>) -> spec_fn(int) -> (int, int) {
    |y: int|
        match outline_extent(c, y) {
            Some(e) => e,
            None => (1, 0),
        }
}

/// The least of the rows of four points.
pub open spec fn top_row(c: Seq<Point>) -> int {
    let a = if c[0].y < c[1].y { c[0].y } else { c[1].y };
    let b = if c[2].y < c[3].y { c[2].y } else { c[3].y };
    if a < b { a as int } else { b as int }
}

/// The greatest of the rows of four points.
pub open spec fn bottom_row(c: Seq<Point>) -> int {
    let a = if c[0].y > c[1].y { c[0].y } else { c[1].y };
    let b = if c[2].y > c[3].y { c[2].y } else { c[3].y };
    if a > b { a as int } else { b as int }
}

/// The spans of the rotated rectangle on a canvas of `w` by `h`: for each
/// row from the highest corner to the lowest, the columns from the least
/// to the greatest sample of the outline on that row, cropped.
pub open spec fn rotated_spans(
    w: usize,
    h: usize,
    x: int,
    y: int,
    sx: int,
    sy: int,
    angle: int,
) -> Seq<Scanline> {
    let c = outline(x, y, sx, sy, angle);
    rows(w, h, outline_row(c), top_row(c), bottom_row(c) + 1)
}

/// The number of samples taken along the edge from `a` to `b`.
pub fn count_samples(a: Point, b: Point) -> (n: u64)
    requires
        a.near(),
        b.near(),
    ensures
        n == sample_count(a, b),
        n <= 0x10_0000_0002,
{
    let dx: i128 = b.x as i128 - a.x as i128;
    let dy: i128 = b.y as i128 - a.y as i128;
    assert(0 <= dx * dx <= 0x10_0000_0000_0000_0000 && 0 <= dy * dy <= 0x10_0000_0000_0000_0000)
        by (nonlinear_arith)
        requires
            -0x4_0000_0000 <= dx <= 0x4_0000_0000,
            -0x4_0000_0000 <= dy <= 0x4_0000_0000,
    ;
    let square: u128 = (dx * dx + dy * dy) as u128;
    let r: u64 = isqrt(square);
    assert(r <= 0x8_0000_0000) by (nonlinear_arith)
        requires
            r * r <= square,
            square <= 0x20_0000_0000_0000_0000,
            0 <= r,
    ;
    let whole: bool = (r as u128) * (r as u128) == square;
    if whole {
        2 * r
    } else {
        2 * (r + 1)
    }
}

/// The least and greatest column noted for the `i`-th row, if any.
pub open spec fn cell(mins: Seq<i64>, maxs: Seq<i64>, i: int) -> Option<(int, int)> {
    if mins[i] > maxs[i] {
        None
    } else {
        Some((mins[i] as int, maxs[i] as int))
    }
}

/// A row without columns is noted as the empty interval from the greatest
/// number to the least.
pub open spec fn cells_ok(mins: Seq<i64>, maxs: Seq<i64>) -> bool {
    &&& mins.len() == maxs.len()
    &&& forall|i: int|
        0 <= i < mins.len() && #[trigger] mins[i] > maxs[i] ==> mins[i] == i64::MAX && maxs[i]
            == i64::MIN
}

/// Walks the samples along the edge from `a` to `b` and widens, for each
/// of the rows `lo..lo + mins.len()`, the interval noted for that row to
/// hold the samples on it.
#[verifier::rlimit(40)]
pub fn walk_edge(a: Point, b: Point, lo: i64, mins: &mut Vec<i64>, maxs: &mut Vec<i64>)
    requires
        a.near(),
        b.near(),
        0 <= lo,
        lo + old(mins).len() <= i64::MAX,
        cells_ok(old(mins)@, old(maxs)@),
    ensures
        final(mins).len() == old(mins).len(),
        cells_ok(final(mins)@, final(maxs)@),
        forall|i: int|
            0 <= i < old(mins).len() ==> #[trigger] cell(final(mins)@, final(maxs)@, i)
                == whole_edge(cell(old(mins)@, old(maxs)@, i), a, b, lo + i),
{
    let ghost mins0 = mins@;
    let ghost maxs0 = maxs@;
    let count: u64 = count_samples(a, b);
    if count == 0 {
        return ;
    }
    let m: i128 = count as i128 - 1;
    let len: usize = mins.len();
    let run: i128 = b.x as i128 - a.x as i128;
    let rise: i128 = b.y as i128 - a.y as i128;
    let mut j: u64 = 0;
    while j < count
        invariant
            a.near(),
            b.near(),
            0 <= lo,
            lo + len <= i64::MAX,
            count == sample_count(a, b),
            2 <= count <= 0x10_0000_0002,
            m == count - 1,
            run == b.x - a.x,
            rise == b.y - a.y,
            0 <= j <= count,
            mins.len() == len,
            mins0.len() == len,
            cells_ok(mins@, maxs@),
            forall|i: int|
                0 <= i < len ==> #[trigger] cell(mins@, maxs@, i) == edge_extent(
                    cell(mins0, maxs0, i),
                    a,
                    b,
                    j as int,
                    lo + i,
                ),
        decreases count - j,
    {
        let ghost mins1 = mins@;
        let ghost maxs1 = maxs@;
        let k: i128 = j as i128;
        proof {
            lemma_lerp_between(a.x as int, b.x as int, k as int, m as int);
            lemma_lerp_between(a.y as int, b.y as int, k as int, m as int);
            assert(-0x40_0000_0000_0000_0000_0000 <= a.x * m <= 0x40_0000_0000_0000_0000_0000
                && -0x40_0000_0000_0000_0000_0000 <= a.y * m <= 0x40_0000_0000_0000_0000_0000
                && -0x40_0000_0000_0000_0000_0000 <= run * k <= 0x40_0000_0000_0000_0000_0000
                && -0x40_0000_0000_0000_0000_0000 <= rise * k <= 0x40_0000_0000_0000_0000_0000)
                by (nonlinear_arith)
                requires
                    -0x2_0000_0000 <= a.x <= 0x2_0000_0000,
                    -0x2_0000_0000 <= a.y <= 0x2_0000_0000,
                    -0x4_0000_0000 <= run <= 0x4_0000_0000,
                    -0x4_0000_0000 <= rise <= 0x4_0000_0000,
                    0 <= k <= m,
                    m <= 0x10_0000_0002,
            ;
        }
        let px: i128 = (a.x as i128 * m + run * k) / m;
        let py: i128 = (a.y as i128 * m + rise * k) / m;
        assert(px == sample(a, b, j as int).0);
        assert(py == sample(a, b, j as int).1);
        if py >= lo as i128 && py - (lo as i128) < len as i128 {
            let i: usize = (py - lo as i128) as usize;
            let x: i64 = px as i64;
            if x < mins[i] {
                mins[i] = x;
            }
            if x > maxs[i] {
                maxs[i] = x;
            }
            assert(cell(mins@, maxs@, i as int) == widen(cell(mins1, maxs1, i as int), x as int));
            assert forall|r: int| 0 <= r < len implies #[trigger] cell(mins@, maxs@, r)
                == edge_extent(cell(mins0, maxs0, r), a, b, j + 1, lo + r) by {
                if r != i {
                    assert(cell(mins@, maxs@, r) == cell(mins1, maxs1, r));
                }
            }
        } else {
            assert forall|r: int| 0 <= r < len implies #[trigger] cell(mins@, maxs@, r)
                == edge_extent(cell(mins0, maxs0, r), a, b, j + 1, lo + r) by {}
        }
        j += 1;
    }
}

/// A note of `n` rows, none of which holds a column yet: the least
/// columns, all the greatest number, and the greatest columns, all the
/// least number.
pub fn blank_rows(n: usize) -> (r: (Vec<i64>, Vec<i64>))
    ensures
        r.0.len() == n,
        cells_ok(r.0@, r.1@),
        forall|i: int| 0 <= i < n ==> #[trigger] cell(r.0@, r.1@, i) == None::<(int, int)>,
{
    let mut mins: Vec<i64> = Vec::new();
    let mut maxs: Vec<i64> = Vec::new();
    let mut i: usize = 0;
    while i < n
        invariant
            i <= n,
            mins.len() == i,
            maxs.len() == i,
            forall|k: int| 0 <= k < i ==> #[trigger] mins[k] == i64::MAX && maxs[k] == i64::MIN,
        decreases n - i,
    {
        mins.push(i64::MAX);
        maxs.push(i64::MIN);
        i += 1;
    }
    (mins, maxs)
}

/// Writes the spans of the rectangle of `sx` by `sy` pixels about
/// `(x, y)`, turned by `angle` degrees and cropped to a canvas of `w` by
/// `h`, to the front of `buf`, from the top down, and returns their
/// number.
#[verifier::rlimit(40)]
pub fn rasterize_rotated_rectangle(
    w: usize,
    h: usize,
    x: i32,
    y: i32,
    sx: i32,
    sy: i32,
    angle: i32,
    buf: &mut Vec<Scanline>,
) -> (n: usize)
    requires
        old(buf).len() > h,
    ensures
        n == rotated_spans(w, h, x as int, y as int, sx as int, sy as int, angle as int).len(),
        n <= h,
        filled(
            old(buf)@,
            rotated_spans(w, h, x as int, y as int, sx as int, sy as int, angle as int),
            final(buf)@,
        ),
{
    let ghost before = buf@;
    let ghost c = outline(x as int, y as int, sx as int, sy as int, angle as int);
    let left: i64 = -((sx / 2) as i64);
    let right: i64 = left + sx as i64 - 1;
    let top: i64 = -((sy / 2) as i64);
    let bottom: i64 = top + sy as i64 - 1;
    let c0: Point = corner(left, top, x, y, angle);
    let c1: Point = corner(right, top, x, y, angle);
    let c2: Point = corner(right, bottom, x, y, angle);
    let c3: Point = corner(left, bottom, x, y, angle);
    assert(c0 == c[0] && c1 == c[1] && c2 == c[2] && c3 == c[3]);
    let upper: i64 = if c0.y < c1.y { c0.y } else { c1.y };
    let lower: i64 = if c2.y < c3.y { c2.y } else { c3.y };
    let first: i64 = if upper < lower { upper } else { lower };
    let upper: i64 = if c0.y > c1.y { c0.y } else { c1.y };
    let lower: i64 = if c2.y > c3.y { c2.y } else { c3.y };
    let last: i64 = if upper > lower { upper } else { lower };
    let (lo, hi) = clip_rows(h, first, last + 1);
    let (mut mins, mut maxs) = blank_rows((hi - lo) as usize);
    walk_edge(c0, c1, lo, &mut mins, &mut maxs);
    walk_edge(c1, c2, lo, &mut mins, &mut maxs);
    walk_edge(c2, c3, lo, &mut mins, &mut maxs);
    walk_edge(c3, c0, lo, &mut mins, &mut maxs);
    let ghost row = outline_row(c);
    proof {
        lemma_rows_clip(w, h, row, first as int, last + 1);
        assert(buf@.subrange(0, 0) =~= Seq::<Scanline>::empty());
        assert forall|i: int| 0 <= i < hi - lo implies #[trigger] cell(mins@, maxs@, i)
            == outline_extent(c, lo + i) by {}
    }
    let mut count: usize = 0;
    let mut r: i64 = lo;
    while r < hi
        invariant
            0 <= lo <= r <= hi <= h,
            count <= r - lo,
            buf.len() == before.len(),
            before.len() > h,
            mins.len() == hi - lo,
            maxs.len() == hi - lo,
            row == outline_row(c),
            forall|i: int|
                0 <= i < hi - lo ==> #[trigger] cell(mins@, maxs@, i) == outline_extent(c, lo + i),
            buf@.subrange(0, count as int) == rows(w, h, row, lo as int, r as int),
            buf@.skip(count as int) == before.skip(count as int),
        decreases hi - r,
    {
        let ghost prev = buf@;
        let i: usize = (r - lo) as usize;
        let a: i64 = mins[i];
        let b: i64 = maxs[i];
        assert(cell(mins@, maxs@, i as int) == outline_extent(c, r as int));
        if a <= b {
            assert(row(r as int) == (a as int, b as int));
            let mut line: Scanline = buf[count];
            if line.validating_set(w, h, r, a, b) {
                buf[count] = line;
                proof {
                    lemma_emit(before, prev, count as int, line);
                }
                count += 1;
            }
        } else {
            assert(row(r as int) == (1int, 0int));
        }
        r += 1;
    }
    count
}

} // verus!
